[package]
name = "chat_broadcast"
version = "0.1.0"
edition = "2021"
publish = false

[dependencies]
actix = "=0.13.5"
actix-rt = "=2.15.0"
actix-session = { version = "=0.11.0", features = ["cookie-session"] }
actix-web = "=4.15.0"
actix-web-lab = "=0.19.2"
bytestring = "=1.5.1"
chrono = "=0.4.45"
serde = { version = "=1.0.229", features = ["derive"] }
serde_json = "=1.0.151"
uuid = { version = "=1.27.0", features = ["v4"] }

[dev-dependencies]
futures = "=0.3.34"
