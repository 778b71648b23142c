//! Fan-out coordinator for a single shared chat channel.
//!
//! The coordinator tracks which clients hold live push connections, applies
//! Subscribe / Unsubscribe / Publish commands one at a time against a
//! registry of subscribers, emits presence and message events, and probes
//! every connection periodically so that silently dead peers are evicted.

pub mod frames;
pub mod session;
pub mod registry;
pub mod sink;
pub mod broadcaster;
pub mod laws;

pub use broadcaster::ChatBroadcaster;
pub use broadcaster::Delivery;
pub use frames::Connect;
pub use frames::Disconnect;
pub use frames::EventFrame;
pub use frames::Message;
pub use frames::PersistError;
pub use frames::SendMessage;
pub use session::Session;
