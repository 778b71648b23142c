//! The trusted boundary to the push transport: non-blocking enqueue of one
//! frame into one subscriber's bounded channel. Nothing is promised of the
//! outcome — whether a frame can be enqueued depends on the peer and on how
//! full the channel is — so every caller treats both results as possible.

use vstd::prelude::*;
use actix_web_lab::sse;
use bytestring::ByteString;

verus! {

#[verifier::external_type_specification]
#[verifier::external_body]
pub struct ExSseSender(sse::Sender);

/// Relies on actix_web_lab::sse::Sender::try_send: non-blocking enqueue of
/// a data frame tagged `Connection`, failing when the channel is full or
/// closed.
#[verifier::external_body]
pub(crate) fn send_joined_frame(channel: &sse::Sender, user_id: usize, name: &str) -> bool {
    let payload = format!("{{\"user_id\":{},\"name\":{:?}}}", user_id, name);
    let data = sse::Data::new(payload).event("Connection");
    channel.try_send(sse::Event::Data(data)).is_ok()
}

/// Relies on actix_web_lab::sse::Sender::try_send: non-blocking enqueue of
/// a data frame tagged `Disconnection`, failing when the channel is full or
/// closed.
#[verifier::external_body]
pub(crate) fn send_left_frame(channel: &sse::Sender, user_id: usize, name: &str) -> bool {
    let payload = format!("{{\"user_id\":{},\"name\":{:?}}}", user_id, name);
    let data = sse::Data::new(payload).event("Disconnection");
    channel.try_send(sse::Event::Data(data)).is_ok()
}

/// Relies on actix_web_lab::sse::Sender::try_send: non-blocking enqueue of
/// a data frame tagged `Message`, failing when the channel is full or
/// closed.
#[verifier::external_body]
pub(crate) fn send_message_frame(
    channel: &sse::Sender,
    id: i32,
    user_id: i32,
    user_name: &str,
    text: &str,
    creation_date: i64,
) -> bool {
    let payload = format!(
        "{{\"id\":{},\"user_id\":{},\"user_name\":{:?},\"text\":{:?},\"creation_date\":{}}}",
        id, user_id, user_name, text, creation_date,
    );
    let data = sse::Data::new(payload).event("Message");
    channel.try_send(sse::Event::Data(data)).is_ok()
}

/// Relies on actix_web_lab::sse::Sender::try_send: non-blocking enqueue of
/// a comment frame, used as the liveness probe, failing when the channel is
/// full or closed.
#[verifier::external_body]
pub(crate) fn send_ping_frame(channel: &sse::Sender) -> bool {
    channel.try_send(sse::Event::Comment(ByteString::from_static("ping"))).is_ok()
}

} // verus!
