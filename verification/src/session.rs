//! One subscriber: a live push connection bound to a user identity.

use vstd::prelude::*;
use actix_web_lab::sse;

verus! {

/// One live push connection. `id` is unique per connection and never
/// reused; `user_id` is stable across a user's simultaneous connections.
/// `channel` is the bounded handle used to enqueue outbound frames to the
/// peer without blocking.
pub struct Session {
    pub id: u128,
    pub user_id: usize,
    pub name: String,
    pub channel: sse::Sender,
}

/// Mathematical image of a `Session`: its identity, without the channel.
#[verifier::ext_equal]
pub struct SubV {
    pub id: int,
    pub user_id: int,
    pub name: Seq<char>,
}

impl View for Session {
    type V = SubV;

    open spec fn view(&self) -> SubV {
        SubV { id: self.id as int, user_id: self.user_id as int, name: self.name@ }
    }
}

impl Session {
    /// Builds the subscriber for a freshly accepted connection.
    pub fn new(id: u128, user_id: usize, name: String, channel: sse::Sender) -> (s: Session)
        ensures
            s@ == (SubV { id: id as int, user_id: user_id as int, name: name@ }),
    {
        Session { id, user_id, name, channel }
    }
}

} // verus!
