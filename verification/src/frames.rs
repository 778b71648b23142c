//! Commands accepted by the coordinator and the event frames it fans out.

use vstd::prelude::*;
use crate::session::Session;
use crate::session::SubV;

verus! {

/// Publish command: message text, the sending user's id, and their display
/// name, captured from the sender's session at publish time.
pub struct SendMessage(pub String, pub usize, pub String);

/// Subscribe command: a freshly accepted connection.
pub struct Connect(pub Session);

/// Unsubscribe command: the user id, the display name to announce if this
/// was the user's last connection, and the connection identifier to drop.
pub struct Disconnect(pub usize, pub String, pub u128);

/// Mathematical image of a `Disconnect` command.
#[verifier::ext_equal]
pub struct DisconnectV {
    pub user_id: int,
    pub name: Seq<char>,
    pub session_id: int,
}

impl View for Disconnect {
    type V = DisconnectV;

    open spec fn view(&self) -> DisconnectV {
        DisconnectV { user_id: self.0 as int, name: self.1@, session_id: self.2 as int }
    }
}

/// A chat message row of the durable message store. The store assigns `id`
/// and the stored timestamp on successful persistence; before persistence
/// `id` is `None`. The timestamp is carried as seconds since the Unix epoch.
pub struct Message {
    pub id: Option<i32>,
    pub user_id: i32,
    pub user_name: String,
    pub text: String,
    pub creation_date: i64,
}

/// Mathematical image of a `Message`.
#[verifier::ext_equal]
pub struct MessageV {
    pub id: Option<int>,
    pub user_id: int,
    pub user_name: Seq<char>,
    pub text: Seq<char>,
    pub creation_date: int,
}

impl View for Message {
    type V = MessageV;

    open spec fn view(&self) -> MessageV {
        MessageV {
            id: match self.id {
                Some(i) => Some(i as int),
                None => None,
            },
            user_id: self.user_id as int,
            user_name: self.user_name@,
            text: self.text@,
            creation_date: self.creation_date as int,
        }
    }
}

/// A failed write of the message store. The publish that produced it is
/// dropped: no broadcast, no retry.
pub struct PersistError;

/// One wire-level notification. `Joined` and `Left` are presence events,
/// emitted only on a user's first connect and last disconnect; `Heartbeat`
/// is the liveness probe, a no-op frame for conforming clients.
pub enum EventFrame {
    Joined { user_id: usize, name: String },
    Left { user_id: usize, name: String },
    MessageCreated { message: Message },
    Heartbeat,
}

/// Mathematical image of an `EventFrame`.
#[verifier::ext_equal]
pub enum FrameV {
    Joined { user_id: int, name: Seq<char> },
    Left { user_id: int, name: Seq<char> },
    MessageCreated { message: MessageV },
    Heartbeat,
}

impl View for EventFrame {
    type V = FrameV;

    open spec fn view(&self) -> FrameV {
        match self {
            EventFrame::Joined { user_id, name } => FrameV::Joined {
                user_id: *user_id as int,
                name: name@,
            },
            EventFrame::Left { user_id, name } => FrameV::Left {
                user_id: *user_id as int,
                name: name@,
            },
            EventFrame::MessageCreated { message } => FrameV::MessageCreated { message: message@ },
            EventFrame::Heartbeat => FrameV::Heartbeat,
        }
    }
}

/// The identity a liveness tick announces for a subscriber it evicts.
pub open spec fn evict_cmd(s: SubV) -> DisconnectV {
    DisconnectV { user_id: s.user_id, name: s.name, session_id: s.id }
}

/// The images of a sequence of Unsubscribe commands.
pub open spec fn cmds_view(s: Seq<Disconnect>) -> Seq<DisconnectV> {
    s.map_values(|c: Disconnect| c@)
}

} // verus!
