use actix_web_lab::sse;
use chat_broadcast::ChatBroadcaster;
use chat_broadcast::Connect;
use chat_broadcast::Disconnect;
use chat_broadcast::EventFrame;
use chat_broadcast::Message;
use chat_broadcast::PersistError;
use chat_broadcast::SendMessage;
use chat_broadcast::Session;

fn subscriber(
    id: u128,
    user_id: usize,
    name: &str,
    cap: usize,
) -> (Session, sse::Sender, sse::Sse<sse::ChannelStream>) {
    let (tx, rx) = sse::channel(cap);
    (Session::new(id, user_id, name.to_string(), tx.clone()), tx, rx)
}

fn free_slots(tx: &sse::Sender) -> usize {
    let mut free: usize = 0;
    while tx
        .try_send(sse::Event::Comment(bytestring::ByteString::from_static("probe")))
        .is_ok()
    {
        free += 1;
    }
    free
}

#[test]
fn joined_emitted_once_per_user() {
    let mut b = ChatBroadcaster::new();
    let (s1, _tx1, _rx1) = subscriber(11, 7, "alice", 8);
    let d1 = b.handle_connect(Connect(s1)).expect("first connection must announce Joined");
    match d1.frame {
        EventFrame::Joined { user_id, name } => {
            assert_eq!(user_id, 7);
            assert_eq!(name, "alice");
        }
        _ => panic!("expected a Joined frame"),
    }
    assert_eq!(d1.outcomes.len(), 0);
    let (s2, _tx2, _rx2) = subscriber(12, 7, "alice", 8);
    assert!(b.handle_connect(Connect(s2)).is_none());
    assert_eq!(b.user_count(), 1);
    assert_eq!(b.connection_count(7), 2);
}

#[test]
fn left_only_after_last_connection() {
    let mut b = ChatBroadcaster::new();
    let (s1, _tx1, _rx1) = subscriber(11, 7, "alice", 8);
    let (s2, _tx2, _rx2) = subscriber(12, 7, "alice", 8);
    b.handle_connect(Connect(s1));
    b.handle_connect(Connect(s2));
    assert!(b.handle_disconnect(Disconnect(7, "alice".to_string(), 11)).is_none());
    assert_eq!(b.connection_count(7), 1);
    let d = b
        .handle_disconnect(Disconnect(7, "alice".to_string(), 12))
        .expect("last disconnect must announce Left");
    match d.frame {
        EventFrame::Left { user_id, name } => {
            assert_eq!(user_id, 7);
            assert_eq!(name, "alice");
        }
        _ => panic!("expected a Left frame"),
    }
    assert_eq!(b.user_count(), 0);
}

#[test]
fn unsubscribe_is_idempotent() {
    let mut b = ChatBroadcaster::new();
    let (s1, _tx1, _rx1) = subscriber(11, 7, "alice", 8);
    b.handle_connect(Connect(s1));
    let first = b.handle_disconnect(Disconnect(7, "alice".to_string(), 11));
    assert!(first.is_some());
    let again = b.handle_disconnect(Disconnect(7, "alice".to_string(), 11));
    assert!(again.is_none());
    assert_eq!(b.user_count(), 0);
    let never = b.handle_disconnect(Disconnect(99, "ghost".to_string(), 1234));
    assert!(never.is_none());
}

#[test]
fn failed_persistence_drops_publish() {
    let mut b = ChatBroadcaster::new();
    let (s1, tx1, _rx1) = subscriber(11, 7, "alice", 4);
    b.handle_connect(Connect(s1));
    let d = b.handle_send_message(Err(PersistError));
    assert!(d.is_none());
    assert_eq!(b.user_count(), 1);
    assert_eq!(b.connection_count(7), 1);
    // Nothing was enqueued to the subscriber either.
    assert_eq!(free_slots(&tx1), 4);
}

#[test]
fn pending_message_captures_command() {
    let cmd = SendMessage("hi there".to_string(), 7, "alice".to_string());
    let m = Message::pending(&cmd, 1_700_000_000);
    assert_eq!(m.id, None);
    assert_eq!(m.user_id, 7);
    assert_eq!(m.user_name, "alice");
    assert_eq!(m.text, "hi there");
    assert_eq!(m.creation_date, 1_700_000_000);
}

#[test]
fn publish_to_empty_registry_reaches_no_one() {
    let mut b = ChatBroadcaster::new();
    let stored = Message {
        id: Some(1),
        user_id: 9,
        user_name: "bob".to_string(),
        text: "hello".to_string(),
        creation_date: 1_700_000_000,
    };
    let d = b.handle_send_message(Ok(stored)).expect("persisted publish must broadcast");
    assert_eq!(d.outcomes.len(), 0);
}

#[test]
fn scenario_presence_and_message_flow() {
    let mut b = ChatBroadcaster::new();
    // User A subscribes with connection C1: Joined{A} is announced.
    let (c1, tx1, _rx1) = subscriber(11, 1, "alice", 8);
    let d = b.handle_connect(Connect(c1)).expect("first connection announces Joined");
    match d.frame {
        EventFrame::Joined { user_id, .. } => assert_eq!(user_id, 1),
        _ => panic!("expected a Joined frame"),
    }
    // User A subscribes again with C2: no event.
    let (c2, tx2, _rx2) = subscriber(12, 1, "alice", 8);
    assert!(b.handle_connect(Connect(c2)).is_none());
    // User B publishes "hi": both C1 and C2 receive the stored message.
    let stored = Message {
        id: Some(41),
        user_id: 2,
        user_name: "bob".to_string(),
        text: "hi".to_string(),
        creation_date: 1_700_000_123,
    };
    let d = b.handle_send_message(Ok(stored)).expect("persisted publish must broadcast");
    match &d.frame {
        EventFrame::MessageCreated { message } => {
            assert_eq!(message.id, Some(41));
            assert_eq!(message.user_id, 2);
            assert_eq!(message.text, "hi");
            assert_eq!(message.creation_date, 1_700_000_123);
        }
        _ => panic!("expected a MessageCreated frame"),
    }
    assert_eq!(d.outcomes.len(), 2);
    assert!(d.outcomes.iter().all(|ok| *ok));
    // Each connection holds exactly the one message frame.
    assert_eq!(free_slots(&tx1), 7);
    assert_eq!(free_slots(&tx2), 7);
    // C1 disconnects: no event, C2 is still live.
    assert!(b.handle_disconnect(Disconnect(1, "alice".to_string(), 11)).is_none());
    // C2 disconnects: Left{A} is announced.
    let d = b
        .handle_disconnect(Disconnect(1, "alice".to_string(), 12))
        .expect("last disconnect must announce Left");
    match d.frame {
        EventFrame::Left { user_id, name } => {
            assert_eq!(user_id, 1);
            assert_eq!(name, "alice");
        }
        _ => panic!("expected a Left frame"),
    }
    assert_eq!(b.user_count(), 0);
}
