use actix_web_lab::sse;
use chat_broadcast::ChatBroadcaster;
use chat_broadcast::Connect;
use chat_broadcast::EventFrame;
use chat_broadcast::Session;

fn subscriber(
    id: u128,
    user_id: usize,
    name: &str,
    cap: usize,
) -> (Session, sse::Sender, sse::Sse<sse::ChannelStream>) {
    let (tx, rx) = sse::channel(cap);
    (Session::new(id, user_id, name.to_string(), tx.clone()), tx, rx)
}

#[test]
fn tick_on_empty_registry_evicts_no_one() {
    let b = ChatBroadcaster::new();
    assert_eq!(b.heartbeat_tick().len(), 0);
}

#[test]
fn healthy_subscriber_survives_tick() {
    let mut b = ChatBroadcaster::new();
    let (s1, _tx1, _rx1) = subscriber(11, 7, "alice", 8);
    b.handle_connect(Connect(s1));
    let cmds = b.heartbeat_tick();
    assert_eq!(cmds.len(), 0);
    assert_eq!(b.connection_count(7), 1);
}

#[test]
fn saturated_sink_is_evicted_by_tick() {
    let mut b = ChatBroadcaster::new();
    // A's only connection has a single-slot channel; fill it up before the
    // tick so the liveness probe cannot be enqueued.
    let (sa, txa, _rxa) = subscriber(11, 7, "alice", 1);
    let (sb, _txb, _rxb) = subscriber(21, 9, "bob", 8);
    b.handle_connect(Connect(sb));
    b.handle_connect(Connect(sa));
    assert!(txa
        .try_send(sse::Event::Comment(bytestring::ByteString::from_static("fill")))
        .is_ok());
    let mut cmds = b.heartbeat_tick();
    assert_eq!(cmds.len(), 1);
    let cmd = cmds.remove(0);
    assert_eq!(cmd.0, 7);
    assert_eq!(cmd.1, "alice");
    assert_eq!(cmd.2, 11);
    // Feeding the command back evicts A's last connection: Left{A}.
    let d = b.handle_disconnect(cmd).expect("evicting the last connection announces Left");
    match d.frame {
        EventFrame::Left { user_id, name } => {
            assert_eq!(user_id, 7);
            assert_eq!(name, "alice");
        }
        _ => panic!("expected a Left frame"),
    }
    assert_eq!(b.user_count(), 1);
    assert_eq!(b.connection_count(9), 1);
}

#[test]
fn evictions_match_probe_outcomes_exactly() {
    let mut b = ChatBroadcaster::new();
    let (c1, _tx1, _rx1) = subscriber(11, 1, "alice", 8);
    let (c2, _tx2, _rx2) = subscriber(12, 1, "alice", 8);
    let (c3, _tx3, _rx3) = subscriber(21, 2, "bob", 8);
    b.handle_connect(Connect(c1));
    b.handle_connect(Connect(c2));
    b.handle_connect(Connect(c3));
    // Registry order is [alice: 11, 12], [bob: 21].
    let alive = vec![true, false, true];
    let cmds = b.evictions(&alive);
    assert_eq!(cmds.len(), 1);
    assert_eq!(cmds[0].0, 1);
    assert_eq!(cmds[0].1, "alice");
    assert_eq!(cmds[0].2, 12);
    let alive = vec![false, false, false];
    let cmds = b.evictions(&alive);
    assert_eq!(cmds.len(), 3);
    assert_eq!(cmds[0].2, 11);
    assert_eq!(cmds[1].2, 12);
    assert_eq!(cmds[2].2, 21);
}

#[test]
fn dropped_receiver_counts_as_dead() {
    let mut b = ChatBroadcaster::new();
    let (s1, tx1, rx1) = subscriber(11, 7, "alice", 8);
    b.handle_connect(Connect(s1));
    drop(rx1);
    drop(tx1);
    let cmds = b.heartbeat_tick();
    assert_eq!(cmds.len(), 1);
    assert_eq!(cmds[0].2, 11);
}
