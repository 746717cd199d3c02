use pictosend::catchup::confirm_history;
use pictosend::catchup::request_history;
use pictosend::catchup::request_history_length;
use pictosend::codec::decode_history;
use pictosend::codec::decode_info;
use pictosend::codec::encode_record;
use pictosend::record::InfoMsg;
use pictosend::record::TextureData;
use pictosend::server::Action;
use pictosend::server::Server;

fn data_frame(name: &str, timestamp: u128) -> Vec<u8> {
    encode_record(&TextureData::new(&name.as_bytes().to_vec(), timestamp))
}

fn synced(server: &Server, id: u64) -> bool {
    server
        .registry
        .entries
        .iter()
        .any(|(sid, s)| *sid == id && s.history_synced)
}

/// Runs the full three-step handshake for one session and returns the
/// snapshot the server sent.
fn complete_handshake(server: &mut Server, id: u64) -> Vec<u8> {
    let replies = server.on_frame(id, &request_history_length());
    assert_eq!(replies.len(), 1);
    let length_reply = match &replies[0] {
        Action::Reply(b) => b.clone(),
        other => panic!("expected a length reply, got {:?}", kind(other)),
    };
    let info = decode_info(&length_reply).expect("length reply must decode");
    assert!(info.msg == InfoMsg::HistoryLength);
    let replies = server.on_frame(id, &request_history());
    assert_eq!(replies.len(), 1);
    let snapshot = match &replies[0] {
        Action::Reply(b) => b.clone(),
        other => panic!("expected the snapshot, got {:?}", kind(other)),
    };
    assert_eq!(snapshot.len(), info.number as usize, "announced size must match");
    let replies = server.on_frame(id, &confirm_history());
    assert!(replies.is_empty());
    snapshot
}

fn kind(a: &Action) -> &'static str {
    match a {
        Action::Reply(_) => "Reply",
        Action::Broadcast(_, _) => "Broadcast",
        Action::Persist(_) => "Persist",
        Action::Disconnect => "Disconnect",
    }
}

#[test]
fn ids_are_distinct() {
    let mut server = Server::new();
    let a = server.on_connect().unwrap();
    let b = server.on_connect().unwrap();
    let c = server.on_connect().unwrap();
    assert!(a != b && b != c && a != c);
}

#[test]
fn handshake_makes_session_synced() {
    let mut server = Server::new();
    let id = server.on_connect().unwrap();
    assert!(!synced(&server, id));
    let snapshot = complete_handshake(&mut server, id);
    assert!(synced(&server, id));
    assert_eq!(snapshot.len(), 8, "empty history is just the count word");
    assert!(decode_history(&snapshot).unwrap().is_empty());
}

#[test]
fn length_request_alone_never_syncs() {
    let mut server = Server::new();
    let id = server.on_connect().unwrap();
    // the client asks for the length and then stops
    let replies = server.on_frame(id, &request_history_length());
    assert_eq!(replies.len(), 1);
    assert!(matches!(replies[0], Action::Reply(_)));
    assert!(!synced(&server, id));
    // later frames that are not the expected next step leave it unsynced
    let replies = server.on_frame(id, &request_history_length());
    for a in &replies {
        assert!(!matches!(a, Action::Broadcast(sid, _) if *sid == id));
    }
    assert!(!synced(&server, id));
    // a data record from a synced neighbour is not broadcast to it
    let other = server.on_connect().unwrap();
    complete_handshake(&mut server, other);
    let actions = server.on_frame(other, &data_frame("n", 50));
    for a in &actions {
        assert!(!matches!(a, Action::Broadcast(sid, _) if *sid == id));
    }
    assert!(!synced(&server, id));
}

#[test]
fn confirm_out_of_phase_does_not_sync() {
    let mut server = Server::new();
    let id = server.on_connect().unwrap();
    let replies = server.on_frame(id, &confirm_history());
    assert!(replies.is_empty());
    assert!(!synced(&server, id));
}

#[test]
fn unsynced_sender_gets_no_echo() {
    // start with empty history; A completes the handshake, B is mid-handshake
    let mut server = Server::new();
    let a = server.on_connect().unwrap();
    let b = server.on_connect().unwrap();
    complete_handshake(&mut server, a);
    let _ = server.on_frame(b, &request_history_length()); // B stops mid-handshake
    let frame = data_frame("bert", 1000);
    let actions = server.on_frame(b, &frame);
    // history now holds B's record
    assert_eq!(server.log.len(), 1);
    assert_eq!(server.log.records()[0].timestamp, 1000);
    // the snapshot file is rewritten, then A receives the raw bytes; B does not
    assert_eq!(actions.len(), 2);
    assert!(matches!(&actions[0], Action::Persist(_)));
    match &actions[1] {
        Action::Broadcast(sid, bytes) => {
            assert_eq!(*sid, a);
            assert_eq!(*bytes, frame);
        },
        other => panic!("expected a broadcast to A, got {:?}", kind(other)),
    }
}

#[test]
fn out_of_order_records_sort_in_log() {
    let mut server = Server::new();
    let id = server.on_connect().unwrap();
    server.on_frame(id, &data_frame("a", 2000));
    server.on_frame(id, &data_frame("b", 1000));
    let ts: Vec<u128> = server.log.records().iter().map(|r| r.timestamp).collect();
    assert_eq!(ts, vec![1000, 2000]);
}

#[test]
fn broadcast_reaches_every_synced_session_in_order() {
    let mut server = Server::new();
    let a = server.on_connect().unwrap();
    let b = server.on_connect().unwrap();
    let c = server.on_connect().unwrap();
    complete_handshake(&mut server, a);
    complete_handshake(&mut server, c);
    let actions = server.on_frame(b, &data_frame("n", 7));
    let targets: Vec<u64> = actions
        .iter()
        .filter_map(|x| match x {
            Action::Broadcast(sid, _) => Some(*sid),
            _ => None,
        })
        .collect();
    assert_eq!(targets, vec![a, c]);
}

#[test]
fn synced_sender_receives_its_own_echo() {
    let mut server = Server::new();
    let a = server.on_connect().unwrap();
    complete_handshake(&mut server, a);
    let actions = server.on_frame(a, &data_frame("a", 1));
    let targets: Vec<u64> = actions
        .iter()
        .filter_map(|x| match x {
            Action::Broadcast(sid, _) => Some(*sid),
            _ => None,
        })
        .collect();
    assert_eq!(targets, vec![a]);
}

#[test]
fn persist_bytes_reload_to_the_log() {
    let mut server = Server::new();
    let id = server.on_connect().unwrap();
    let actions = server.on_frame(id, &data_frame("a", 42));
    let persisted = actions
        .iter()
        .find_map(|x| match x {
            Action::Persist(b) => Some(b.clone()),
            _ => None,
        })
        .expect("a data record must persist the snapshot");
    let reloaded = pictosend::log::History::from_bytes(&persisted).unwrap();
    assert_eq!(reloaded.len(), 1);
    assert_eq!(reloaded.records()[0].timestamp, 42);
}

#[test]
fn length_request_flag_is_ignored() {
    let mut server = Server::new();
    let id = server.on_connect().unwrap();
    let mut rec = TextureData::new(&b"x".to_vec(), 5);
    rec.request_history_length = true;
    let actions = server.on_frame(id, &encode_record(&rec));
    assert!(actions.is_empty());
    assert_eq!(server.log.len(), 0);
}

#[test]
fn stray_sized_reads_are_ignored() {
    let mut server = Server::new();
    let id = server.on_connect().unwrap();
    let actions = server.on_frame(id, &vec![0u8; 17]);
    assert!(actions.is_empty());
    assert!(server.registry.contains(id));
}

#[test]
fn malformed_control_frame_disconnects_only_that_peer() {
    let mut server = Server::new();
    let a = server.on_connect().unwrap();
    let b = server.on_connect().unwrap();
    let actions = server.on_frame(a, &vec![9u8; 8]);
    assert!(matches!(actions[..], [Action::Disconnect]));
    assert!(!server.registry.contains(a));
    assert!(server.registry.contains(b));
}

#[test]
fn clean_close_removes_session_at_once() {
    let mut server = Server::new();
    let id = server.on_connect().unwrap();
    assert!(server.on_read_error(id, true));
    assert!(!server.registry.contains(id));
}

#[test]
fn five_read_errors_remove_session() {
    let mut server = Server::new();
    let victim = server.on_connect().unwrap();
    let witness = server.on_connect().unwrap();
    complete_handshake(&mut server, victim);
    for k in 0..4 {
        assert!(!server.on_read_error(victim, false), "strike {k} must not disconnect");
        assert!(server.registry.contains(victim));
    }
    assert!(server.on_read_error(victim, false), "the fifth strike disconnects");
    assert!(!server.registry.contains(victim));
    // no further broadcast targets the removed session
    let actions = server.on_frame(witness, &data_frame("w", 9));
    for a in &actions {
        assert!(!matches!(a, Action::Broadcast(sid, _) if *sid == victim));
    }
}

#[test]
fn resync_after_sync_is_allowed() {
    let mut server = Server::new();
    let id = server.on_connect().unwrap();
    complete_handshake(&mut server, id);
    server.on_frame(id, &data_frame("x", 1));
    let snapshot = complete_handshake(&mut server, id);
    let records = decode_history(&snapshot).unwrap();
    assert_eq!(records.len(), 1);
    assert!(synced(&server, id));
}

#[test]
fn server_starts_from_loaded_log() {
    let mut first = Server::new();
    let id = first.on_connect().unwrap();
    first.on_frame(id, &data_frame("a", 5));
    let bytes = first.log.encoded();
    let log = pictosend::log::History::from_bytes(&bytes).unwrap();
    let server = Server::with_log(log);
    assert_eq!(server.log.len(), 1);
}
