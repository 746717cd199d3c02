use pictosend::catchup::receive_update;
use pictosend::catchup::Catchup;
use pictosend::codec::encode_record;
use pictosend::log::History;
use pictosend::record::TextureData;
use pictosend::server::Action;
use pictosend::server::Server;

fn data_frame(name: &str, timestamp: u128) -> Vec<u8> {
    encode_record(&TextureData::new(&name.as_bytes().to_vec(), timestamp))
}

fn only_reply(actions: Vec<Action>) -> Vec<u8> {
    assert_eq!(actions.len(), 1);
    match actions.into_iter().next().unwrap() {
        Action::Reply(b) => b,
        _ => panic!("expected a reply"),
    }
}

#[test]
fn client_and_server_complete_catchup_together() {
    let mut server = Server::new();
    let id = server.on_connect().unwrap();
    server.on_frame(id, &data_frame("a", 10));
    server.on_frame(id, &data_frame("b", 20));

    let mut client = Catchup::new();
    let frame = client.begin();
    let length_reply = only_reply(server.on_frame(id, &frame));
    let request = client
        .on_length_response(&length_reply)
        .expect("a length response must advance the handshake");
    assert_eq!(client.expected_bytes(), Some(8 + 2 * 40055));
    let snapshot = only_reply(server.on_frame(id, &request));
    assert_eq!(snapshot.len() as u32, client.expected_bytes().unwrap());
    let (history, confirm) = client
        .on_history_payload(&snapshot)
        .expect("the announced snapshot must load");
    assert_eq!(history.len(), 2);
    let ts: Vec<u128> = history.records().iter().map(|r| r.timestamp).collect();
    assert_eq!(ts, vec![10, 20]);
    let replies = server.on_frame(id, &confirm);
    assert!(replies.is_empty());
    assert!(server
        .registry
        .entries
        .iter()
        .any(|(sid, s)| *sid == id && s.history_synced));
}

#[test]
fn client_abandons_on_unexpected_length_response() {
    let mut client = Catchup::new();
    let _ = client.begin();
    assert!(client.on_length_response(&vec![9u8; 8]).is_none());
    assert!(client.expected_bytes().is_none());
}

#[test]
fn client_abandons_on_short_payload() {
    let mut client = Catchup::new();
    let _ = client.begin();
    let reply = pictosend::codec::encode_info(&pictosend::record::InfoData {
        msg: pictosend::record::InfoMsg::HistoryLength,
        number: 8,
    });
    let _ = client.on_length_response(&reply).unwrap();
    assert!(client.on_history_payload(&vec![0u8; 7]).is_none());
}

#[test]
fn live_updates_join_the_replay_log_in_order() {
    let mut history = History::new();
    assert!(receive_update(&mut history, &data_frame("a", 2000)));
    assert!(receive_update(&mut history, &data_frame("b", 1000)));
    let ts: Vec<u128> = history.records().iter().map(|r| r.timestamp).collect();
    assert_eq!(ts, vec![1000, 2000]);
}

#[test]
fn garbage_frames_leave_the_replay_log_alone() {
    let mut history = History::new();
    assert!(!receive_update(&mut history, &vec![1u8; 40055]));
    assert!(!receive_update(&mut history, &vec![1u8; 12]));
    assert_eq!(history.len(), 0);
}

#[test]
fn replay_log_keeps_the_server_bound() {
    let mut history = History::new();
    for i in 0..70u128 {
        receive_update(&mut history, &data_frame("a", i));
    }
    assert_eq!(history.len(), 56);
    assert_eq!(history.records()[0].timestamp, 14);
}
