use pictosend::codec::decode_history;
use pictosend::codec::decode_info;
use pictosend::codec::decode_record;
use pictosend::codec::encode_history;
use pictosend::codec::encode_info;
use pictosend::codec::encode_record;
use pictosend::codec::CONTROL_FRAME_SIZE;
use pictosend::codec::DATA_FRAME_SIZE;
use pictosend::record::InfoData;
use pictosend::record::InfoMsg;
use pictosend::record::TextureData;

fn sample_record(name: &str, timestamp: u128) -> TextureData {
    let mut rec = TextureData::new(&name.as_bytes().to_vec(), timestamp);
    rec.data[0] = 1;
    rec.data[39999] = 250;
    rec
}

#[test]
fn info_frame_layout() {
    let frame = encode_info(&InfoData { msg: InfoMsg::RequestHistory, number: 7 });
    assert_eq!(frame, vec![2, 0, 0, 0, 7, 0, 0, 0]);
    assert_eq!(frame.len(), CONTROL_FRAME_SIZE);
}

#[test]
fn info_round_trip_every_tag() {
    let msgs = [
        InfoMsg::RequestHistoryLength,
        InfoMsg::HistoryLength,
        InfoMsg::RequestHistory,
        InfoMsg::ConfirmReceivedHistory,
        InfoMsg::Nothing,
    ];
    for (k, msg) in msgs.iter().enumerate() {
        let d = InfoData { msg: *msg, number: -3 + k as i32 * 1000 };
        let frame = encode_info(&d);
        assert_eq!(frame[0] as usize, k);
        let back = decode_info(&frame).expect("frame must decode");
        assert!(back.msg == d.msg);
        assert_eq!(back.number, d.number);
    }
}

#[test]
fn info_negative_number_round_trips() {
    let d = InfoData { msg: InfoMsg::HistoryLength, number: -1 };
    let back = decode_info(&encode_info(&d)).unwrap();
    assert_eq!(back.number, -1);
}

#[test]
fn info_decode_rejects_bad_tag() {
    let mut frame = encode_info(&InfoData { msg: InfoMsg::Nothing, number: 0 });
    frame[0] = 5;
    assert!(decode_info(&frame).is_none());
}

#[test]
fn info_decode_rejects_wrong_length() {
    assert!(decode_info(&vec![0; 7]).is_none());
    assert!(decode_info(&vec![0; 9]).is_none());
    assert!(decode_info(&Vec::new()).is_none());
}

#[test]
fn record_frame_has_fixed_size() {
    let frame = encode_record(&sample_record("ada", 1234));
    assert_eq!(frame.len(), DATA_FRAME_SIZE);
    assert_eq!(frame.len(), 40055);
}

#[test]
fn record_round_trip() {
    let mut rec = sample_record("grace", 77_000_000_000_000_000_000_000_000_000u128);
    rec.request_history = true;
    rec.history_length = -12345;
    rec.confirm_history = true;
    let frame = encode_record(&rec);
    let back = decode_record(&frame).expect("frame must decode");
    assert_eq!(back.name, rec.name);
    assert_eq!(back.data, rec.data);
    assert_eq!(back.request_history, rec.request_history);
    assert_eq!(back.request_history_length, rec.request_history_length);
    assert_eq!(back.history_length, rec.history_length);
    assert_eq!(back.confirm_history, rec.confirm_history);
    assert_eq!(back.timestamp, rec.timestamp);
}

#[test]
fn record_name_padded_to_width() {
    let rec = sample_record("bo", 5);
    assert_eq!(rec.name.len(), 24);
    assert_eq!(&rec.name[..2], b"bo");
    assert!(rec.name[2..].iter().all(|&b| b == 0));
}

#[test]
fn record_decode_rejects_wrong_length() {
    assert!(decode_record(&vec![0; 40054]).is_none());
    assert!(decode_record(&vec![0; 40056]).is_none());
}

#[test]
fn record_decode_rejects_bad_pixel_count() {
    let mut frame = encode_record(&sample_record("x", 1));
    frame[24] = 0x41; // pixel count word no longer 40000
    assert!(decode_record(&frame).is_none());
}

#[test]
fn record_decode_rejects_bad_flag_byte() {
    let good = encode_record(&sample_record("x", 1));
    for off in [40032, 40033, 40038] {
        let mut frame = good.clone();
        frame[off] = 2;
        assert!(decode_record(&frame).is_none(), "flag byte at {off}");
    }
}

#[test]
fn history_round_trip() {
    let records = vec![
        sample_record("a", 10),
        sample_record("b", 20),
        sample_record("c", 30),
    ];
    let frame = encode_history(&records);
    assert_eq!(frame.len(), 8 + 3 * DATA_FRAME_SIZE);
    assert_eq!(&frame[..8], &[3, 0, 0, 0, 0, 0, 0, 0]);
    let back = decode_history(&frame).expect("snapshot must decode");
    assert_eq!(back.len(), 3);
    for (orig, got) in records.iter().zip(back.iter()) {
        assert_eq!(got.name, orig.name);
        assert_eq!(got.timestamp, orig.timestamp);
        assert_eq!(got.data, orig.data);
    }
}

#[test]
fn history_empty_round_trip() {
    let frame = encode_history(&Vec::new());
    assert_eq!(frame, vec![0; 8]);
    let back = decode_history(&frame).unwrap();
    assert!(back.is_empty());
}

#[test]
fn history_decode_rejects_truncated() {
    let mut frame = encode_history(&vec![sample_record("a", 1)]);
    frame.pop();
    assert!(decode_history(&frame).is_none());
    assert!(decode_history(&vec![0; 7]).is_none());
}

#[test]
fn history_decode_rejects_wrong_count() {
    let mut frame = encode_history(&vec![sample_record("a", 1)]);
    frame[0] = 2;
    assert!(decode_history(&frame).is_none());
}
