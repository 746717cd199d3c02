use pictosend::log::History;
use pictosend::log::MAX_HISTORY;
use pictosend::record::TextureData;

fn rec(name: &str, timestamp: u128) -> TextureData {
    TextureData::new(&name.as_bytes().to_vec(), timestamp)
}

fn timestamps(h: &History) -> Vec<u128> {
    h.records().iter().map(|r| r.timestamp).collect()
}

#[test]
fn empty_log() {
    let h = History::new();
    assert_eq!(h.len(), 0);
    assert!(h.records().is_empty());
}

#[test]
fn bounded_and_sorted_after_every_append() {
    let mut h = History::new();
    // interleave ascending and descending timestamps
    for i in 0..60u128 {
        let t = if i % 2 == 0 { 1000 + i } else { 5000 - i };
        h.append(rec("p", t));
        assert!(h.len() <= MAX_HISTORY, "bound broken after append {i}");
        let ts = timestamps(&h);
        assert!(ts.windows(2).all(|w| w[0] <= w[1]), "order broken after append {i}");
    }
    assert_eq!(h.len(), MAX_HISTORY);
}

#[test]
fn out_of_order_pair_sorts() {
    let mut h = History::new();
    h.append(rec("a", 2000));
    h.append(rec("b", 1000));
    assert_eq!(timestamps(&h), vec![1000, 2000]);
}

#[test]
fn equal_timestamps_keep_arrival_order() {
    let mut h = History::new();
    h.append(rec("first", 100));
    h.append(rec("second", 100));
    let names: Vec<u8> = h.records().iter().map(|r| r.name[0]).collect();
    assert_eq!(names, vec![b'f', b's']);
}

#[test]
fn full_log_evicts_front_entry() {
    let mut h = History::new();
    for i in 0..56u128 {
        h.append(rec("p", 100 + i));
    }
    assert_eq!(h.len(), 56);
    let oldest = h.records()[0].timestamp;
    assert_eq!(oldest, 100);
    h.append(rec("p", 9999));
    assert_eq!(h.len(), 56, "57th append must evict exactly one record");
    assert_eq!(h.records()[0].timestamp, 101, "the front (oldest) entry leaves");
    assert_eq!(h.records()[55].timestamp, 9999);
}

#[test]
fn persisted_snapshot_reloads_identically() {
    let mut h = History::new();
    for i in 0..10u128 {
        let t = if i % 3 == 0 { 800 - i } else { 100 + i };
        h.append(rec("p", t));
    }
    let bytes = h.encoded();
    let back = History::from_bytes(&bytes).expect("own snapshot must load");
    assert_eq!(back.len(), h.len());
    for (a, b) in h.records().iter().zip(back.records().iter()) {
        assert_eq!(a.name, b.name);
        assert_eq!(a.data, b.data);
        assert_eq!(a.timestamp, b.timestamp);
    }
}

#[test]
fn load_rejects_unsorted_snapshot() {
    let records = vec![rec("a", 2000), rec("b", 1000)];
    let bytes = pictosend::codec::encode_history(&records);
    assert!(History::from_bytes(&bytes).is_none());
}

#[test]
fn load_rejects_oversized_snapshot() {
    let records: Vec<TextureData> = (0..57u128).map(|i| rec("a", i)).collect();
    let bytes = pictosend::codec::encode_history(&records);
    assert!(History::from_bytes(&bytes).is_none());
}

#[test]
fn load_rejects_garbage() {
    assert!(History::from_bytes(&vec![9, 9, 9]).is_none());
}
