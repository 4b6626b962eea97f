use ipc_agent::ids::{PeerId, SubnetId, Timestamp};
use ipc_agent::provider_cache::ProviderRecord;
use ipc_agent::record::{decode_record, decode_words, encode_record, encode_words};

fn peer(n: u8) -> PeerId {
    PeerId { bytes: vec![n] }
}

fn sample() -> ProviderRecord {
    let root = SubnetId::new_root(314);
    ProviderRecord {
        peer_id: peer(7),
        subnet_ids: vec![root.child(1001), root.clone(), root.child(1001).child(2)],
        timestamp: Timestamp(1_700_000_000),
    }
}

#[test]
fn record_form_round_trips() {
    let r = sample();
    let bytes = encode_record(&r);
    let back = decode_record(&bytes).unwrap();
    assert_eq!(back.peer_id, r.peer_id);
    assert_eq!(back.timestamp, r.timestamp);
    assert_eq!(back.subnet_ids, r.subnet_ids);
}

#[test]
fn record_form_layout() {
    let r = ProviderRecord {
        peer_id: peer(1),
        subnet_ids: vec![SubnetId::new_root(2).child(3)],
        timestamp: Timestamp(0x0102),
    };
    let bytes = encode_record(&r);
    // framed peer id, then the framed words: timestamp, count, root, path length, path
    assert_eq!(bytes.len(), 8 + 1 + 8 + 8 * 5);
    assert_eq!(&bytes[0..9], &[1, 0, 0, 0, 0, 0, 0, 0, 1]);
    assert_eq!(&bytes[9..17], &[40, 0, 0, 0, 0, 0, 0, 0]);
    assert_eq!(&bytes[17..25], &[2, 1, 0, 0, 0, 0, 0, 0]);
    assert_eq!(&bytes[25..33], &[1, 0, 0, 0, 0, 0, 0, 0]);
    assert_eq!(&bytes[49..57], &[3, 0, 0, 0, 0, 0, 0, 0]);
}

#[test]
fn equal_records_have_equal_forms() {
    assert_eq!(encode_record(&sample()), encode_record(&sample()));
}

#[test]
fn mutated_forms_do_not_decode_to_the_record() {
    let r = sample();
    let bytes = encode_record(&r);
    let mut truncated = bytes.clone();
    truncated.truncate(bytes.len() - 8);
    assert!(decode_record(&truncated).is_none());
    let mut extended = bytes.clone();
    extended.extend_from_slice(&[0; 8]);
    assert!(decode_record(&extended).is_none());
    assert!(decode_record(&bytes[..bytes.len() - 1].to_vec()).is_none());
    let mut flipped = bytes.clone();
    flipped[25] = 9;
    assert!(decode_record(&flipped).is_none());
    let mut renamed = bytes.clone();
    renamed[8] = 8;
    assert_eq!(decode_record(&renamed).unwrap().peer_id, peer(8));
    assert!(decode_record(&vec![]).is_none());
}

#[test]
fn words_round_trip_through_bytes() {
    let ws = vec![0, 1, u64::MAX, 0x0102_0304_0506_0708];
    let bytes = encode_words(&ws);
    assert_eq!(bytes.len(), 32);
    assert_eq!(&bytes[24..32], &[8, 7, 6, 5, 4, 3, 2, 1]);
    assert_eq!(decode_words(&bytes), Some(ws));
    assert_eq!(decode_words(&vec![1, 2, 3]), None);
}
