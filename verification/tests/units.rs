use fh5_collector::collector::Collector;
use fh5_collector::collector::FeedEvent;
use fh5_collector::ident::session_ident;
use fh5_collector::sample::{
    decode, OFF_RACE_ON, OFF_TRACK_POSITION, OFF_VEHICLE_CLASS, OFF_VEHICLE_ORDINAL, RECORD_WIDTH,
};
use fh5_collector::store::{CommitError, SessionStore};

#[test]
fn decode_needs_the_exact_record_width() {
    assert!(decode(&vec![0u8; RECORD_WIDTH]).is_some());
    assert!(decode(&vec![0u8; RECORD_WIDTH - 1]).is_none());
    assert!(decode(&vec![0u8; RECORD_WIDTH + 1]).is_none());
    assert!(decode(&vec![0u8; 0]).is_none());
    assert!(decode(&vec![0u8; 2048]).is_none());
}

#[test]
fn decode_reads_the_core_fields() {
    let mut d = vec![0u8; RECORD_WIDTH];
    d[OFF_RACE_ON..OFF_RACE_ON + 4].copy_from_slice(&1u32.to_le_bytes());
    d[OFF_TRACK_POSITION] = 11;
    d[OFF_VEHICLE_CLASS..OFF_VEHICLE_CLASS + 4].copy_from_slice(&800i32.to_le_bytes());
    d[OFF_VEHICLE_ORDINAL..OFF_VEHICLE_ORDINAL + 4].copy_from_slice(&(-7i32).to_le_bytes());
    let s = decode(&d).unwrap();
    assert!(s.race_active);
    assert_eq!(s.track_position, 11);
    assert_eq!(s.vehicle_class_index, 800);
    assert_eq!(s.vehicle_ordinal, -7);
    // The whole record rides along unchanged.
    assert_eq!(s.raw, d);
}

#[test]
fn identifiers_spell_vehicle_and_sequence() {
    assert_eq!(session_ident(5, 2, 0), b"5_2_0".to_vec());
    assert_eq!(session_ident(0, 0, 7), b"0_0_7".to_vec());
    assert_eq!(session_ident(-3, 12, 40), b"-3_12_40".to_vec());
    assert_eq!(
        session_ident(2147483647, -2147483648, 1),
        b"2147483647_-2147483648_1".to_vec()
    );
}

#[test]
fn identifiers_differ_across_sequence_numbers() {
    // The same car, different sessions: the trailing sequence number
    // keeps the names apart.
    assert_ne!(session_ident(5, 2, 0), session_ident(5, 2, 1));
    assert_ne!(session_ident(1, 12, 0), session_ident(1, 1, 20));
}

#[test]
fn store_refuses_a_taken_name() {
    let mut st = SessionStore::new();
    assert!(st.commit(b"a_1".to_vec(), b"one".to_vec()).is_ok());
    let r = st.commit(b"a_1".to_vec(), b"two".to_vec());
    assert_eq!(r, Err(CommitError::AlreadyExists));
    assert_eq!(st.len(), 1);
    assert_eq!(st.entry_at(0).1.as_slice(), b"one");
    assert!(st.commit(b"a_2".to_vec(), b"three".to_vec()).is_ok());
    assert_eq!(st.len(), 2);
}

#[test]
fn store_lookup_by_scan() {
    let mut st = SessionStore::new();
    assert!(!st.contains(&b"x_1".to_vec()));
    st.commit(b"x_1".to_vec(), b"d".to_vec()).unwrap();
    assert!(st.contains(&b"x_1".to_vec()));
    assert!(!st.contains(&b"x_2".to_vec()));
}

#[test]
fn negative_vehicle_numbers_reach_the_rows() {
    let mut c = Collector::new();
    let mut d = vec![0u8; RECORD_WIDTH];
    d[OFF_RACE_ON..OFF_RACE_ON + 4].copy_from_slice(&1u32.to_le_bytes());
    d[OFF_TRACK_POSITION] = 1;
    d[OFF_VEHICLE_CLASS..OFF_VEHICLE_CLASS + 4].copy_from_slice(&(-5i32).to_le_bytes());
    d[OFF_VEHICLE_ORDINAL..OFF_VEHICLE_ORDINAL + 4].copy_from_slice(&2i32.to_le_bytes());
    c.feed(&d);
    let mut close = d.clone();
    close[OFF_TRACK_POSITION] = 0;
    match c.feed(&close) {
        FeedEvent::Ended { name, .. } => assert_eq!(name, b"-5_2_0".to_vec()),
        _ => panic!("expected Ended"),
    }
    let text = String::from_utf8(c.store().entry_at(0).1.clone()).unwrap();
    let hex: String = d.iter().map(|b| format!("{:02x}", b)).collect();
    assert_eq!(
        text,
        format!("track_position,vehicle_class_index,vehicle_ordinal,record_hex\n1,-5,2,{}\n", hex)
    );
}
