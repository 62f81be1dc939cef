use fh5_collector::collector::{Collector, FeedEvent};
use fh5_collector::sample::{
    OFF_RACE_ON, OFF_TRACK_POSITION, OFF_VEHICLE_CLASS, OFF_VEHICLE_ORDINAL, RECORD_WIDTH,
};

/// One record-width datagram with the given core fields; every other
/// byte stays zero.
fn packet(race_on: u32, pos: u8, class: i32, ordinal: i32) -> Vec<u8> {
    let mut d = vec![0u8; RECORD_WIDTH];
    d[OFF_RACE_ON..OFF_RACE_ON + 4].copy_from_slice(&race_on.to_le_bytes());
    d[OFF_TRACK_POSITION] = pos;
    d[OFF_VEHICLE_CLASS..OFF_VEHICLE_CLASS + 4].copy_from_slice(&class.to_le_bytes());
    d[OFF_VEHICLE_ORDINAL..OFF_VEHICLE_ORDINAL + 4].copy_from_slice(&ordinal.to_le_bytes());
    d
}

/// The lower-case hexadecimal spelling of a buffer, two digits per byte.
fn hex(d: &[u8]) -> String {
    d.iter().map(|b| format!("{:02x}", b)).collect()
}

const HEADER: &str = "track_position,vehicle_class_index,vehicle_ordinal,record_hex\n";

#[test]
fn wrong_length_is_rejected() {
    let mut c = Collector::new();
    assert!(matches!(c.feed(&vec![0u8; 10]), FeedEvent::Rejected));
    assert!(matches!(c.feed(&vec![0u8; RECORD_WIDTH - 1]), FeedEvent::Rejected));
    assert!(matches!(c.feed(&vec![0u8; RECORD_WIDTH + 1]), FeedEvent::Rejected));
    assert!(matches!(c.feed(&Vec::new()), FeedEvent::Rejected));
    assert_eq!(c.store().len(), 0);
    assert_eq!(c.position(), 0);
}

#[test]
fn inactive_samples_are_filtered() {
    let mut c = Collector::new();
    // race_active == false, even with a positive position: a heartbeat.
    assert!(matches!(c.feed(&packet(0, 4, 5, 2)), FeedEvent::Ignored));
    assert!(matches!(c.feed(&packet(0, 0, 5, 2)), FeedEvent::Ignored));
    assert_eq!(c.store().len(), 0);
    assert_eq!(c.position(), 0);
}

#[test]
fn end_to_end_single_session() {
    let mut c = Collector::new();
    // Two active samples at position zero: no session, no file.
    assert!(matches!(c.feed(&packet(1, 0, 0, 0)), FeedEvent::Idle));
    assert!(matches!(c.feed(&packet(1, 0, 0, 0)), FeedEvent::Idle));
    assert_eq!(c.store().len(), 0);
    // A race: two in-session samples, then the close.
    let p1 = packet(1, 3, 5, 2);
    let p2 = packet(1, 2, 5, 2);
    assert!(matches!(c.feed(&p1), FeedEvent::Started));
    assert!(matches!(c.feed(&p2), FeedEvent::Continued));
    let expect = format!("{}3,5,2,{}\n2,5,2,{}\n", HEADER, hex(&p1), hex(&p2));
    match c.feed(&packet(1, 0, 5, 2)) {
        FeedEvent::Ended { name, data } => {
            assert_eq!(name, b"5_2_0".to_vec());
            assert_eq!(data, expect.as_bytes().to_vec());
        }
        _ => panic!("expected Ended"),
    }
    // Exactly one file, holding exactly two data rows.
    assert_eq!(c.store().len(), 1);
    let (name, data) = c.store().entry_at(0);
    assert_eq!(name.as_slice(), b"5_2_0");
    let text = String::from_utf8(data.clone()).unwrap();
    assert_eq!(text.lines().count(), 3);
    assert_eq!(text, expect);
}

#[test]
fn malformed_packet_does_not_break_a_session() {
    let mut c = Collector::new();
    let p1 = packet(1, 5, 7, 9);
    let p2 = packet(1, 4, 7, 9);
    assert!(matches!(c.feed(&p1), FeedEvent::Started));
    // A short datagram between two valid in-session packets.
    assert!(matches!(c.feed(&vec![1u8; 17]), FeedEvent::Rejected));
    assert!(matches!(c.feed(&p2), FeedEvent::Continued));
    match c.feed(&packet(1, 0, 7, 9)) {
        FeedEvent::Ended { name, data } => {
            assert_eq!(name, b"7_9_0".to_vec());
            // Only the malformed packet is missing: two rows.
            let text = String::from_utf8(data).unwrap();
            assert_eq!(text, format!("{}5,7,9,{}\n4,7,9,{}\n", HEADER, hex(&p1), hex(&p2)));
        }
        _ => panic!("expected Ended"),
    }
}

#[test]
fn same_car_sessions_get_distinct_files() {
    let mut c = Collector::new();
    // First session with this car.
    c.feed(&packet(1, 1, 5, 2));
    c.feed(&packet(1, 0, 5, 2));
    assert_eq!(c.store().len(), 1);
    let first = c.store().entry_at(0).1.clone();
    // Second session, same car: the sequence number keeps the
    // identifiers distinct, so both sessions are filed.
    c.feed(&packet(1, 8, 5, 2));
    c.feed(&packet(1, 7, 5, 2));
    match c.feed(&packet(1, 0, 5, 2)) {
        FeedEvent::Ended { name, .. } => assert_eq!(name, b"5_2_1".to_vec()),
        _ => panic!("expected Ended"),
    }
    assert_eq!(c.store().len(), 2);
    assert_eq!(c.store().entry_at(0).0.as_slice(), b"5_2_0");
    assert_eq!(c.store().entry_at(1).0.as_slice(), b"5_2_1");
    // The first file's bytes are untouched by the second commit.
    assert_eq!(c.store().entry_at(0).1, &first);
}

#[test]
fn position_snapshot_follows_active_samples() {
    let mut c = Collector::new();
    assert_eq!(c.position(), 0);
    c.feed(&packet(1, 6, 1, 1));
    assert_eq!(c.position(), 6);
    c.feed(&packet(0, 9, 1, 1));
    assert_eq!(c.position(), 6);
    c.feed(&packet(1, 0, 1, 1));
    assert_eq!(c.position(), 0);
}
