use iggy_core::error::Error;
use iggy_core::message::Message;
use iggy_core::partition::Partition;

fn msg(payload: &[u8]) -> Message {
    Message {
        offset: 0,
        state: 1,
        timestamp: 0,
        id: 0,
        checksum: 0,
        headers: Vec::new(),
        payload: payload.to_vec(),
    }
}

#[test]
fn publish_then_poll_returns_all_in_order() {
    let mut p = Partition::new(1, 0, 1024 * 1024);
    let first = p
        .append_messages(100, vec![msg(b"a"), msg(b"b"), msg(b"c")])
        .unwrap();
    assert_eq!(first, 0);
    assert_eq!(p.next_offset, 3);
    let read = p.read(0, 10).unwrap();
    assert_eq!(read.len(), 3);
    assert_eq!(read[0].offset, 0);
    assert_eq!(read[1].offset, 1);
    assert_eq!(read[2].offset, 2);
    assert_eq!(read[0].payload, b"a");
    assert_eq!(read[1].payload, b"b");
    assert_eq!(read[2].payload, b"c");
    // timestamps are the broker clock
    assert_eq!(read[0].timestamp, 100);
}

#[test]
fn clock_regression_reuses_last_timestamp() {
    let mut p = Partition::new(1, 0, 1024 * 1024);
    p.append_messages(100, vec![msg(b"a")]).unwrap();
    p.append_messages(50, vec![msg(b"b")]).unwrap();
    let read = p.read(0, 10).unwrap();
    assert_eq!(read[0].timestamp, 100);
    assert_eq!(read[1].timestamp, 100);
}

#[test]
fn empty_append_is_rejected() {
    let mut p = Partition::new(1, 0, 1024);
    assert!(matches!(p.append_messages(1, vec![]), Err(Error::InvalidArgument)));
    assert_eq!(p.next_offset, 0);
}

#[test]
fn segment_roll_keeps_all_messages() {
    // each message is 45 + 64 bytes; a 256-byte cap rolls after two
    let mut p = Partition::new(1, 0, 256);
    let payload = [7u8; 64];
    let mut appended = 0u64;
    while p.segments.len() < 2 {
        p.append_messages(appended, vec![msg(&payload)]).unwrap();
        appended += 1;
        assert!(appended < 100, "no roll happened");
    }
    assert_eq!(p.segments.len(), 2);
    let read = p.read(0, 1000).unwrap();
    assert_eq!(read.len() as u64, appended);
    for (i, m) in read.iter().enumerate() {
        assert_eq!(m.offset, i as u64);
    }
}

#[test]
fn read_before_first_offset_is_out_of_range() {
    let p = Partition::new(1, 10, 1024);
    assert!(matches!(p.read(5, 1), Err(Error::OffsetOutOfRange)));
    assert!(p.read(10, 1).unwrap().is_empty());
}

#[test]
fn read_windows_respect_count() {
    let mut p = Partition::new(1, 0, 1024 * 1024);
    p.append_messages(1, vec![msg(b"a"), msg(b"b"), msg(b"c"), msg(b"d")])
        .unwrap();
    let w = p.read(1, 2).unwrap();
    assert_eq!(w.len(), 2);
    assert_eq!(w[0].offset, 1);
    assert_eq!(w[1].offset, 2);
    // past the end: empty
    assert!(p.read(4, 2).unwrap().is_empty());
}

#[test]
fn consumer_offsets_poll_next() {
    let mut p = Partition::new(1, 0, 1024 * 1024);
    p.append_messages(1, vec![msg(b"a"), msg(b"b"), msg(b"c")]).unwrap();
    // with auto_commit, a second poll continues
    let w1 = p.poll_next(9, 2, true).unwrap();
    assert_eq!(w1.len(), 2);
    assert_eq!(w1[0].offset, 0);
    let w2 = p.poll_next(9, 2, true).unwrap();
    assert_eq!(w2.len(), 1);
    assert_eq!(w2[0].offset, 2);
    // without auto_commit, the poll repeats
    let w3 = p.poll_next(8, 2, false).unwrap();
    let w4 = p.poll_next(8, 2, false).unwrap();
    assert_eq!(w3[0].offset, 0);
    assert_eq!(w4[0].offset, 0);
    assert_eq!(p.get_consumer_offset(8), None);
    assert_eq!(p.get_consumer_offset(9), Some(3));
}

#[test]
fn store_consumer_offset_bounds() {
    let mut p = Partition::new(1, 0, 1024);
    p.append_messages(1, vec![msg(b"a")]).unwrap();
    assert!(p.store_consumer_offset(1, 1).is_ok());
    assert!(matches!(p.store_consumer_offset(1, 2), Err(Error::InvalidArgument)));
    assert_eq!(p.get_consumer_offset(1), Some(1));
}

#[test]
fn retention_removes_closed_segments_only() {
    let mut p = Partition::new(1, 0, 256);
    let payload = [7u8; 64];
    let mut appended = 0u64;
    while p.segments.len() < 3 {
        // broker clock: 1 ms per append
        p.append_messages(appended, vec![msg(&payload)]).unwrap();
        appended += 1;
        assert!(appended < 100, "no roll happened");
    }
    let first_before = p.first_offset;
    assert_eq!(first_before, 0);
    // far future: every closed segment is past retention
    p.expire_segments(1_000_000, 1);
    assert_eq!(p.segments.len(), 1);
    assert!(p.first_offset > 0);
    assert_eq!(p.next_offset, appended);
    // offsets before the new first are gone
    assert!(matches!(p.read(0, 1), Err(Error::OffsetOutOfRange)));
    // surviving messages still read back
    let survivors = p.read(p.first_offset, 1000).unwrap();
    assert_eq!(survivors.len() as u64, appended - p.first_offset);
    assert_eq!(survivors[0].offset, p.first_offset);
}

#[test]
fn retention_keeps_everything_when_fresh() {
    let mut p = Partition::new(1, 0, 1024 * 1024);
    p.append_messages(100, vec![msg(b"a")]).unwrap();
    p.expire_segments(100, 1_000_000);
    assert_eq!(p.first_offset, 0);
    assert_eq!(p.read(0, 10).unwrap().len(), 1);
}
