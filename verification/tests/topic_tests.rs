use iggy_core::error::Error;
use iggy_core::message::Message;
use iggy_core::topic::{PartitionSelector, Topic};

fn msg(payload: &[u8]) -> Message {
    Message {
        offset: 0,
        state: 1,
        timestamp: 0,
        id: 0,
        checksum: 0,
        headers: Vec::new(),
        payload: payload.to_vec(),
    }
}

#[test]
fn key_hash_routes_by_modulo() {
    let mut t = Topic::new(1, 3, 1024 * 1024);
    let (pid, first) = t
        .publish(PartitionSelector::KeyHash(7), 1, vec![msg(b"a")])
        .unwrap();
    assert_eq!(pid, 7 % 3);
    assert_eq!(first, 0);
}

#[test]
fn round_robin_walks_the_partitions() {
    let mut t = Topic::new(1, 2, 1024 * 1024);
    let (p0, _) = t
        .publish(PartitionSelector::RoundRobin, 1, vec![msg(b"a")])
        .unwrap();
    let (p1, _) = t
        .publish(PartitionSelector::RoundRobin, 1, vec![msg(b"b")])
        .unwrap();
    let (p2, _) = t
        .publish(PartitionSelector::RoundRobin, 1, vec![msg(b"c")])
        .unwrap();
    assert_eq!(p0, 0);
    assert_eq!(p1, 1);
    assert_eq!(p2, 0);
    // the partition hit twice assigned offsets 0 and then 1
    assert_eq!(t.partitions[0].next_offset, 2);
    assert_eq!(t.partitions[1].next_offset, 1);
}

#[test]
fn explicit_partition_must_exist() {
    let mut t = Topic::new(1, 2, 1024 * 1024);
    assert!(matches!(
        t.publish(PartitionSelector::PartitionId(2), 1, vec![msg(b"a")]),
        Err(Error::NotFound)
    ));
    let (pid, _) = t
        .publish(PartitionSelector::PartitionId(1), 1, vec![msg(b"a")])
        .unwrap();
    assert_eq!(pid, 1);
    assert_eq!(t.partitions[1].read(0, 10).unwrap().len(), 1);
}
