use iggy_core::batch::MessagesBatch;
use iggy_core::message::Message;
use iggy_core::recovery::recover_log;

fn msg(payload: &[u8]) -> Message {
    Message {
        offset: 0,
        state: 1,
        timestamp: 3,
        id: 1,
        checksum: 0,
        headers: Vec::new(),
        payload: payload.to_vec(),
    }
}

fn frame(base_offset: u64, payloads: &[&[u8]]) -> Vec<u8> {
    let messages: Vec<Message> = payloads.iter().map(|p| msg(p)).collect();
    let delta = (payloads.len() - 1) as u32;
    MessagesBatch::messages_to_batch(base_offset, delta, messages).encode()
}

#[test]
fn clean_log_is_kept_whole() {
    let mut log = frame(0, &[b"a", b"b"]);
    log.extend(frame(2, &[b"c"]));
    assert_eq!(recover_log(&log), log.len());
}

#[test]
fn crash_mid_append_truncates_to_last_good_batch() {
    let mut log = frame(0, &[b"a", b"b"]);
    log.extend(frame(2, &[b"c"]));
    let good_len = log.len();
    // an interrupted append: the last frame lost its final 5 bytes
    let mut torn = frame(3, &[b"dddddd"]);
    torn.truncate(torn.len() - 5);
    log.extend(&torn);
    assert_eq!(recover_log(&log), good_len);
    // replaying the valid prefix ends where the pre-crash log ended:
    // the last complete frame still decodes, so next_offset resumes at 3
    let valid = &log[..good_len];
    let second = MessagesBatch::decode(&valid[frame(0, &[b"a", b"b"]).len()..]).unwrap();
    assert_eq!(second.get_last_offset() + 1, 3);
}

#[test]
fn short_or_empty_logs_have_no_valid_prefix() {
    assert_eq!(recover_log(&[]), 0);
    assert_eq!(recover_log(&[1, 2, 3]), 0);
    assert_eq!(recover_log(&[0u8; 16]), 0);
}

#[test]
fn garbage_length_field_stops_the_scan() {
    let mut log = frame(0, &[b"a"]);
    let good_len = log.len();
    // a header whose length field is below the minimum frame size
    let mut junk = vec![0u8; 20];
    junk[8] = 3;
    log.extend(&junk);
    assert_eq!(recover_log(&log), good_len);
}

#[test]
fn every_cut_position_recovers_a_frame_boundary() {
    let f1 = frame(0, &[b"a", b"b"]);
    let f2 = frame(2, &[b"c"]);
    let mut log = f1.clone();
    log.extend(&f2);
    let boundaries = [0, f1.len(), log.len()];
    for cut in 0..=log.len() {
        let kept = recover_log(&log[..cut]);
        // the kept prefix is the largest frame boundary at or before the cut
        let expected = *boundaries.iter().filter(|b| **b <= cut).max().unwrap();
        assert_eq!(kept, expected, "cut at {cut}");
    }
}
