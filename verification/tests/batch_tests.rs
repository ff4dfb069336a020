use iggy_core::batch::MessagesBatch;
use iggy_core::error::Error;
use iggy_core::message::{message_from_bytes, Message};

fn msg(payload: &[u8]) -> Message {
    Message {
        offset: 0,
        state: 1,
        timestamp: 42,
        id: 7,
        checksum: 0,
        headers: Vec::new(),
        payload: payload.to_vec(),
    }
}

#[test]
fn message_encoding_layout() {
    let m = msg(b"ab");
    let bytes = m.to_bytes();
    // 45 fixed bytes plus the two payload bytes
    assert_eq!(bytes.len(), 47);
    assert_eq!(m.size_bytes(), 47);
    // offset, little-endian u64, leads
    assert_eq!(&bytes[0..8], &[0, 0, 0, 0, 0, 0, 0, 0]);
    // state follows
    assert_eq!(bytes[8], 1);
    // payload_len:u32 then payload trail
    assert_eq!(&bytes[41..45], &[2, 0, 0, 0]);
    assert_eq!(&bytes[45..], b"ab");
}

#[test]
fn batch_length_accounts_for_header() {
    let batch = MessagesBatch::messages_to_batch(5, 2, vec![msg(b"a"), msg(b"b"), msg(b"c")]);
    // each message encodes to 46 bytes
    assert_eq!(batch.length, 16 + 3 * 46);
    assert_eq!(batch.get_size_bytes(), 16 + 3 * 46);
    assert_eq!(batch.base_offset, 5);
    assert_eq!(batch.last_offset_delta, 2);
    assert_eq!(batch.get_last_offset(), 7);
    let encoded = batch.encode();
    assert_eq!(encoded.len() as u32, batch.length);
}

#[test]
fn batch_round_trip() {
    let batch = MessagesBatch::messages_to_batch(9, 1, vec![msg(b"xy"), msg(b"z")]);
    let encoded = batch.encode();
    let decoded = MessagesBatch::decode(&encoded).unwrap();
    assert_eq!(decoded.base_offset, batch.base_offset);
    assert_eq!(decoded.length, batch.length);
    assert_eq!(decoded.last_offset_delta, batch.last_offset_delta);
    assert_eq!(decoded.messages.to_vec(), batch.messages.to_vec());
}

#[test]
fn batch_extend_appends() {
    let batch = MessagesBatch::messages_to_batch(0, 0, vec![msg(b"q")]);
    let mut out = vec![0xAAu8];
    batch.extend(&mut out);
    assert_eq!(out[0], 0xAA);
    assert_eq!(out.len() as u32, 1 + batch.length);
    assert_eq!(&out[1..], batch.encode().as_slice());
}

#[test]
fn decode_rejects_short_input() {
    assert!(matches!(MessagesBatch::decode(&[0u8; 16]), Err(Error::CorruptedData)));
    assert!(matches!(MessagesBatch::decode(&[]), Err(Error::CorruptedData)));
}

#[test]
fn decode_rejects_wrong_length_field() {
    let batch = MessagesBatch::messages_to_batch(0, 0, vec![msg(b"q")]);
    let mut encoded = batch.encode();
    // truncate below the recorded length
    encoded.truncate(encoded.len() - 5);
    assert!(matches!(MessagesBatch::decode(&encoded), Err(Error::CorruptedData)));
}

#[test]
fn message_parse_round_trip() {
    let m = Message {
        offset: 3,
        state: 1,
        timestamp: 99,
        id: 1234567890123456789,
        checksum: 42,
        headers: b"hk".to_vec(),
        payload: b"payload".to_vec(),
    };
    let bytes = m.to_bytes();
    let (parsed, used) = message_from_bytes(&bytes).unwrap();
    assert_eq!(used, bytes.len());
    assert_eq!(parsed.offset, 3);
    assert_eq!(parsed.state, 1);
    assert_eq!(parsed.timestamp, 99);
    assert_eq!(parsed.id, 1234567890123456789);
    assert_eq!(parsed.checksum, 42);
    assert_eq!(parsed.headers, b"hk".to_vec());
    assert_eq!(parsed.payload, b"payload".to_vec());
    // a frame cut short does not parse
    assert!(message_from_bytes(&bytes[..bytes.len() - 1]).is_err());
    assert!(message_from_bytes(&[]).is_err());
}

#[test]
fn batch_payload_parses_message_by_message() {
    let batch = MessagesBatch::messages_to_batch(0, 1, vec![msg(b"x"), msg(b"yz")]);
    let payload = batch.messages.to_vec();
    let (m1, used1) = message_from_bytes(&payload).unwrap();
    assert_eq!(m1.payload, b"x".to_vec());
    let (m2, used2) = message_from_bytes(&payload[used1..]).unwrap();
    assert_eq!(m2.payload, b"yz".to_vec());
    assert_eq!(used1 + used2, payload.len());
}
