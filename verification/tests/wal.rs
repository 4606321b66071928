use wal::codec::encode_record;
use wal::store::{decode_all, WAL};

/// Append each payload to an in-memory file image through the store,
/// returning the image and the offsets handed out.
fn append_all(w: &mut WAL, image: &mut Vec<u8>, payloads: &[&[u8]]) -> Vec<u64> {
    let mut offsets = Vec::new();
    for p in payloads {
        let (frame, offset) = w.append(p);
        image.extend_from_slice(&frame);
        offsets.push(offset);
    }
    offsets
}

#[test]
fn encode_record_exact() {
    assert_eq!(encode_record(b"abc"), vec![0, 0, 0, 3, 97, 98, 99]);
    assert_eq!(encode_record(b""), vec![0, 0, 0, 0]);
}

#[test]
fn encode_record_multi_byte_length() {
    let payload = vec![7u8; 300];
    let encoded = encode_record(&payload);
    assert_eq!(&encoded[..4], &[0, 0, 1, 44]);
    assert_eq!(&encoded[4..], &payload[..]);
}

#[test]
fn empty_log_reads_empty() {
    let w = WAL::open(0);
    assert_eq!(w.read_all(&[]), Vec::<Vec<u8>>::new());
}

#[test]
fn round_trip_two_records() {
    let mut w = WAL::open(0);
    let mut image = Vec::new();
    append_all(&mut w, &mut image, &[b"alpha", b"bravo"]);
    let reopened = WAL::open(image.len() as u64);
    assert_eq!(
        reopened.read_all(&image),
        vec![b"alpha".to_vec(), b"bravo".to_vec()]
    );
}

#[test]
fn empty_payload_round_trip() {
    let mut w = WAL::open(0);
    let mut image = Vec::new();
    append_all(&mut w, &mut image, &[b""]);
    assert_eq!(image, vec![0, 0, 0, 0]);
    assert_eq!(w.read_all(&image), vec![Vec::<u8>::new()]);
}

#[test]
fn append_survives_reopen() {
    let mut w = WAL::open(0);
    let mut image = Vec::new();
    append_all(&mut w, &mut image, &[b"durable entry"]);
    // A crash is simulated by dropping the old store and opening a fresh one
    // over the same bytes without truncating.
    let reopened = WAL::open(image.len() as u64);
    let entries = reopened.read_all(&image);
    assert_eq!(entries, vec![b"durable entry".to_vec()]);
}

#[test]
fn resume_after_reopen() {
    let mut first = WAL::open(0);
    let mut image = Vec::new();
    append_all(&mut first, &mut image, &[b"old-1", b"old-2"]);

    let mut second = WAL::open(image.len() as u64);
    let offsets = append_all(&mut second, &mut image, &[b"new-1"]);
    assert_eq!(offsets, vec![18]); // two records of 5 bytes, framed: 2 * (4 + 5)
    assert_eq!(
        second.read_all(&image),
        vec![b"old-1".to_vec(), b"old-2".to_vec(), b"new-1".to_vec()]
    );
}

#[test]
fn truncated_tail_short_payload() {
    let mut image = encode_record(b"abc");
    // A prefix declaring 9 payload bytes, followed by only one.
    image.extend_from_slice(&[0, 0, 0, 9, b'x']);
    let w = WAL::open(image.len() as u64);
    assert_eq!(w.read_all(&image), vec![b"abc".to_vec()]);
}

#[test]
fn truncated_tail_short_prefix() {
    let mut image = encode_record(b"abc");
    // A length prefix cut off after two bytes.
    image.extend_from_slice(&[0, 0]);
    let w = WAL::open(image.len() as u64);
    assert_eq!(w.read_all(&image), vec![b"abc".to_vec()]);
}

#[test]
fn truncate_idempotent_on_empty() {
    let mut w = WAL::open(0);
    w.truncate();
    assert_eq!(w.position, 0);
    w.truncate();
    assert_eq!(w.position, 0);
    assert_eq!(w.read_all(&[]), Vec::<Vec<u8>>::new());
}

#[test]
fn concrete_scenario() {
    let mut w = WAL::open(0);
    let mut image = Vec::new();
    append_all(&mut w, &mut image, &[b"SET key1 = value1", b"SET key2 = value2"]);
    assert_eq!(
        w.read_all(&image),
        vec![b"SET key1 = value1".to_vec(), b"SET key2 = value2".to_vec()]
    );
    w.truncate();
    image.clear();
    assert_eq!(w.read_all(&image), Vec::<Vec<u8>>::new());
    assert_eq!(w.position, 0);
    assert_eq!(image.len(), 0);
}

#[test]
fn offset_contract() {
    let mut w = WAL::open(0);
    let mut image = Vec::new();
    let offsets = append_all(
        &mut w,
        &mut image,
        &[b"SET key1 = value1", b"SET key2 = value2", b"x"],
    );
    // First record starts at 0; each later one starts after the framed
    // sizes (4 + payload length) of everything before it.
    assert_eq!(offsets, vec![0, 21, 42]);
    assert_eq!(w.position, 47);
    assert_eq!(image.len(), 47);
}

#[test]
fn decode_all_matches_read_all() {
    let mut w = WAL::open(0);
    let mut image = Vec::new();
    append_all(&mut w, &mut image, &[b"one", b"two"]);
    assert_eq!(decode_all(&image), w.read_all(&image));
    assert_eq!(decode_all(&image), vec![b"one".to_vec(), b"two".to_vec()]);
}
