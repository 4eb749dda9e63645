use zht::chunking::{chunk_message_with_id, parse_chunk, ChunkReassembler, ChunkReceiver};
use zht::framing::{decode_message, decode_payload, encode_message, frame_len, length_prefix, prefix_length};
use zht::metrics::TransportMetrics;
use zht::zpack::ZPack;

fn sample() -> ZPack {
    ZPack {
        opcode: b"005".to_vec(),
        key: vec![0xff, 0x00],
        val: vec![7; 200],
        newval: b"n".to_vec(),
        lease: vec![],
        valnull: true,
    }
}

// ── The wire ────────────────────────────────────────────────────────────

#[test]
fn encoded_fields() {
    let mut z = ZPack::default();
    assert!(z.encode_to_vec().is_empty());
    assert_eq!(z.encoded_len(), 0);
    z.opcode = b"001".to_vec();
    z.key = b"k".to_vec();
    z.valnull = true;
    let bytes = vec![0x0a, 3, b'0', b'0', b'1', 0x12, 1, b'k', 0x30, 1];
    assert_eq!(z.encode_to_vec(), bytes);
    assert_eq!(z.encoded_len(), bytes.len());
    let bytes = sample().encode_to_vec();
    // 200 takes two bytes: 0xc8 0x01
    assert_eq!(&bytes[..14], &[0x0a, 3, b'0', b'0', b'5', 0x12, 2, 0xff, 0, 0x1a, 0xc8, 1, 7, 7]);
}

#[test]
fn messages_round_trip() {
    let z = sample();
    assert_eq!(ZPack::decode(&z.encode_to_vec()).unwrap(), z);
    assert_eq!(ZPack::decode(&[]).unwrap(), ZPack::default());
    assert!(z != ZPack::default());
    assert_eq!(z.clone(), z);
}

#[test]
fn later_fields_win() {
    let z = ZPack::decode(&[0x12, 1, b'a', 0x12, 1, b'b', 0x30, 1, 0x30, 0]).unwrap();
    assert_eq!(z.key, b"b".to_vec());
    assert!(!z.valnull);
    // Any number but zero is true.
    assert!(ZPack::decode(&[0x30, 0x80, 0x01]).unwrap().valnull);
}

#[test]
fn unknown_fields_are_passed_over() {
    let key = [0x12, 1, b'k'];
    let with = |unknown: &[u8]| {
        let mut b = unknown.to_vec();
        b.extend_from_slice(&key);
        ZPack::decode(&b).map(|z| z.key)
    };
    assert_eq!(with(&[0x38, 0x96, 0x01]).unwrap(), b"k".to_vec()); // a varint
    assert_eq!(with(&[0x39, 1, 2, 3, 4, 5, 6, 7, 8]).unwrap(), b"k".to_vec()); // eight bytes
    assert_eq!(with(&[0x3a, 2, 9, 9]).unwrap(), b"k".to_vec()); // a length and bytes
    assert_eq!(with(&[0x3d, 1, 2, 3, 4]).unwrap(), b"k".to_vec()); // four bytes
    assert_eq!(with(&[0x3b, 0x08, 0x01, 0x3c]).unwrap(), b"k".to_vec()); // a group
    assert!(with(&[0x3b, 0x43, 0x39, 1, 2, 3, 4, 5, 6, 7, 8, 0x44, 0x3c]).is_ok()); // one in another
    assert!(with(&[0x3b, 0x08, 0x01, 0x44]).is_err()); // another end
    assert!(with(&[0x3b, 0x08, 0x01]).is_err()); // no end
    assert!(with(&[0x3c]).is_err()); // the end of a group alone
    let nested = |depth: usize| {
        let mut b = vec![0x3b; depth];
        b.extend(vec![0x3c; depth]);
        b
    };
    assert_eq!(with(&nested(100)).unwrap(), b"k".to_vec());
    assert!(with(&nested(101)).is_err());
    assert!(ZPack::decode(&[0x3d, 1, 2, 3]).is_err());
    assert!(ZPack::decode(&[0x39, 1]).is_err());
}

#[test]
fn malformed_messages() {
    assert!(ZPack::decode(&[0x12, 5, b'k']).is_err()); // too long
    assert!(ZPack::decode(&[0x10, 1]).is_err()); // a key that is a varint
    assert!(ZPack::decode(&[0x32, 1, 1]).is_err()); // a flag that is bytes
    assert!(ZPack::decode(&[0x02, 0]).is_err()); // field number zero
    assert!(ZPack::decode(&[0x0e, 0]).is_err()); // wire type six
    assert!(ZPack::decode(&[0x80]).is_err()); // a number that does not end
    let long = [0x30, 0xff, 0xff, 0xff, 0xff, 0xff, 0xff, 0xff, 0xff, 0xff, 0x01];
    assert!(ZPack::decode(&long).unwrap().valnull); // the largest number
    let longer = [0x30, 0xff, 0xff, 0xff, 0xff, 0xff, 0xff, 0xff, 0xff, 0xff, 0x02];
    assert!(ZPack::decode(&longer).is_err());
    match decode_payload(&[0x12, 5, b'k']) {
        Err(e) => assert!(e.to_string().starts_with("protobuf deserialization failed: failed to decode Protobuf message: ZPack.key")),
        Ok(_) => panic!("the payload is cut short"),
    }
}

// ── Frames ──────────────────────────────────────────────────────────────

#[test]
fn lengths_round_trip() {
    assert_eq!(length_prefix(0x0102_0304), [1, 2, 3, 4]);
    for n in [0u32, 1, 255, 256, 65536, u32::MAX] {
        assert_eq!(prefix_length(&length_prefix(n)), n);
        assert_eq!(length_prefix(n), n.to_be_bytes());
    }
}

#[test]
fn frames_stand_one_behind_the_other() {
    let mut bytes = encode_message(&sample());
    assert_eq!(frame_len(&sample()), bytes.len() as u64);
    bytes.extend(encode_message(&ZPack::default()));
    bytes.push(1);
    let (first, rest) = decode_message(&bytes).unwrap();
    assert_eq!(first, sample());
    assert_eq!(rest, &[0, 0, 0, 0, 1]);
    let (second, rest) = decode_message(rest).unwrap();
    assert_eq!(second, ZPack::default());
    assert_eq!(rest, &[1]);
    assert_eq!(
        decode_message(rest).unwrap_err().to_string(),
        "receive failed: Message too short: need at least 4 bytes for length prefix",
    );
    assert_eq!(
        decode_message(&[0, 0, 1, 0, 5]).unwrap_err().to_string(),
        "receive failed: Incomplete message: expected 260 bytes, got 5",
    );
}

// ── Chunks ──────────────────────────────────────────────────────────────

#[test]
fn chunk_layout() {
    let chunks = chunk_message_with_id(77, b"hello world", 4);
    assert_eq!(chunks.len(), 3);
    assert_eq!(chunks[1].data, b"                  771      3      4   o wo".to_vec());
    assert_eq!((chunks[2].seq_num, chunks[2].total), (2, 3));
    assert_eq!(parse_chunk(&chunks[2].data).unwrap(), (77, 2, 3, &b"rld"[..]));
    let empty = chunk_message_with_id(1, b"", 0);
    assert_eq!(empty.len(), 1);
    assert_eq!(parse_chunk(&empty[0].data).unwrap(), (1, 0, 1, &b""[..]));
}

#[test]
fn chunks_deliver_in_any_order() {
    let data: Vec<u8> = (0..=255).collect();
    let chunks = chunk_message_with_id(u64::MAX, &data, 100);
    for order in [[0, 1, 2], [0, 2, 1], [1, 0, 2], [1, 2, 0], [2, 0, 1], [2, 1, 0]] {
        let mut receiver = ChunkReceiver::default();
        // Another message is under way.
        assert!(receiver.receive(&chunk_message_with_id(5, b"ab", 1)[0].data).unwrap().is_none());
        for (k, i) in order.iter().enumerate() {
            let message = receiver.receive(&chunks[*i].data).unwrap();
            assert_eq!(message.is_some(), k == 2);
            if let Some(bytes) = message {
                assert_eq!(bytes, data);
            }
        }
        assert_eq!(receiver.inflight_count(), 1);
        receiver.clear();
        assert_eq!(receiver.inflight_count(), 0);
    }
}

#[test]
fn chunk_beyond_the_total_completes_nothing() {
    let mut receiver = ChunkReceiver::new();
    let chunks = chunk_message_with_id(3, b"abcd", 2);
    assert!(receiver.receive(&chunks[0].data).unwrap().is_none());
    // A chunk of the same message with a number beyond its total.
    let stray = chunk_message_with_id(3, b"abcdef", 2)[2].data.clone();
    assert!(receiver.receive(&stray).unwrap().is_none());
    assert_eq!(receiver.inflight_count(), 1);
    assert_eq!(receiver.receive(&chunks[1].data).unwrap(), Some(b"abcd".to_vec()));
    assert_eq!(receiver.inflight_count(), 0);
    // The only chunk of a message, under a number that it does not have.
    let lone = b"                   15      1      1   x";
    assert_eq!(parse_chunk(lone).unwrap(), (1, 5, 1, &b"x"[..]));
    assert!(receiver.receive(lone).unwrap().is_none());
    assert_eq!(receiver.inflight_count(), 1);
}

#[test]
fn gap_is_not_complete() {
    let mut r = ChunkReassembler::new(1, 2, 0);
    assert!(!r.insert(0, b"a".to_vec()));
    assert!(!r.insert(5, b"z".to_vec()));
    assert_eq!(r.received_count(), 2);
    assert!(!r.is_complete());
    assert!(r.insert(1, b"b".to_vec()));
    assert_eq!(r.reassemble(), b"ab".to_vec());
}

#[test]
fn header_keeps_its_size() {
    let data = vec![7u8; 10_000];
    let chunks = chunk_message_with_id(1, &data, 10_000);
    assert_eq!(chunks.len(), 1);
    assert_eq!(chunks[0].data.len(), 10_038);
    assert_eq!(&chunks[0].data[..38], &b"                   10      1      ****"[..]);
    assert_eq!(&chunks[0].data[38..], &data[..]);
    assert_eq!(
        parse_chunk(&chunks[0].data).unwrap_err().to_string(),
        "receive failed: Invalid payload_size '****': invalid digit found in string",
    );
    let data = vec![7u8; 9_999];
    let chunks = chunk_message_with_id(1, &data, 10_000);
    assert_eq!(parse_chunk(&chunks[0].data).unwrap(), (1, 0, 1, &data[..]));
}

#[test]
fn messages_come_in_at_the_same_time() {
    let mut receiver = ChunkReceiver::new().with_metrics(TransportMetrics::new());
    let a = chunk_message_with_id(1, b"first message", 5);
    let b = chunk_message_with_id(2, b"second", 4);
    assert!(receiver.receive(&a[2].data).unwrap().is_none());
    assert!(receiver.receive(&b[0].data).unwrap().is_none());
    assert!(receiver.receive(b"noise").is_err());
    assert!(receiver.receive(&a[0].data).unwrap().is_none());
    assert_eq!(receiver.inflight_count(), 2);
    assert_eq!(receiver.receive(&b[1].data).unwrap(), Some(b"second".to_vec()));
    assert_eq!(receiver.receive(&a[1].data).unwrap(), Some(b"first message".to_vec()));
    assert_eq!(receiver.inflight_count(), 0);
    let counters = receiver.metrics().unwrap();
    assert_eq!((counters.chunks_received, counters.messages_received), (5, 0));
}

#[test]
fn chunk_errors() {
    let words = |raw: &[u8]| parse_chunk(raw).unwrap_err().to_string();
    assert_eq!(words(b"short"), "receive failed: Chunk too short: expected >= 38 bytes, got 5");
    let good = chunk_message_with_id(1, b"xyz", 9)[0].data.clone();
    assert_eq!(words(&good[..40]), "receive failed: Chunk payload truncated: expected 3 bytes, got 2");
    let mut bad = good.clone();
    bad[19] = b'x';
    assert_eq!(words(&bad), "receive failed: Invalid UUID 'x': invalid digit found in string");
    let mut bad = good.clone();
    bad[20] = b' ';
    assert_eq!(words(&bad), "receive failed: Invalid seq_num '': cannot parse integer from empty string");
    let mut bad = good.clone();
    bad[0] = 0xff;
    assert_eq!(
        words(&bad),
        format!("receive failed: Invalid UUID encoding: {}", std::str::from_utf8(&bad[..20]).unwrap_err()),
    );
    let mut receiver = ChunkReceiver::new();
    assert!(receiver.receive(&bad).is_err());
}

#[test]
fn reassembler_counts() {
    let mut r = ChunkReassembler::new(8, 2, 0);
    assert_eq!((r.msg_id(), r.total(), r.received_count()), (8, 2, 0));
    assert!(!r.insert(1, b"b".to_vec()));
    assert!(!r.insert(1, b"B".to_vec()));
    assert!(r.insert(0, b"a".to_vec()));
    assert!(r.is_complete());
    assert_eq!(r.reassemble(), b"aB".to_vec());
}

#[test]
fn counts_follow_what_comes_in() {
    let mut receiver = ChunkReceiver::new();
    let a = chunk_message_with_id(1, b"abcd", 2);
    let b = chunk_message_with_id(2, b"xy", 2);
    assert!(receiver.receive(b"noise").is_err());
    assert_eq!(receiver.inflight_count(), 0);
    assert!(receiver.receive(&a[0].data).unwrap().is_none());
    assert_eq!(receiver.inflight_count(), 1);
    // The same chunk again leaves as many under way.
    assert!(receiver.receive(&a[0].data).unwrap().is_none());
    assert_eq!(receiver.inflight_count(), 1);
    // A message of one chunk never is under way.
    assert!(receiver.receive(&b[0].data).unwrap().is_some());
    assert_eq!(receiver.inflight_count(), 1);
    assert!(receiver.receive(&a[1].data).unwrap().is_some());
    assert_eq!(receiver.inflight_count(), 0);
    let mut r = ChunkReassembler::new(1, 3, 0);
    for (number, count) in [(2, 1), (2, 1), (7, 2), (0, 3)] {
        assert!(!r.insert(number, b"p".to_vec()));
        assert_eq!(r.received_count(), count);
    }
}
