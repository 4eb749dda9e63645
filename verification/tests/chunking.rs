use zht::chunking::{chunk_message, parse_chunk, ChunkReassembler, ChunkReceiver, CHUNK_HEADER_SIZE};
use zht::metrics::TransportMetrics;

#[test]
fn test_chunk_message_single_chunk() {
    let data = b"hello world";
    let (msg_id, chunks) = chunk_message(data, 512);
    assert_eq!(chunks.len(), 1);
    assert_eq!(chunks[0].seq_num, 0);
    assert_eq!(chunks[0].total, 1);

    // Verify the chunk can be parsed back
    let (id, seq, total, payload) = parse_chunk(&chunks[0].data).unwrap();
    assert_eq!(id, msg_id);
    assert_eq!(seq, 0);
    assert_eq!(total, 1);
    assert_eq!(payload, data);
}

#[test]
fn test_chunk_message_multiple_chunks() {
    // 1500 bytes / 512 payload per chunk = 3 chunks (512 + 512 + 476)
    let data = vec![0xABu8; 1500];
    let (msg_id, chunks) = chunk_message(&data, 512);
    assert_eq!(chunks.len(), 3);
    assert_eq!(chunks[0].seq_num, 0);
    assert_eq!(chunks[1].seq_num, 1);
    assert_eq!(chunks[2].seq_num, 2);

    for c in &chunks {
        assert_eq!(c.total, 3);
    }

    // Verify each chunk is parseable
    for c in &chunks {
        let (id, _, _, payload) = parse_chunk(&c.data).unwrap();
        assert_eq!(id, msg_id);
        assert!(payload.len() <= 512);
    }
}

#[test]
fn test_chunk_empty_data() {
    let data: &[u8] = b"";
    let (_msg_id, chunks) = chunk_message(data, 512);
    assert_eq!(chunks.len(), 1);
}

#[test]
fn test_chunk_exact_boundary() {
    // Exactly 512 bytes = 1 chunk
    let data = vec![0xFFu8; 512];
    let (_msg_id, chunks) = chunk_message(&data, 512);
    assert_eq!(chunks.len(), 1);

    // 513 bytes = 2 chunks (512 + 1)
    let data = vec![0xFFu8; 513];
    let (_msg_id, chunks) = chunk_message(&data, 512);
    assert_eq!(chunks.len(), 2);
}

#[test]
fn test_chunk_header_size() {
    let (msg_id, chunks) = chunk_message(b"test", 512);
    assert_eq!(chunks[0].data.len(), CHUNK_HEADER_SIZE + 4); // 38 + 4 bytes payload
    assert!(chunks[0].data.len() >= CHUNK_HEADER_SIZE);
}

#[test]
fn test_parse_chunk_too_short() {
    let result = parse_chunk(&[0u8; 10]);
    assert!(result.is_err());
    assert!(result.unwrap_err().to_string().contains("too short"));
}

#[test]
fn test_parse_chunk_invalid_uuid() {
    let mut raw = vec![0u8; CHUNK_HEADER_SIZE + 4];
    // Put invalid UTF-8 in uuid area
    raw[0] = 0xFF;
    raw[1] = 0xFE;
    let result = parse_chunk(&raw);
    assert!(result.is_err());
}

#[test]
fn test_reassembler_basic() {
    let mut r = ChunkReassembler::new(42, 3, 1500);
    assert!(!r.is_complete());

    r.insert(0, vec![1; 512]);
    assert!(!r.is_complete());
    assert_eq!(r.received_count(), 1);

    r.insert(1, vec![2; 512]);
    assert!(!r.is_complete());

    r.insert(2, vec![3; 476]);
    assert!(r.is_complete());

    let assembled = r.reassemble();
    assert_eq!(assembled.len(), 1500);
    assert_eq!(&assembled[0..512], &[1u8; 512]);
    assert_eq!(&assembled[512..1024], &[2u8; 512]);
    assert_eq!(&assembled[1024..1500], &[3u8; 476]);
}

#[test]
fn test_reassembler_out_of_order() {
    let mut r = ChunkReassembler::new(99, 3, 6);
    r.insert(2, vec![3]);
    r.insert(0, vec![1]);
    assert!(!r.is_complete());
    r.insert(1, vec![2]);
    assert!(r.is_complete());

    let assembled = r.reassemble();
    assert_eq!(assembled, vec![1, 2, 3]);
}

#[test]
fn test_chunk_receiver_roundtrip() {
    let original = vec![0x42u8; 1500];
    let (msg_id, chunks) = chunk_message(&original, 512);

    let mut receiver = ChunkReceiver::new();
    assert_eq!(receiver.inflight_count(), 0);

    // Send first two chunks — should not complete
    assert!(receiver.receive(&chunks[0].data).unwrap().is_none());
    assert!(receiver.receive(&chunks[1].data).unwrap().is_none());
    assert_eq!(receiver.inflight_count(), 1);

    // Send final chunk — should complete
    let result = receiver.receive(&chunks[2].data).unwrap();
    assert!(result.is_some());
    assert_eq!(result.unwrap(), original);
    assert_eq!(receiver.inflight_count(), 0);
}

#[test]
fn test_chunk_receiver_multiple_messages() {
    let data1 = vec![0xAA; 600];
    let data2 = vec![0xBB; 200];

    let (_, chunks1) = chunk_message(&data1, 512);
    let (_, chunks2) = chunk_message(&data2, 512);

    let mut receiver = ChunkReceiver::new();

    // Interleave chunks from two messages
    assert!(receiver.receive(&chunks1[0].data).unwrap().is_none());
    assert!(receiver.receive(&chunks2[0].data).unwrap().is_some()); // data2 is 1 chunk
    assert!(receiver.receive(&chunks1[1].data).unwrap().is_some()); // data1 completes
}

#[test]
fn test_chunk_receiver_clear() {
    let data = vec![0u8; 1500];
    let (_, chunks) = chunk_message(&data, 512);

    let mut receiver = ChunkReceiver::new();
    receiver.receive(&chunks[0].data).unwrap();
    assert_eq!(receiver.inflight_count(), 1);

    receiver.clear();
    assert_eq!(receiver.inflight_count(), 0);
}

#[test]
fn test_chunk_receiver_with_metrics() {
    let mut receiver = ChunkReceiver::new().with_metrics(TransportMetrics::new());

    let data = vec![0u8; 200];
    let (_, chunks) = chunk_message(&data, 512);
    receiver.receive(&chunks[0].data).unwrap();

    let snap = receiver.metrics().unwrap();
    assert_eq!(snap.chunks_received, 1);
}
