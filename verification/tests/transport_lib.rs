use zht::constants::{
    OPC_APPEND, OPC_CMPSWP, OPC_INSERT, OPC_LOOKUP, OPC_REMOVE, REC_CLTFAIL, REC_EMPTYKEY,
    REC_NONEXISTKEY, REC_SUCC, REC_UOPC,
};
use zht::connection::is_connection_broken_error;
use zht::error::ZhtError;
use zht::framing::{decode_message, encode_message};
use zht::novoht::NoVoHT;
use zht::worker::HTWorker;
use zht::zpack::ZPack;

fn make_test_worker() -> HTWorker {
    HTWorker::new(NoVoHT::new())
}

fn make_zpack(opcode: &str, key: &str, val: &str) -> ZPack {
    let mut z = ZPack::default();
    z.opcode = opcode.as_bytes().to_vec();
    z.key = key.as_bytes().to_vec();
    if !val.is_empty() {
        z.val = val.as_bytes().to_vec();
    }
    z
}

#[test]
fn lib_test_encode_decode_roundtrip() {
    let mut original = ZPack::default();
    original.opcode = OPC_INSERT.as_bytes().to_vec();
    original.key = b"test_key".to_vec();
    original.val = b"test_value".to_vec();

    let encoded = encode_message(&original);
    assert!(encoded.len() > 4, "Encoded message should have length prefix");

    let len_prefix = u32::from_be_bytes([encoded[0], encoded[1], encoded[2], encoded[3]]);
    assert_eq!(len_prefix as usize, encoded.len() - 4);

    let (decoded, remaining) = decode_message(&encoded).unwrap();
    assert!(remaining.is_empty(), "No remaining bytes expected");
    assert_eq!(decoded.opcode, original.opcode);
    assert_eq!(decoded.key, original.key);
    assert_eq!(decoded.val, original.val);
}

#[test]
fn lib_test_decode_empty_buffer() {
    let result = decode_message(&[]);
    assert!(result.is_err());
    let err = result.unwrap_err().to_string();
    assert!(err.contains("too short"));
}

#[test]
fn lib_test_decode_too_short_for_length() {
    let buf = [0u8; 3]; // Only 3 bytes, need 4 for length prefix
    let result = decode_message(&buf);
    assert!(result.is_err());
}

#[test]
fn lib_test_decode_incomplete_message() {
    // Length prefix says 100 bytes but we only provide 10
    let mut buf = Vec::new();
    buf.extend_from_slice(&100u32.to_be_bytes());
    buf.extend_from_slice(&[0u8; 6]); // Only 6 bytes of payload
    let result = decode_message(&buf);
    assert!(result.is_err());
    let err = result.unwrap_err().to_string();
    assert!(err.contains("Incomplete"));
}

#[test]
fn lib_test_decode_multiple_messages() {
    let msg1 = {
        let mut z = ZPack::default();
        z.opcode = OPC_INSERT.as_bytes().to_vec();
        z.key = b"key1".to_vec();
        z.val = b"val1".to_vec();
        z
    };
    let msg2 = {
        let mut z = ZPack::default();
        z.opcode = OPC_LOOKUP.as_bytes().to_vec();
        z.key = b"key2".to_vec();
        z
    };

    let mut buf = Vec::new();
    buf.extend(encode_message(&msg1));
    buf.extend(encode_message(&msg2));

    let (decoded1, remaining) = decode_message(&buf).unwrap();
    assert_eq!(decoded1.opcode, msg1.opcode);
    assert_eq!(decoded1.key, msg1.key);

    let (decoded2, remaining) = decode_message(remaining).unwrap();
    assert_eq!(decoded2.opcode, msg2.opcode);
    assert_eq!(decoded2.key, msg2.key);
    assert!(remaining.is_empty());
}

#[test]
fn lib_test_worker_insert_and_lookup() {
    let mut worker = make_test_worker();

    // Insert
    let req = make_zpack(OPC_INSERT, "mykey", "myvalue");
    let resp = worker.process(&req).response().unwrap();
    assert_eq!(resp.lease, REC_SUCC.as_bytes().to_vec());

    // Lookup
    let req = make_zpack(OPC_LOOKUP, "mykey", "");
    let resp = worker.process(&req).response().unwrap();
    let lease_status = String::from_utf8_lossy(&resp.lease);
    assert!(lease_status.starts_with(REC_SUCC));
    assert!(lease_status.contains("myvalue"));
    assert_eq!(resp.val, b"myvalue".to_vec());
    assert!(!resp.valnull);
}

#[test]
fn lib_test_worker_lookup_nonexistent() {
    let mut worker = make_test_worker();
    let req = make_zpack(OPC_LOOKUP, "nonexistent", "");
    let resp = worker.process(&req).response().unwrap();
    assert_eq!(resp.lease, REC_NONEXISTKEY.as_bytes().to_vec());
    assert!(resp.valnull);
}

#[test]
fn lib_test_worker_remove() {
    let mut worker = make_test_worker();

    // Insert first
    let req = make_zpack(OPC_INSERT, "rmkey", "rmval");
    worker.process(&req).response().unwrap();

    // Remove
    let req = make_zpack(OPC_REMOVE, "rmkey", "");
    let resp = worker.process(&req).response().unwrap();
    assert_eq!(resp.lease, REC_SUCC.as_bytes().to_vec());

    // Verify removed
    let req = make_zpack(OPC_LOOKUP, "rmkey", "");
    let resp = worker.process(&req).response().unwrap();
    assert_eq!(resp.lease, REC_NONEXISTKEY.as_bytes().to_vec());
}

#[test]
fn lib_test_worker_remove_nonexistent() {
    let mut worker = make_test_worker();
    let req = make_zpack(OPC_REMOVE, "nope", "");
    let resp = worker.process(&req).response().unwrap();
    assert_eq!(resp.lease, REC_NONEXISTKEY.as_bytes().to_vec());
}

#[test]
fn lib_test_worker_append() {
    let mut worker = make_test_worker();

    // Insert initial value
    let req = make_zpack(OPC_INSERT, "appendkey", "hello");
    worker.process(&req).response().unwrap();

    // Append
    let req = make_zpack(OPC_APPEND, "appendkey", " world");
    let resp = worker.process(&req).response().unwrap();
    assert_eq!(resp.lease, REC_SUCC.as_bytes().to_vec());

    // Verify appended (NoVoHT uses ":" separator for append)
    let req = make_zpack(OPC_LOOKUP, "appendkey", "");
    let resp = worker.process(&req).response().unwrap();
    assert_eq!(resp.val, b"hello: world".to_vec());
}

#[test]
fn lib_test_worker_compare_swap_success() {
    let mut worker = make_test_worker();

    // Insert initial value
    let req = make_zpack(OPC_INSERT, "caskey", "old");
    worker.process(&req).response().unwrap();

    // CAS with correct expected value
    let mut req = make_zpack(OPC_CMPSWP, "caskey", "old");
    req.newval = b"new".to_vec();
    let resp = worker.process(&req).response().unwrap();
    assert_eq!(resp.lease, REC_SUCC.as_bytes().to_vec());

    // Verify new value
    let req = make_zpack(OPC_LOOKUP, "caskey", "");
    let resp = worker.process(&req).response().unwrap();
    assert_eq!(resp.val, b"new".to_vec());
}

#[test]
fn lib_test_worker_compare_swap_mismatch() {
    let mut worker = make_test_worker();

    // Insert initial value
    let req = make_zpack(OPC_INSERT, "caskey", "actual");
    worker.process(&req).response().unwrap();

    // CAS with wrong expected value
    let mut req = make_zpack(OPC_CMPSWP, "caskey", "wrong");
    req.newval = b"new".to_vec();
    let resp = worker.process(&req).response().unwrap();
    assert_eq!(resp.lease, REC_CLTFAIL.as_bytes().to_vec());
    assert_eq!(resp.val, b"actual".to_vec());
    assert!(!resp.valnull);

    // Value should remain unchanged
    let req = make_zpack(OPC_LOOKUP, "caskey", "");
    let resp = worker.process(&req).response().unwrap();
    assert_eq!(resp.val, b"actual".to_vec());
}

#[test]
fn lib_test_worker_unrecognized_opcode() {
    let mut worker = make_test_worker();
    let req = make_zpack("999", "key", "val");
    let resp = worker.process(&req).response().unwrap();
    assert_eq!(resp.lease, REC_UOPC.as_bytes().to_vec());
}

#[test]
fn lib_test_worker_empty_key() {
    let mut worker = make_test_worker();
    let req = make_zpack(OPC_INSERT, "", "val");
    let resp = worker.process(&req).response().unwrap();
    assert_eq!(resp.lease, REC_EMPTYKEY.as_bytes().to_vec());
}

#[test]
fn test_htworker_metrics_initial() {
    let worker = make_test_worker();
    let m = worker.metrics();
    assert_eq!(m.total_operations, 0);
    assert_eq!(m.total_errors, 0);
    assert_eq!(m.insert_count, 0);
    assert_eq!(m.lookup_count, 0);
}

#[test]
fn test_htworker_metrics_insert() {
    let mut worker = make_test_worker();
    let req = make_zpack(OPC_INSERT, "mkey", "mval");
    worker.process(&req).response().unwrap();

    let m = worker.metrics();
    assert_eq!(m.total_operations, 1);
    assert_eq!(m.insert_count, 1);
    assert_eq!(m.total_errors, 0);
    assert_eq!(m.insert_errors, 0);
}

#[test]
fn test_htworker_metrics_lookup() {
    let mut worker = make_test_worker();
    // Insert first
    worker.process(&make_zpack(OPC_INSERT, "lkey", "lval")).response().unwrap();
    // Lookup
    worker.process(&make_zpack(OPC_LOOKUP, "lkey", "")).response().unwrap();

    let m = worker.metrics();
    assert_eq!(m.total_operations, 2);
    assert_eq!(m.insert_count, 1);
    assert_eq!(m.lookup_count, 1);
}

#[test]
fn test_htworker_metrics_lookup_nonexistent() {
    let mut worker = make_test_worker();
    worker.process(&make_zpack(OPC_LOOKUP, "no_such_key", "")).response().unwrap();

    let m = worker.metrics();
    assert_eq!(m.total_operations, 1);
    assert_eq!(m.lookup_count, 1);
    assert_eq!(m.lookup_errors, 1);
    assert_eq!(m.total_errors, 1);
}

#[test]
fn test_htworker_metrics_remove() {
    let mut worker = make_test_worker();
    worker.process(&make_zpack(OPC_INSERT, "rmk", "rmv")).response().unwrap();
    worker.process(&make_zpack(OPC_REMOVE, "rmk", "")).response().unwrap();

    let m = worker.metrics();
    assert_eq!(m.total_operations, 2);
    assert_eq!(m.remove_count, 1);
    assert_eq!(m.total_errors, 0);
}

#[test]
fn test_htworker_metrics_remove_nonexistent() {
    let mut worker = make_test_worker();
    worker.process(&make_zpack(OPC_REMOVE, "nope_rm", "")).response().unwrap();

    let m = worker.metrics();
    assert_eq!(m.remove_count, 1);
    assert_eq!(m.remove_errors, 1);
    assert_eq!(m.total_errors, 1);
}

#[test]
fn test_htworker_metrics_append() {
    let mut worker = make_test_worker();
    worker.process(&make_zpack(OPC_INSERT, "akey", "av")).response().unwrap();
    worker.process(&make_zpack(OPC_APPEND, "akey", " more")).response().unwrap();

    let m = worker.metrics();
    assert_eq!(m.total_operations, 2);
    assert_eq!(m.append_count, 1);
    assert_eq!(m.append_errors, 0);
}

#[test]
fn test_htworker_metrics_cas_success() {
    let mut worker = make_test_worker();
    worker.process(&make_zpack(OPC_INSERT, "ck", "old")).response().unwrap();
    let mut req = make_zpack(OPC_CMPSWP, "ck", "old");
    req.newval = b"new".to_vec();
    worker.process(&req).response().unwrap();

    let m = worker.metrics();
    assert_eq!(m.compare_swap_count, 1);
    assert_eq!(m.compare_swap_errors, 0);
}

#[test]
fn test_htworker_metrics_cas_mismatch() {
    let mut worker = make_test_worker();
    worker.process(&make_zpack(OPC_INSERT, "ck", "actual")).response().unwrap();
    let mut req = make_zpack(OPC_CMPSWP, "ck", "wrong");
    req.newval = b"new".to_vec();
    worker.process(&req).response().unwrap();

    let m = worker.metrics();
    assert_eq!(m.compare_swap_count, 1);
    assert_eq!(m.compare_swap_errors, 1);
    assert_eq!(m.total_errors, 1);
}

#[test]
fn test_htworker_metrics_empty_key_errors() {
    let mut worker = make_test_worker();

    // Empty key on various opcodes should increment per-opcode error counters
    worker.process(&make_zpack(OPC_INSERT, "", "v")).response().unwrap();
    worker.process(&make_zpack(OPC_LOOKUP, "", "")).response().unwrap();
    worker.process(&make_zpack(OPC_REMOVE, "", "")).response().unwrap();
    worker.process(&make_zpack(OPC_APPEND, "", "v")).response().unwrap();
    worker.process(&make_zpack(OPC_CMPSWP, "", "v")).response().unwrap();

    let m = worker.metrics();
    assert_eq!(m.total_operations, 5);
    assert_eq!(m.total_errors, 5);
    assert_eq!(m.insert_errors, 1);
    assert_eq!(m.lookup_errors, 1);
    assert_eq!(m.remove_errors, 1);
    assert_eq!(m.append_errors, 1);
    assert_eq!(m.compare_swap_errors, 1);
}

#[test]
fn test_htworker_metrics_unrecognized_opcode() {
    let mut worker = make_test_worker();
    worker.process(&make_zpack("999", "key", "val")).response().unwrap();

    let m = worker.metrics();
    assert_eq!(m.total_operations, 1);
    assert_eq!(m.unrecognized_count, 1);
    assert_eq!(m.total_errors, 1);
}

#[test]
fn test_htworker_metrics_total_comprehensive() {
    let mut worker = make_test_worker();

    // 2 inserts, 1 lookup, 1 remove, 1 unrecognized = 5 total
    worker.process(&make_zpack(OPC_INSERT, "tk1", "tv1")).response().unwrap();
    worker.process(&make_zpack(OPC_INSERT, "tk2", "tv2")).response().unwrap();
    worker.process(&make_zpack(OPC_LOOKUP, "tk1", "")).response().unwrap();
    worker.process(&make_zpack(OPC_REMOVE, "tk2", "")).response().unwrap();
    worker.process(&make_zpack("777", "tk1", "")).response().unwrap();

    let m = worker.metrics();
    assert_eq!(m.total_operations, 5);
    assert_eq!(m.insert_count, 2);
    assert_eq!(m.lookup_count, 1);
    assert_eq!(m.remove_count, 1);
    assert_eq!(m.unrecognized_count, 1);
    assert_eq!(m.total_errors, 1); // only the unrecognized opcode
}

#[test]
fn test_is_connection_broken_error_broken_pipe() {
    let err = ZhtError::SendFailed("Broken pipe".to_string());
    assert!(is_connection_broken_error(&err));

    let err = ZhtError::RecvFailed("broken pipe (os error 32)".to_string());
    assert!(is_connection_broken_error(&err));
}

#[test]
fn test_is_connection_broken_error_connection_reset() {
    let err = ZhtError::SendFailed("Connection reset by peer".to_string());
    assert!(is_connection_broken_error(&err));
}

#[test]
fn test_is_connection_broken_error_unexpected_eof() {
    let err = ZhtError::RecvFailed("unexpected eof".to_string());
    assert!(is_connection_broken_error(&err));
}

#[test]
fn test_is_connection_broken_error_not_broken() {
    let err = ZhtError::SendFailed("some other error".to_string());
    assert!(!is_connection_broken_error(&err));

    let err = ZhtError::ConnectionFailed {
        host: "localhost".to_string(),
        port: 1234,
        reason: "Connection refused".to_string(),
    };
    assert!(!is_connection_broken_error(&err));

    let err = ZhtError::ProtobufDecodeError("bad data".to_string());
    assert!(!is_connection_broken_error(&err));
}
