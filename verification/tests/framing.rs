use zht::constants::{OPC_INSERT, OPC_LOOKUP};
use zht::framing::{decode_message, encode_message};
use zht::zpack::ZPack;

#[test]
fn framing_test_encode_decode_roundtrip() {
    let mut original = ZPack::default();
    original.opcode = OPC_INSERT.as_bytes().to_vec();
    original.key = b"test_key".to_vec();
    original.val = b"test_value".to_vec();

    let encoded = encode_message(&original);
    assert!(encoded.len() > 4, "Encoded message should have length prefix");

    let len_prefix = u32::from_be_bytes([encoded[0], encoded[1], encoded[2], encoded[3]]);
    assert_eq!(len_prefix as usize, encoded.len() - 4);

    let (decoded, remaining) = decode_message(&encoded).unwrap();
    assert!(remaining.is_empty());
    assert_eq!(decoded.opcode, original.opcode);
    assert_eq!(decoded.key, original.key);
    assert_eq!(decoded.val, original.val);
}

#[test]
fn framing_test_decode_empty_buffer() {
    let result = decode_message(&[]);
    assert!(result.is_err());
    assert!(result.unwrap_err().to_string().contains("too short"));
}

#[test]
fn framing_test_decode_too_short_for_length() {
    let buf = [0u8; 3];
    let result = decode_message(&buf);
    assert!(result.is_err());
}

#[test]
fn framing_test_decode_incomplete_message() {
    let mut buf = Vec::new();
    buf.extend_from_slice(&100u32.to_be_bytes());
    buf.extend_from_slice(&[0u8; 6]);
    let result = decode_message(&buf);
    assert!(result.is_err());
    assert!(result.unwrap_err().to_string().contains("Incomplete"));
}

#[test]
fn framing_test_decode_multiple_messages() {
    let msg1 = {
        let mut z = ZPack::default();
        z.opcode = OPC_INSERT.as_bytes().to_vec();
        z.key = b"key1".to_vec();
        z.val = b"val1".to_vec();
        z
    };
    let msg2 = {
        let mut z = ZPack::default();
        z.opcode = OPC_LOOKUP.as_bytes().to_vec();
        z.key = b"key2".to_vec();
        z
    };

    let mut buf = Vec::new();
    buf.extend(encode_message(&msg1));
    buf.extend(encode_message(&msg2));

    let (decoded1, remaining) = decode_message(&buf).unwrap();
    assert_eq!(decoded1.opcode, msg1.opcode);
    assert_eq!(decoded1.key, msg1.key);

    let (decoded2, remaining) = decode_message(remaining).unwrap();
    assert_eq!(decoded2.opcode, msg2.opcode);
    assert_eq!(decoded2.key, msg2.key);
    assert!(remaining.is_empty());
}
