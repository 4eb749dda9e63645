//! Message framing.
//!
//! All messages are transmitted with a 4-byte big-endian length prefix
//! followed by the encoded `ZPack`:
//!
//! ```text
//! [4 bytes: u32 message length (BE)] [N bytes: serialized ZPack protobuf]
//! ```

use crate::error::{ErrorView, ZhtError, ZhtResult};
use crate::number::{decimal, decimal_of};
use crate::text::join4;
use crate::wire::error_words;
use crate::zpack::{
    is_sendable, law_zpack_round_trip, lemma_encoding_first, zpack_bytes, zpack_of, ZPack, ZPackView,
};
use vstd::prelude::*;
use vstd::slice::slice_subrange;

verus! {

/// The length of the prefix.
pub const FRAME_PREFIX: usize = 4;

/// A number below 2 to the 32 in four bytes, the highest first.
pub open spec fn be32(n: nat) -> Seq<u8> {
    seq![
        (n / 0x100_0000 % 0x100) as u8,
        (n / 0x1_0000 % 0x100) as u8,
        (n / 0x100 % 0x100) as u8,
        (n % 0x100) as u8,
    ]
}

/// The number that the first four bytes of `s` are, the highest first.
pub open spec fn be32_value(s: Seq<u8>) -> nat {
    (s[0] as nat) * 0x100_0000 + (s[1] as nat) * 0x1_0000 + (s[2] as nat) * 0x100 + s[3] as nat
}

/// The frame of a payload: its length modulo 2 to the 32, then the payload.
pub open spec fn frame(payload: Seq<u8>) -> Seq<u8> {
    be32(payload.len() % 0x1_0000_0000) + payload
}

/// The payload of the frame that `s` begins with.
pub open spec fn framed_payload(s: Seq<u8>) -> Seq<u8> {
    s.subrange(4, 4 + be32_value(s) as int)
}

/// The message of the frame that `s` begins with, if it is all there and
/// well-formed.
pub open spec fn message_of(s: Seq<u8>) -> Option<ZPackView> {
    if s.len() >= 4 && s.len() >= 4 + be32_value(s) {
        zpack_of(framed_payload(s))
    } else {
        None
    }
}

/// The message of the error for a frame that is longer than what is there.
pub open spec fn incomplete_text(expected: nat, got: nat) -> Seq<char> {
    "Incomplete message: expected "@ + decimal(expected) + " bytes, got "@ + decimal(got)
}

/// Whether an error is the one for bytes that begin with no message: they are
/// too short for the prefix, or for the frame that it announces, or the payload
/// is not well-formed.
pub open spec fn is_message_error(s: Seq<u8>, e: ErrorView) -> bool {
    if s.len() < 4 {
        e == ErrorView::RecvFailed("Message too short: need at least 4 bytes for length prefix"@)
    } else if s.len() < 4 + be32_value(s) {
        e == ErrorView::RecvFailed(incomplete_text(4 + be32_value(s), s.len()))
    } else {
        zpack_of(framed_payload(s)) is None && e is ProtobufDecodeError
    }
}

/// The bytes of the length prefix for a payload of `len` bytes.
pub fn length_prefix(len: u32) -> (r: [u8; 4])
    ensures
        r@ == be32(len as nat),
{
    let r = [
        (len / 0x100_0000) as u8,
        (len / 0x1_0000 % 0x100) as u8,
        (len / 0x100 % 0x100) as u8,
        (len % 0x100) as u8,
    ];
    assert(r@ =~= be32(len as nat));
    r
}

/// The payload length that a length prefix gives.
pub fn prefix_length(prefix: &[u8]) -> (r: u32)
    requires
        prefix@.len() >= 4,
    ensures
        r == be32_value(prefix@),
{
    prefix[0] as u32 * 0x100_0000 + prefix[1] as u32 * 0x1_0000 + prefix[2] as u32 * 0x100
        + prefix[3] as u32
}

/// Encode a `ZPack` message with a 4-byte big-endian length prefix.
///
/// Returns the complete frame ready for network transmission.
pub fn encode_message(zpack: &ZPack) -> (r: Vec<u8>)
    ensures
        r@ == frame(zpack_bytes(zpack@)),
{
    let mut msg_bytes = zpack.encode_to_vec();
    let len: u32 = (msg_bytes.len() as u64 % 0x1_0000_0000) as u32;
    let prefix = length_prefix(len);
    let mut buf: Vec<u8> = Vec::new();
    buf.push(prefix[0]);
    buf.push(prefix[1]);
    buf.push(prefix[2]);
    buf.push(prefix[3]);
    assert(buf@ =~= be32(len as nat));
    buf.append(&mut msg_bytes);
    buf
}

/// The length of the frame of a message, as a 64-bit counter takes it.
pub open spec fn counted_len(z: ZPackView) -> u64 {
    (frame(zpack_bytes(z)).len() % 0x1_0000_0000_0000_0000) as u64
}

/// The length of the frame of a message, as a 64-bit counter takes it.
pub fn frame_len(zpack: &ZPack) -> (r: u64)
    ensures
        r == counted_len(zpack@),
{
    zpack.counted_len().wrapping_add(4)
}

/// Decode the payload of a frame.
pub fn decode_payload(payload: &[u8]) -> (r: ZhtResult<ZPack>)
    ensures
        r is Ok <==> zpack_of(payload@) is Some,
        r matches Ok(z) ==> zpack_of(payload@) == Some(z@),
        r matches Err(e) ==> e is ProtobufDecodeError,
{
    match ZPack::decode(payload) {
        Ok(z) => Ok(z),
        Err(e) => Err(ZhtError::ProtobufDecodeError(error_words(&e))),
    }
}

/// Decode a length-prefixed `ZPack` message from a buffer.
///
/// Returns `(decoded ZPack, remaining bytes)` on success. The error is
/// `RecvFailed` where the buffer is too short (< 4 bytes) or the message is
/// incomplete, and `ProtobufDecodeError` where the payload cannot be decoded.
pub fn decode_message(buf: &[u8]) -> (r: ZhtResult<(ZPack, &[u8])>)
    ensures
        r is Ok <==> message_of(buf@) is Some,
        match r {
            Ok((z, rest)) => {
                &&& message_of(buf@) == Some(z@)
                &&& rest@ == buf@.skip(4 + be32_value(buf@) as int)
            },
            Err(e) => is_message_error(buf@, e@),
        },
{
    if buf.len() < 4 {
        return Err(
            ZhtError::RecvFailed(
                "Message too short: need at least 4 bytes for length prefix".to_owned(),
            ),
        );
    }
    let len: u32 = prefix_length(buf);
    let got: u64 = buf.len() as u64;
    let expected: u64 = 4 + len as u64;
    if got < expected {
        return Err(
            ZhtError::RecvFailed(
                join4(
                    "Incomplete message: expected ",
                    &decimal_of(expected),
                    " bytes, got ",
                    &decimal_of(got),
                ),
            ),
        );
    }
    let end: usize = expected as usize;
    let payload = slice_subrange(buf, 4, end);
    match decode_payload(payload) {
        Ok(z) => {
            let rest = slice_subrange(buf, end, buf.len());
            assert(rest@ =~= buf@.skip(4 + be32_value(buf@) as int));
            Ok((z, rest))
        },
        Err(e) => Err(e),
    }
}

/// A length that was written is read back, whatever follows it.
pub proof fn law_length_round_trip(n: nat, rest: Seq<u8>)
    requires
        n < 0x1_0000_0000,
    ensures
        be32_value(be32(n) + rest) == n,
{
    let s = be32(n) + rest;
    assert(s[0] == be32(n)[0] && s[1] == be32(n)[1] && s[2] == be32(n)[2] && s[3] == be32(n)[3]);
}

/// Taking the payload out of a frame gives that payload back and leaves what
/// follows the frame. The length of the payload has to fit in the prefix.
pub proof fn law_frame_round_trip(payload: Seq<u8>, rest: Seq<u8>)
    requires
        payload.len() < 0x1_0000_0000,
    ensures
        ({
            let s = frame(payload) + rest;
            &&& be32_value(s) == payload.len()
            &&& s.len() == 4 + payload.len() + rest.len()
            &&& framed_payload(s) == payload
            &&& s.skip(4 + be32_value(s) as int) == rest
        }),
{
    let s = frame(payload) + rest;
    assert(s =~= be32(payload.len()) + (payload + rest));
    law_length_round_trip(payload.len(), payload + rest);
    assert(framed_payload(s) =~= payload);
    assert(s.skip(4 + payload.len() as int) =~= rest);
}

/// Decoding an encoded message gives that message back and leaves what
/// follows it, so that messages can stand one behind the other. The length of
/// the payload has to fit in the prefix.
pub proof fn law_message_round_trip(z: ZPackView, rest: Seq<u8>)
    requires
        is_sendable(z),
        zpack_bytes(z).len() < 0x1_0000_0000,
    ensures
        ({
            let s = frame(zpack_bytes(z)) + rest;
            &&& s.len() >= 4 + be32_value(s)
            &&& message_of(s) == Some(z)
            &&& s.skip(4 + be32_value(s) as int) == rest
        }),
{
    law_frame_round_trip(zpack_bytes(z), rest);
    law_zpack_round_trip(z);
}

/// Bytes whose first one announces a longer frame than is there hold none.
pub proof fn lemma_no_frame(s: Seq<u8>)
    requires
        s.len() > 0 ==> s.len() < 4 + s[0] * 0x100_0000,
    ensures
        message_of(s) is None,
{
}

/// The encoding of a message, as long as it has fewer than some 160 million
/// bytes, is never taken for a frame.
pub proof fn law_encoding_is_no_frame(z: ZPackView)
    requires
        zpack_bytes(z).len() < 4 + 10 * 0x100_0000,
    ensures
        message_of(zpack_bytes(z)) is None,
{
    lemma_encoding_first(z);
    lemma_no_frame(zpack_bytes(z));
}

/// A frame is the length of the payload in four bytes, the highest first and what
/// goes beyond them left out, and the payload; its length counts both.
pub proof fn law_frame_layout(payload: Seq<u8>, z: ZPackView)
    ensures
        frame(payload).len() == 4 + payload.len(),
        frame(payload).skip(4) == payload,
        frame(payload)[0] * 0x100_0000 + frame(payload)[1] * 0x1_0000 + frame(payload)[2] * 0x100
            + frame(payload)[3] == payload.len() % 0x1_0000_0000,
        counted_len(z) == (4 + zpack_bytes(z).len()) % 0x1_0000_0000_0000_0000,
{
    assert(frame(payload).skip(4) =~= payload);
    law_length_round_trip(payload.len() % 0x1_0000_0000, payload);
}

/// Bytes begin with a message exactly where the four bytes of a length are there,
/// and so many bytes behind them, and these are a message. Otherwise the error says
/// what is missing.
pub proof fn law_message_needs_whole_frame(s: Seq<u8>, e: ErrorView)
    ensures
        s.len() < 4 ==> message_of(s) is None,
        s.len() >= 4 ==> {
            let n = s[0] * 0x100_0000 + s[1] * 0x1_0000 + s[2] * 0x100 + s[3];
            &&& s.len() < 4 + n ==> message_of(s) is None
            &&& s.len() >= 4 + n ==> message_of(s) == zpack_of(s.subrange(4, 4 + n))
            &&& s.len() < 4 + n && is_message_error(s, e) ==> e == ErrorView::RecvFailed(
                "Incomplete message: expected "@ + decimal((4 + n) as nat) + " bytes, got "@ + decimal(
                    s.len(),
                ),
            )
            &&& s.len() >= 4 + n && is_message_error(s, e) ==> e is ProtobufDecodeError
                && message_of(s) is None
        },
        s.len() < 4 && is_message_error(s, e) ==> e == ErrorView::RecvFailed(
            "Message too short: need at least 4 bytes for length prefix"@,
        ),
{
}

} // verus!
