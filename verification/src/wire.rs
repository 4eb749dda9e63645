//! The protobuf wire format, as far as the messages of this crate use it:
//! varints, field keys, and fields of bytes and of booleans.
//!
//! The functions that write and read these are those of `prost`.

use prost::encoding::{DecodeContext, WireType};
use prost::DecodeError;
use vstd::prelude::*;

verus! {

// ── Varints ─────────────────────────────────────────────────────────────

/// A number in groups of seven bits, the lowest first; all bytes but the last
/// have the high bit set.
pub open spec fn varint(n: nat) -> Seq<u8>
    decreases n,
{
    if n < 128 {
        seq![n as u8]
    } else {
        seq![(n % 128 + 128) as u8] + varint(n / 128)
    }
}

/// The number that `s` begins with, after `seen` bytes of it were read, and
/// the count of bytes that it takes. A number takes ten bytes at most and fits
/// in 64 bits.
pub open spec fn varint_tail(s: Seq<u8>, seen: nat) -> Option<(nat, nat)>
    decreases s.len(),
{
    if seen >= 10 || s.len() == 0 {
        None
    } else if s[0] < 128 {
        if seen == 9 && s[0] >= 2 {
            None
        } else {
            Some((s[0] as nat, 1))
        }
    } else {
        match varint_tail(s.skip(1), seen + 1) {
            Some((high, n)) => Some(((s[0] - 128 + 128 * high) as nat, n + 1)),
            None => None,
        }
    }
}

/// The number that `s` begins with and the count of bytes that it takes.
pub open spec fn varint_prefix(s: Seq<u8>) -> Option<(nat, nat)> {
    varint_tail(s, 0)
}

/// One more than the largest number that one byte of at most one and `more`
/// groups of seven bits below it can hold.
spec fn room(more: nat) -> nat
    decreases more,
{
    if more == 0 {
        2
    } else {
        128 * room((more - 1) as nat)
    }
}

proof fn lemma_varint_tail(n: nat, rest: Seq<u8>, seen: nat)
    requires
        seen < 10,
        n < room((9 - seen) as nat),
    ensures
        varint_tail(varint(n) + rest, seen) == Some((n, varint(n).len())),
    decreases n,
{
    let s = varint(n) + rest;
    if n >= 128 {
        lemma_varint_tail(n / 128, rest, seen + 1);
        assert(s.skip(1) =~= varint(n / 128) + rest);
    }
}

/// Reading a number that was written gives that number back, and leaves what
/// follows it.
pub proof fn law_varint_round_trip(n: nat, rest: Seq<u8>)
    requires
        n <= u64::MAX,
    ensures
        varint_prefix(varint(n) + rest) == Some((n, varint(n).len())),
{
    assert(room(9) == 0x1_0000_0000_0000_0000) by {
        reveal_with_fuel(room, 10);
    }
    lemma_varint_tail(n, rest, 0);
}

/// A number that is read takes at least one byte and no more than are there.
pub proof fn lemma_varint_len(s: Seq<u8>, seen: nat)
    ensures
        varint_tail(s, seen) matches Some((v, n)) ==> 0 < n <= s.len(),
    decreases s.len(),
{
    if s.len() > 0 {
        lemma_varint_len(s.skip(1), seen + 1);
    }
}

/// A number below `2^7`, `2^14` and so on takes one byte, two bytes and so on.
pub proof fn lemma_varint_short(n: nat)
    ensures
        varint(n).len() >= 1,
        n < 128 ==> varint(n).len() == 1,
        n <= u64::MAX ==> varint(n).len() <= 10,
{
    reveal_with_fuel(varint, 11);
}

// ── Fields ──────────────────────────────────────────────────────────────

/// The wire type of a varint.
pub const WIRE_VARINT: u8 = 0;

/// The wire type of a length-delimited field.
pub const WIRE_BYTES: u8 = 2;

/// The largest field number.
pub const MAX_TAG: u32 = 536_870_911;

/// The key that a field begins with: its number and wire type.
pub open spec fn field_key(tag: nat, wire: nat) -> Seq<u8> {
    varint(tag * 8 + wire)
}

/// A field of bytes: its key, the count of bytes, and the bytes.
pub open spec fn bytes_field(tag: nat, value: Seq<u8>) -> Seq<u8> {
    field_key(tag, WIRE_BYTES as nat) + varint(value.len()) + value
}

/// A boolean field: its key, and one for `true` or zero for `false`.
pub open spec fn bool_field(tag: nat, value: bool) -> Seq<u8> {
    field_key(tag, WIRE_VARINT as nat) + varint(if value { 1 } else { 0 })
}

/// The field number and wire type of the key that `s` begins with, and the
/// count of bytes that it takes.
pub open spec fn key_prefix(s: Seq<u8>) -> Option<(nat, nat, nat)> {
    match varint_prefix(s) {
        Some((key, n)) => if key <= u32::MAX && key % 8 <= 5 && key / 8 >= 1 {
            Some((key / 8, key % 8, n))
        } else {
            None
        },
        None => None,
    }
}

/// The bytes that a length-delimited value at the start of `s` holds, and the
/// count of bytes that the value takes with its length.
pub open spec fn bytes_prefix(s: Seq<u8>) -> Option<(Seq<u8>, nat)> {
    match varint_prefix(s) {
        Some((len, n)) => if n + len <= s.len() {
            Some((s.subrange(n as int, (n + len) as int), n + len))
        } else {
            None
        },
        None => None,
    }
}

/// How deep a value that is passed over may lie: groups may stand in groups up
/// to this depth, the outermost value included.
pub const MAX_DEPTH: u32 = 100;

/// The count of bytes that a value of the given wire type and field number
/// takes at the start of `s`, if it is well-formed: a varint, eight bytes, a
/// length and that many bytes, a group, or four bytes. `depth` is how deep it
/// may still go.
pub open spec fn skipped(wire: nat, tag: nat, s: Seq<u8>, depth: nat) -> Option<nat>
    decreases depth, s.len(), 1nat,
{
    if depth == 0 {
        None
    } else if wire == 0 {
        match varint_prefix(s) {
            Some((v, n)) => Some(n),
            None => None,
        }
    } else if wire == 1 {
        if s.len() >= 8 { Some(8) } else { None }
    } else if wire == 2 {
        match bytes_prefix(s) {
            Some((v, n)) => Some(n),
            None => None,
        }
    } else if wire == 3 {
        group_rest(tag, s, depth)
    } else if wire == 5 {
        if s.len() >= 4 { Some(4) } else { None }
    } else {
        None
    }
}

/// The count of bytes up to and with the key that ends the group `tag`, whose
/// fields `s` begins with.
pub open spec fn group_rest(tag: nat, s: Seq<u8>, depth: nat) -> Option<nat>
    decreases depth, s.len(), 0nat,
{
    match key_prefix(s) {
        Some((inner, wire, n)) => if wire == 4 {
            if inner == tag { Some(n) } else { None }
        } else if depth == 0 {
            None
        } else {
            match skipped(wire, inner, s.skip(n as int), (depth - 1) as nat) {
                Some(m) => if 0 < n && n + m <= s.len() {
                    match group_rest(tag, s.skip((n + m) as int), depth) {
                        Some(rest) => Some(n + m + rest),
                        None => None,
                    }
                } else {
                    None
                },
                None => None,
            }
        },
        None => None,
    }
}

/// No value reaches beyond the bytes that are there.
pub proof fn lemma_skipped_len(wire: nat, tag: nat, s: Seq<u8>, depth: nat)
    ensures
        skipped(wire, tag, s, depth) matches Some(n) ==> n <= s.len(),
{
    lemma_varint_len(s, 0);
    lemma_group_len(tag, s, depth);
}

proof fn lemma_group_len(tag: nat, s: Seq<u8>, depth: nat)
    ensures
        group_rest(tag, s, depth) matches Some(n) ==> n <= s.len(),
    decreases s.len(),
{
    lemma_varint_len(s, 0);
    match key_prefix(s) {
        Some((inner, wire, n)) => {
            if wire != 4 && depth > 0 {
                match skipped(wire, inner, s.skip(n as int), (depth - 1) as nat) {
                    Some(m) => {
                        if n + m <= s.len() {
                            lemma_group_len(tag, s.skip((n + m) as int), depth);
                        }
                    },
                    None => {},
                }
            }
        },
        None => {},
    }
}

/// `prost`'s error for bytes that are not a well-formed message.
#[verifier::external_type_specification]
#[verifier::external_body]
pub struct ExDecodeError(DecodeError);

/// `prost::encoding::bytes::encode` appends the key, the length and the bytes.
#[verifier::external_body]
pub(crate) fn put_bytes(tag: u32, value: &Vec<u8>, buf: &mut Vec<u8>)
    requires
        1 <= tag <= MAX_TAG,
    ensures
        final(buf)@ == old(buf)@ + bytes_field(tag as nat, value@),
{
    prost::encoding::bytes::encode(tag, value, buf)
}

/// `prost::encoding::bool::encode` appends the key and a varint of one or zero.
#[verifier::external_body]
pub(crate) fn put_bool(tag: u32, value: bool, buf: &mut Vec<u8>)
    requires
        1 <= tag <= MAX_TAG,
    ensures
        final(buf)@ == old(buf)@ + bool_field(tag as nat, value),
{
    prost::encoding::bool::encode(tag, &value, buf)
}

/// `prost::encoding::bytes::encoded_len` is the count of bytes that
/// `prost::encoding::bytes::encode` appends. A `Vec` holds `isize::MAX` bytes
/// at most, so that the count fits.
#[verifier::external_body]
pub(crate) fn bytes_len(tag: u32, value: &Vec<u8>) -> (r: usize)
    requires
        1 <= tag <= MAX_TAG,
    ensures
        r == bytes_field(tag as nat, value@).len(),
{
    prost::encoding::bytes::encoded_len(tag, value)
}

/// `prost::encoding::bool::encoded_len` is the count of bytes that
/// `prost::encoding::bool::encode` appends.
#[verifier::external_body]
pub(crate) fn bool_len(tag: u32, value: bool) -> (r: usize)
    requires
        1 <= tag <= MAX_TAG,
    ensures
        r == bool_field(tag as nat, value).len(),
{
    prost::encoding::bool::encoded_len(tag, &value)
}

/// `prost::encoding::decode_key` reads a varint of at most ten bytes and splits
/// it into field number and wire type. It refuses a number over 32 bits, a
/// wire type above five and the field number zero.
#[verifier::external_body]
pub(crate) fn take_key(buf: &[u8]) -> (r: Result<(u32, u8, &[u8]), DecodeError>)
    ensures
        match r {
            Ok((tag, wire, rest)) => key_prefix(buf@) matches Some((t, w, n)) && t == tag && w
                == wire && rest@ == buf@.skip(n as int),
            Err(_) => key_prefix(buf@) is None,
        },
{
    let mut rest: &[u8] = buf;
    let (tag, wire) = prost::encoding::decode_key(&mut rest)?;
    Ok((tag, wire as u8, rest))
}

/// `prost::encoding::bytes::merge` reads a length and that many bytes. It
/// refuses a wire type that is not length-delimited and a length beyond the
/// end.
#[verifier::external_body]
pub(crate) fn take_bytes(wire: u8, buf: &[u8]) -> (r: Result<(Vec<u8>, &[u8]), DecodeError>)
    ensures
        match r {
            Ok((value, rest)) => {
                &&& wire == WIRE_BYTES
                &&& bytes_prefix(buf@) matches Some((v, n))
                &&& v == value@
                &&& rest@ == buf@.skip(n as int)
            },
            Err(_) => wire != WIRE_BYTES || bytes_prefix(buf@) is None,
        },
{
    let mut rest: &[u8] = buf;
    let mut value: Vec<u8> = Vec::new();
    let wire = WireType::try_from(u64::from(wire))?;
    prost::encoding::bytes::merge(wire, &mut value, &mut rest, DecodeContext::default())?;
    Ok((value, rest))
}

/// `prost::encoding::bool::merge` reads a varint, which is `true` unless it is
/// zero. It refuses a wire type other than varint.
#[verifier::external_body]
pub(crate) fn take_bool(wire: u8, buf: &[u8]) -> (r: Result<(bool, &[u8]), DecodeError>)
    ensures
        match r {
            Ok((value, rest)) => {
                &&& wire == WIRE_VARINT
                &&& varint_prefix(buf@) matches Some((v, n))
                &&& value == (v != 0)
                &&& rest@ == buf@.skip(n as int)
            },
            Err(_) => wire != WIRE_VARINT || varint_prefix(buf@) is None,
        },
{
    let mut rest: &[u8] = buf;
    let mut value: bool = false;
    let wire = WireType::try_from(u64::from(wire))?;
    prost::encoding::bool::merge(wire, &mut value, &mut rest, DecodeContext::default())?;
    Ok((value, rest))
}

/// `prost::encoding::skip_field` passes over a value by its wire type: a
/// varint, eight bytes, a length and that many bytes, four bytes, or the fields
/// of a group up to its end. It refuses an end without its group, a group that
/// does not end, or that ends under another number, and one beyond its
/// recursion limit.
#[verifier::external_body]
pub(crate) fn skip_value(wire: u8, tag: u32, buf: &[u8]) -> (r: Result<&[u8], DecodeError>)
    requires
        wire <= 5,
    ensures
        match r {
            Ok(rest) => skipped(wire as nat, tag as nat, buf@, MAX_DEPTH as nat) matches Some(n)
                && rest@ == buf@.skip(n as int),
            Err(_) => skipped(wire as nat, tag as nat, buf@, MAX_DEPTH as nat) is None,
        },
{
    let mut rest: &[u8] = buf;
    let wire = WireType::try_from(u64::from(wire))?;
    prost::encoding::skip_field(wire, tag, &mut rest, DecodeContext::default())?;
    Ok(rest)
}

/// `DecodeError::push` notes the message and the field in which an error came
/// up. The words of an error are for a reader only, and nothing is claimed of
/// them.
#[verifier::external_body]
pub(crate) fn in_field(error: DecodeError, message: &'static str, field: &'static str) -> DecodeError {
    let mut error = error;
    error.push(message, field);
    error
}

/// The words of an error, as its `to_string` gives them. `prost` describes
/// them as best effort, so nothing is claimed of them.
#[verifier::external_body]
pub(crate) fn error_words(error: &DecodeError) -> String {
    error.to_string()
}

// ── What is written can be read ─────────────────────────────────────────

/// A field key that was written is read back.
pub proof fn lemma_key_round_trip(tag: nat, wire: nat, rest: Seq<u8>)
    requires
        1 <= tag <= MAX_TAG,
        wire <= 5,
    ensures
        key_prefix(field_key(tag, wire) + rest) == Some((tag, wire, field_key(tag, wire).len())),
{
    law_varint_round_trip(tag * 8 + wire, rest);
}

/// Bytes that were written with their length are read back.
pub proof fn lemma_bytes_round_trip(value: Seq<u8>, rest: Seq<u8>)
    requires
        value.len() <= u64::MAX,
    ensures
        bytes_prefix(varint(value.len()) + value + rest) == Some(
            (value, varint(value.len()).len() + value.len()),
        ),
{
    let s = varint(value.len()) + value + rest;
    assert(s =~= varint(value.len()) + (value + rest));
    law_varint_round_trip(value.len(), value + rest);
    let n = varint(value.len()).len();
    assert(s.subrange(n as int, (n + value.len()) as int) =~= value);
}

/// A varint is the low seven bits with the high bit set, and then the varint of the
/// rest, or one byte where seven bits are enough.
pub proof fn law_varint_groups(n: nat, low: nat)
    requires
        low < 128,
    ensures
        varint(low) == seq![low as u8],
        n > 0 ==> varint(n * 128 + low) == seq![(low + 128) as u8] + varint(n),
{
    if n > 0 {
        assert((n * 128 + low) / 128 == n && (n * 128 + low) % 128 == low);
    }
}

/// A field of bytes is its number times eight and two, the count of bytes, and the
/// bytes; a flag is its number times eight and a one or a zero.
pub proof fn law_field_format(tag: nat, value: Seq<u8>)
    requires
        1 <= tag < 16,
    ensures
        bytes_field(tag, value) == seq![(tag * 8 + 2) as u8] + varint(value.len()) + value,
        bool_field(tag, true) == seq![(tag * 8) as u8, 1u8],
        bool_field(tag, false) == seq![(tag * 8) as u8, 0u8],
{
    assert(field_key(tag, 2) =~= seq![(tag * 8 + 2) as u8]);
    assert(field_key(tag, 0) =~= seq![(tag * 8) as u8]);
    assert(bool_field(tag, true) =~= seq![(tag * 8) as u8, 1u8]);
    assert(bool_field(tag, false) =~= seq![(tag * 8) as u8, 0u8]);
}

/// What is passed over: a varint, eight bytes, a length and so many bytes, and four
/// bytes, each as far as it is there; the end of a group alone is not.
pub proof fn law_skipped_values(tag: nat, s: Seq<u8>, depth: nat, n: nat, value: Seq<u8>, rest: Seq<u8>)
    requires
        depth > 0,
        n <= u64::MAX,
        value.len() <= u64::MAX,
    ensures
        skipped(0, tag, varint(n) + rest, depth) == Some(varint(n).len()),
        skipped(1, tag, s, depth) == (if s.len() >= 8 { Some(8nat) } else { None }),
        skipped(2, tag, varint(value.len()) + value + rest, depth) == Some(
            varint(value.len()).len() + value.len(),
        ),
        skipped(4, tag, s, depth) is None,
        skipped(5, tag, s, depth) == (if s.len() >= 4 { Some(4nat) } else { None }),
        skipped(3, tag, s, 0) is None,
{
    law_varint_round_trip(n, rest);
    lemma_bytes_round_trip(value, rest);
}

/// A group is passed over with the fields in it, up to the end with its number.
pub proof fn law_skipped_group(tag: nat, n: nat, inner: nat, depth: nat, rest: Seq<u8>)
    requires
        1 <= tag <= MAX_TAG,
        1 <= inner <= MAX_TAG,
        n <= u64::MAX,
        depth > 1,
    ensures
        ({
            let end = field_key(tag, 4);
            let field = field_key(inner, 0) + varint(n);
            &&& skipped(3, tag, end + rest, depth) == Some(end.len())
            &&& skipped(3, tag, field + (end + rest), depth) == Some(field.len() + end.len())
            &&& inner != tag ==> skipped(3, tag, field_key(inner, 4) + rest, depth) is None
        }),
{
    let end = field_key(tag, 4);
    let key = field_key(inner, 0);
    let field = key + varint(n);
    lemma_key_round_trip(tag, 4, rest);
    lemma_key_round_trip(inner, 4, rest);
    let s = field + (end + rest);
    let after = varint(n) + (end + rest);
    assert(s =~= key + after);
    lemma_key_round_trip(inner, 0, after);
    law_varint_round_trip(n, end + rest);
    lemma_varint_short(inner * 8);
    assert(s.skip(key.len() as int) =~= after);
    assert(s.skip((key.len() + varint(n).len()) as int) =~= end + rest);
    assert(skipped(0, inner, after, (depth - 1) as nat) == Some(varint(n).len()));
    assert(group_rest(tag, end + rest, depth) == Some(end.len()));
}

} // verus!
