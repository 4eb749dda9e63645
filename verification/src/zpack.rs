//! `ZPack`, the message that clients and servers exchange.
//!
//! ```text
//! message ZPack {
//!     bytes opcode = 1;
//!     bytes key = 2;
//!     bytes val = 3;
//!     bytes newval = 4;
//!     bytes lease = 5;
//!     bool valnull = 6;
//! }
//! ```

use crate::text::{copy_bytes, same_bytes};
use crate::wire::{
    bool_field, bool_len, bytes_field, bytes_len, bytes_prefix, field_key, in_field, key_prefix,
    law_field_format,
    lemma_bytes_round_trip, lemma_key_round_trip, lemma_skipped_len, lemma_varint_len,
    lemma_varint_short, law_varint_round_trip, put_bool, put_bytes, skip_value, skipped, take_bool,
    take_bytes, take_key, varint, varint_prefix, MAX_DEPTH, MAX_TAG, WIRE_BYTES, WIRE_VARINT,
};
use prost::DecodeError;
use vstd::prelude::*;
use vstd::std_specs::cmp::PartialEqSpec;

verus! {

/// A request or a response.
#[derive(Debug)]
pub struct ZPack {
    /// Operation code.
    pub opcode: Vec<u8>,
    /// Key.
    pub key: Vec<u8>,
    /// Value.
    pub val: Vec<u8>,
    /// New value of a compare-and-swap.
    pub newval: Vec<u8>,
    /// Lease of a request; status of a response.
    pub lease: Vec<u8>,
    /// Whether a response has no value.
    pub valnull: bool,
}

/// The mathematical value of a [`ZPack`].
#[verifier::ext_equal]
pub struct ZPackView {
    pub opcode: Seq<u8>,
    pub key: Seq<u8>,
    pub val: Seq<u8>,
    pub newval: Seq<u8>,
    pub lease: Seq<u8>,
    pub valnull: bool,
}

impl View for ZPack {
    type V = ZPackView;

    open spec fn view(&self) -> ZPackView {
        ZPackView {
            opcode: self.opcode@,
            key: self.key@,
            val: self.val@,
            newval: self.newval@,
            lease: self.lease@,
            valnull: self.valnull,
        }
    }
}

/// The message in which no field is set.
pub open spec fn empty_zpack() -> ZPackView {
    ZPackView {
        opcode: Seq::empty(),
        key: Seq::empty(),
        val: Seq::empty(),
        newval: Seq::empty(),
        lease: Seq::empty(),
        valnull: false,
    }
}

/// A field of bytes, which is left out where it is empty.
pub open spec fn optional_bytes(tag: nat, value: Seq<u8>) -> Seq<u8> {
    if value.len() == 0 {
        Seq::empty()
    } else {
        bytes_field(tag, value)
    }
}

/// A boolean field, which is left out where it is `false`.
pub open spec fn optional_bool(tag: nat, value: bool) -> Seq<u8> {
    if value {
        bool_field(tag, value)
    } else {
        Seq::empty()
    }
}

/// The encoding of a message: its fields in the order of their numbers.
pub open spec fn zpack_bytes(z: ZPackView) -> Seq<u8> {
    optional_bytes(1, z.opcode) + optional_bytes(2, z.key) + optional_bytes(3, z.val)
        + optional_bytes(4, z.newval) + optional_bytes(5, z.lease) + optional_bool(6, z.valnull)
}

/// The message with a field of bytes set.
pub open spec fn set_bytes(z: ZPackView, tag: nat, value: Seq<u8>) -> ZPackView {
    if tag == 1 {
        ZPackView { opcode: value, ..z }
    } else if tag == 2 {
        ZPackView { key: value, ..z }
    } else if tag == 3 {
        ZPackView { val: value, ..z }
    } else if tag == 4 {
        ZPackView { newval: value, ..z }
    } else {
        ZPackView { lease: value, ..z }
    }
}

/// What the value of a field at the start of `s` makes of a message, and the
/// count of bytes that the value takes. A field that the message does not
/// have is passed over.
pub open spec fn field_merged(z: ZPackView, tag: nat, wire: nat, s: Seq<u8>) -> Option<
    (ZPackView, nat),
> {
    if 1 <= tag <= 5 {
        match bytes_prefix(s) {
            Some((value, n)) => if wire == WIRE_BYTES {
                Some((set_bytes(z, tag, value), n))
            } else {
                None
            },
            None => None,
        }
    } else if tag == 6 {
        match varint_prefix(s) {
            Some((value, n)) => if wire == WIRE_VARINT {
                Some((ZPackView { valnull: value != 0, ..z }, n))
            } else {
                None
            },
            None => None,
        }
    } else {
        match skipped(wire, tag, s, MAX_DEPTH as nat) {
            Some(n) => Some((z, n)),
            None => None,
        }
    }
}

/// What the fields of `s` make of a message, a later field taking the place
/// of an earlier one.
pub open spec fn fields_merged(z: ZPackView, s: Seq<u8>) -> Option<ZPackView>
    decreases s.len(),
{
    if s.len() == 0 {
        Some(z)
    } else {
        match key_prefix(s) {
            Some((tag, wire, n)) => match field_merged(z, tag, wire, s.skip(n as int)) {
                Some((merged, m)) => if 0 < n && n + m <= s.len() {
                    fields_merged(merged, s.skip((n + m) as int))
                } else {
                    None
                },
                None => None,
            },
            None => None,
        }
    }
}

/// The message that `s` encodes, if it encodes one.
pub open spec fn zpack_of(s: Seq<u8>) -> Option<ZPackView> {
    fields_merged(empty_zpack(), s)
}

proof fn lemma_key_len(s: Seq<u8>)
    ensures
        key_prefix(s) matches Some((t, w, n)) ==> 0 < n <= s.len() && w <= 5 && 1 <= t <= u32::MAX,
{
    lemma_varint_len(s, 0);
}

/// The count of bytes that a field takes, which is left out where it is empty.
fn bytes_count(tag: u32, value: &Vec<u8>) -> (r: u64)
    requires
        1 <= tag <= MAX_TAG,
    ensures
        r == optional_bytes(tag as nat, value@).len(),
{
    if value.len() > 0 {
        bytes_len(tag, value) as u64
    } else {
        0
    }
}

/// A counter that starts again at zero after its largest value counts modulo 2
/// to the 64.
proof fn lemma_counted(n: u64, total: nat, more: u64)
    requires
        n == total % 0x1_0000_0000_0000_0000,
    ensures
        n.wrapping_add(more) == (total + more) % 0x1_0000_0000_0000_0000,
{
    let m: int = 0x1_0000_0000_0000_0000;
    let q: int = total as int / m;
    let k: int = if n + more >= m { 1 } else { 0 };
    assert(total + more == m * (q + k) + n.wrapping_add(more));
    vstd::arithmetic::div_mod::lemma_fundamental_div_mod_converse_mod(
        total + more,
        m,
        q + k,
        n.wrapping_add(more) as int,
    );
}

impl ZPack {
    /// The count of bytes that the encoding takes.
    pub fn encoded_len(&self) -> (r: usize)
        requires
            zpack_bytes(self@).len() <= usize::MAX,
        ensures
            r == zpack_bytes(self@).len(),
    {
        let mut n: usize = 0;
        if self.opcode.len() > 0 {
            n += bytes_len(1, &self.opcode);
        }
        if self.key.len() > 0 {
            n += bytes_len(2, &self.key);
        }
        if self.val.len() > 0 {
            n += bytes_len(3, &self.val);
        }
        if self.newval.len() > 0 {
            n += bytes_len(4, &self.newval);
        }
        if self.lease.len() > 0 {
            n += bytes_len(5, &self.lease);
        }
        if self.valnull {
            n += bool_len(6, self.valnull);
        }
        n
    }

    /// The count of bytes that the encoding takes, as a 64-bit counter takes it.
    pub fn counted_len(&self) -> (r: u64)
        ensures
            r == zpack_bytes(self@).len() % 0x1_0000_0000_0000_0000,
    {
        let a = bytes_count(1, &self.opcode);
        let b = bytes_count(2, &self.key);
        let c = bytes_count(3, &self.val);
        let d = bytes_count(4, &self.newval);
        let e = bytes_count(5, &self.lease);
        let f: u64 = if self.valnull {
            bool_len(6, self.valnull) as u64
        } else {
            0
        };
        proof {
            lemma_counted(a, a as nat, b);
            lemma_counted(a.wrapping_add(b), (a + b) as nat, c);
            lemma_counted(a.wrapping_add(b).wrapping_add(c), (a + b + c) as nat, d);
            lemma_counted(
                a.wrapping_add(b).wrapping_add(c).wrapping_add(d),
                (a + b + c + d) as nat,
                e,
            );
            lemma_counted(
                a.wrapping_add(b).wrapping_add(c).wrapping_add(d).wrapping_add(e),
                (a + b + c + d + e) as nat,
                f,
            );
            assert(zpack_bytes(self@).len() == a + b + c + d + e + f);
        }
        a.wrapping_add(b).wrapping_add(c).wrapping_add(d).wrapping_add(e).wrapping_add(f)
    }

    /// The encoding of the message.
    pub fn encode_to_vec(&self) -> (r: Vec<u8>)
        ensures
            r@ == zpack_bytes(self@),
    {
        let mut buf: Vec<u8> = Vec::new();
        if self.opcode.len() > 0 {
            put_bytes(1, &self.opcode, &mut buf);
        }
        assert(buf@ =~= optional_bytes(1, self.opcode@));
        if self.key.len() > 0 {
            put_bytes(2, &self.key, &mut buf);
        }
        assert(buf@ =~= optional_bytes(1, self.opcode@) + optional_bytes(2, self.key@));
        if self.val.len() > 0 {
            put_bytes(3, &self.val, &mut buf);
        }
        assert(buf@ =~= optional_bytes(1, self.opcode@) + optional_bytes(2, self.key@)
            + optional_bytes(3, self.val@));
        if self.newval.len() > 0 {
            put_bytes(4, &self.newval, &mut buf);
        }
        assert(buf@ =~= optional_bytes(1, self.opcode@) + optional_bytes(2, self.key@)
            + optional_bytes(3, self.val@) + optional_bytes(4, self.newval@));
        if self.lease.len() > 0 {
            put_bytes(5, &self.lease, &mut buf);
        }
        assert(buf@ =~= optional_bytes(1, self.opcode@) + optional_bytes(2, self.key@)
            + optional_bytes(3, self.val@) + optional_bytes(4, self.newval@)
            + optional_bytes(5, self.lease@));
        if self.valnull {
            put_bool(6, self.valnull, &mut buf);
        }
        assert(buf@ =~= zpack_bytes(self@));
        buf
    }

    fn merge_field<'a>(&mut self, tag: u32, wire: u8, buf: &'a [u8]) -> (r: Result<
        &'a [u8],
        DecodeError,
    >)
        requires
            wire <= 5,
            tag >= 1,
        ensures
            match r {
                Ok(rest) => {
                    &&& field_merged(old(self)@, tag as nat, wire as nat, buf@) matches Some((z, n))
                    &&& final(self)@ == z
                    &&& n <= buf@.len()
                    &&& rest@ == buf@.skip(n as int)
                },
                Err(_) => field_merged(old(self)@, tag as nat, wire as nat, buf@) is None,
            },
    {
        proof {
            lemma_varint_len(buf@, 0);
            lemma_skipped_len(wire as nat, tag as nat, buf@, MAX_DEPTH as nat);
        }
        if tag == 6 {
            match take_bool(wire, buf) {
                Ok((value, rest)) => {
                    self.valnull = value;
                    Ok(rest)
                },
                Err(e) => Err(in_field(e, "ZPack", "valnull")),
            }
        } else if tag > 6 {
            skip_value(wire, tag, buf)
        } else {
            match take_bytes(wire, buf) {
                Ok((value, rest)) => {
                    if tag == 1 {
                        self.opcode = value;
                    } else if tag == 2 {
                        self.key = value;
                    } else if tag == 3 {
                        self.val = value;
                    } else if tag == 4 {
                        self.newval = value;
                    } else {
                        self.lease = value;
                    }
                    Ok(rest)
                },
                Err(e) => {
                    let field = if tag == 1 {
                        "opcode"
                    } else if tag == 2 {
                        "key"
                    } else if tag == 3 {
                        "val"
                    } else if tag == 4 {
                        "newval"
                    } else {
                        "lease"
                    };
                    Err(in_field(e, "ZPack", field))
                },
            }
        }
    }

    /// The message that the bytes encode.
    pub fn decode(buf: &[u8]) -> (r: Result<ZPack, DecodeError>)
        ensures
            r is Ok <==> zpack_of(buf@) is Some,
            r matches Ok(z) ==> zpack_of(buf@) == Some(z@),
    {
        let mut z = ZPack::default();
        let mut rest = buf;
        while rest.len() > 0
            invariant
                fields_merged(z@, rest@) == zpack_of(buf@),
            decreases rest@.len(),
        {
            proof {
                lemma_key_len(rest@);
            }
            match take_key(rest) {
                Ok((tag, wire, after)) => {
                    let ghost n: nat = (rest@.len() - after@.len()) as nat;
                    assert(after@ == rest@.skip(n as int));
                    match z.merge_field(tag, wire, after) {
                        Ok(next) => {
                            let ghost m: nat = (after@.len() - next@.len()) as nat;
                            assert(next@ =~= rest@.skip((n + m) as int));
                            rest = next;
                        },
                        Err(e) => {
                            return Err(e);
                        },
                    }
                },
                Err(e) => {
                    return Err(e);
                },
            }
        }
        Ok(z)
    }
}

impl Default for ZPack {
    fn default() -> (r: ZPack)
        ensures
            r@ == empty_zpack(),
    {
        let r = ZPack {
            opcode: Vec::new(),
            key: Vec::new(),
            val: Vec::new(),
            newval: Vec::new(),
            lease: Vec::new(),
            valnull: false,
        };
        assert(r@ =~= empty_zpack());
        r
    }
}

impl Clone for ZPack {
    fn clone(&self) -> (r: ZPack)
        ensures
            r@ == self@,
    {
        ZPack {
            opcode: copy_bytes(&self.opcode),
            key: copy_bytes(&self.key),
            val: copy_bytes(&self.val),
            newval: copy_bytes(&self.newval),
            lease: copy_bytes(&self.lease),
            valnull: self.valnull,
        }
    }
}

impl PartialEq for ZPack {
    fn eq(&self, other: &ZPack) -> (r: bool) {
        same_bytes(&self.opcode, &other.opcode) && same_bytes(&self.key, &other.key) && same_bytes(
            &self.val,
            &other.val,
        ) && same_bytes(&self.newval, &other.newval) && same_bytes(&self.lease, &other.lease)
            && self.valnull == other.valnull
    }
}

impl vstd::std_specs::cmp::PartialEqSpecImpl for ZPack {
    open spec fn obeys_eq_spec() -> bool {
        true
    }

    open spec fn eq_spec(&self, other: &ZPack) -> bool {
        self@ == other@
    }
}

/// Whether each field of bytes is short enough for its length to be written.
pub open spec fn is_sendable(z: ZPackView) -> bool {
    &&& z.opcode.len() <= u64::MAX
    &&& z.key.len() <= u64::MAX
    &&& z.val.len() <= u64::MAX
    &&& z.newval.len() <= u64::MAX
    &&& z.lease.len() <= u64::MAX
}

proof fn lemma_merge_bytes(z: ZPackView, tag: nat, value: Seq<u8>, rest: Seq<u8>)
    requires
        1 <= tag <= 5,
        value.len() <= u64::MAX,
        value.len() == 0 ==> set_bytes(z, tag, value) == z,
    ensures
        fields_merged(z, optional_bytes(tag, value) + rest) == fields_merged(
            set_bytes(z, tag, value),
            rest,
        ),
{
    let s = optional_bytes(tag, value) + rest;
    if value.len() == 0 {
        assert(s =~= rest);
    } else {
        let key = field_key(tag, WIRE_BYTES as nat);
        let body = varint(value.len()) + value + rest;
        assert(s =~= key + body);
        lemma_key_round_trip(tag, WIRE_BYTES as nat, body);
        lemma_varint_short(tag * 8 + WIRE_BYTES as nat);
        lemma_bytes_round_trip(value, rest);
        assert(s.skip(key.len() as int) =~= body);
        let m = varint(value.len()).len() + value.len();
        assert(s.skip((key.len() + m) as int) =~= rest);
        assert(field_merged(z, tag, WIRE_BYTES as nat, body) == Some((set_bytes(z, tag, value), m)));
    }
}

proof fn lemma_merge_bool(z: ZPackView, value: bool, rest: Seq<u8>)
    requires
        !z.valnull,
    ensures
        fields_merged(z, optional_bool(6, value) + rest) == fields_merged(
            ZPackView { valnull: value, ..z },
            rest,
        ),
{
    let s = optional_bool(6, value) + rest;
    if !value {
        assert(s =~= rest);
        assert(ZPackView { valnull: value, ..z } =~= z);
    } else {
        let key = field_key(6, WIRE_VARINT as nat);
        let body = varint(1) + rest;
        assert(s =~= key + body);
        lemma_key_round_trip(6, WIRE_VARINT as nat, body);
        lemma_varint_short(48);
        lemma_varint_short(1);
        law_varint_round_trip(1, rest);
        assert(s.skip(key.len() as int) =~= body);
        assert(s.skip((key.len() + 1) as int) =~= rest);
    }
}

proof fn lemma_regroup(a: Seq<u8>, b: Seq<u8>, c: Seq<u8>, d: Seq<u8>, e: Seq<u8>, f: Seq<u8>)
    ensures
        a + b + c + d + e + f == a + (b + (c + (d + (e + (f + Seq::<u8>::empty()))))),
{
    assert(a + b + c + d + e + f =~= a + (b + (c + (d + (e + (f + Seq::<u8>::empty()))))));
}

/// Decoding an encoded message gives that message back.
pub proof fn law_zpack_round_trip(z: ZPackView)
    requires
        is_sendable(z),
    ensures
        zpack_of(zpack_bytes(z)) == Some(z),
{
    let e = empty_zpack();
    let z1 = ZPackView { opcode: z.opcode, ..e };
    let z2 = ZPackView { key: z.key, ..z1 };
    let z3 = ZPackView { val: z.val, ..z2 };
    let z4 = ZPackView { newval: z.newval, ..z3 };
    let z5 = ZPackView { lease: z.lease, ..z4 };
    let r6 = optional_bool(6, z.valnull) + Seq::<u8>::empty();
    let r5 = optional_bytes(5, z.lease) + r6;
    let r4 = optional_bytes(4, z.newval) + r5;
    let r3 = optional_bytes(3, z.val) + r4;
    let r2 = optional_bytes(2, z.key) + r3;
    let r1 = optional_bytes(1, z.opcode) + r2;
    lemma_regroup(
        optional_bytes(1, z.opcode),
        optional_bytes(2, z.key),
        optional_bytes(3, z.val),
        optional_bytes(4, z.newval),
        optional_bytes(5, z.lease),
        optional_bool(6, z.valnull),
    );
    if z.opcode.len() == 0 { assert(z1 =~= e); }
    if z.key.len() == 0 { assert(z2 =~= z1); }
    if z.val.len() == 0 { assert(z3 =~= z2); }
    if z.newval.len() == 0 { assert(z4 =~= z3); }
    if z.lease.len() == 0 { assert(z5 =~= z4); }
    lemma_merge_bytes(e, 1, z.opcode, r2);
    lemma_merge_bytes(z1, 2, z.key, r3);
    lemma_merge_bytes(z2, 3, z.val, r4);
    lemma_merge_bytes(z3, 4, z.newval, r5);
    lemma_merge_bytes(z4, 5, z.lease, r6);
    lemma_merge_bool(z5, z.valnull, Seq::empty());
    assert(ZPackView { valnull: z.valnull, ..z5 } =~= z);
}

proof fn lemma_optional_first(tag: nat, value: Seq<u8>)
    requires
        1 <= tag <= 5,
    ensures
        value.len() > 0 ==> optional_bytes(tag, value).len() > 0 && optional_bytes(tag, value)[0]
            == tag * 8 + 2,
{
    let key = field_key(tag, WIRE_BYTES as nat);
    assert(key =~= seq![(tag * 8 + 2) as u8]);
    if value.len() > 0 {
        assert(optional_bytes(tag, value)[0] == key[0]);
    }
}

/// An encoding that is not empty begins with the key of a field, whose first
/// byte is ten or more.
pub proof fn lemma_encoding_first(z: ZPackView)
    ensures
        zpack_bytes(z).len() > 0 ==> zpack_bytes(z)[0] >= 10,
{
    lemma_optional_first(1, z.opcode);
    lemma_optional_first(2, z.key);
    lemma_optional_first(3, z.val);
    lemma_optional_first(4, z.newval);
    lemma_optional_first(5, z.lease);
    assert(field_key(6, WIRE_VARINT as nat) =~= seq![48u8]);
    assert(optional_bool(6, z.valnull).len() > 0 ==> optional_bool(6, z.valnull)[0] == 48);
    let a = optional_bytes(1, z.opcode);
    let b = a + optional_bytes(2, z.key);
    let c = b + optional_bytes(3, z.val);
    let d = c + optional_bytes(4, z.newval);
    let e = d + optional_bytes(5, z.lease);
    assert(b.len() > 0 ==> b[0] >= 10);
    assert(c.len() > 0 ==> c[0] >= 10);
    assert(d.len() > 0 ==> d[0] >= 10);
    assert(e.len() > 0 ==> e[0] >= 10);
}

/// The encoding of a message is that of its fields one behind the other, in the
/// order of their numbers; a field that is empty takes no bytes.
pub proof fn law_encoding_field_by_field(z: ZPackView)
    ensures
        ({
            let e = ZPackView {
                opcode: Seq::empty(),
                key: Seq::empty(),
                val: Seq::empty(),
                newval: Seq::empty(),
                lease: Seq::empty(),
                valnull: false,
            };
            &&& zpack_bytes(e) == Seq::<u8>::empty()
            &&& zpack_bytes(z) == zpack_bytes(ZPackView { opcode: z.opcode, ..e }) + zpack_bytes(
                ZPackView { key: z.key, ..e },
            ) + zpack_bytes(ZPackView { val: z.val, ..e }) + zpack_bytes(
                ZPackView { newval: z.newval, ..e },
            ) + zpack_bytes(ZPackView { lease: z.lease, ..e }) + zpack_bytes(
                ZPackView { valnull: z.valnull, ..e },
            )
            &&& z.opcode.len() > 0 ==> zpack_bytes(ZPackView { opcode: z.opcode, ..e }) == seq![10u8]
                + varint(z.opcode.len()) + z.opcode
            &&& z.key.len() > 0 ==> zpack_bytes(ZPackView { key: z.key, ..e }) == seq![18u8] + varint(
                z.key.len(),
            ) + z.key
            &&& z.val.len() > 0 ==> zpack_bytes(ZPackView { val: z.val, ..e }) == seq![26u8] + varint(
                z.val.len(),
            ) + z.val
            &&& z.newval.len() > 0 ==> zpack_bytes(ZPackView { newval: z.newval, ..e }) == seq![34u8]
                + varint(z.newval.len()) + z.newval
            &&& z.lease.len() > 0 ==> zpack_bytes(ZPackView { lease: z.lease, ..e }) == seq![42u8]
                + varint(z.lease.len()) + z.lease
            &&& zpack_bytes(ZPackView { valnull: true, ..e }) == seq![48u8, 1u8]
        }),
{
    let e = ZPackView {
        opcode: Seq::empty(),
        key: Seq::empty(),
        val: Seq::empty(),
        newval: Seq::empty(),
        lease: Seq::empty(),
        valnull: false,
    };
    law_field_format(1, z.opcode);
    law_field_format(2, z.key);
    law_field_format(3, z.val);
    law_field_format(4, z.newval);
    law_field_format(5, z.lease);
    law_field_format(6, Seq::empty());
    let a = zpack_bytes(ZPackView { opcode: z.opcode, ..e });
    let b = zpack_bytes(ZPackView { key: z.key, ..e });
    let c = zpack_bytes(ZPackView { val: z.val, ..e });
    let d = zpack_bytes(ZPackView { newval: z.newval, ..e });
    let f = zpack_bytes(ZPackView { lease: z.lease, ..e });
    let g = zpack_bytes(ZPackView { valnull: z.valnull, ..e });
    assert(zpack_bytes(e) =~= Seq::<u8>::empty());
    assert(a =~= optional_bytes(1, z.opcode));
    assert(b =~= optional_bytes(2, z.key));
    assert(c =~= optional_bytes(3, z.val));
    assert(d =~= optional_bytes(4, z.newval));
    assert(f =~= optional_bytes(5, z.lease));
    assert(g =~= optional_bool(6, z.valnull));
    assert(zpack_bytes(ZPackView { valnull: true, ..e }) =~= bool_field(6, true));
}

/// Fields are taken in one after the other, in whatever order they come and however
/// often: a field of bytes sets its part of the message, and the flag its own. A
/// known field of another kind is refused.
pub proof fn law_fields_are_taken_in(z: ZPackView, value: Seq<u8>, flag: bool, rest: Seq<u8>)
    requires
        value.len() <= u64::MAX,
    ensures
        fields_merged(z, Seq::empty()) == Some(z),
        fields_merged(z, bytes_field(1, value) + rest) == fields_merged(
            ZPackView { opcode: value, ..z },
            rest,
        ),
        fields_merged(z, bytes_field(2, value) + rest) == fields_merged(
            ZPackView { key: value, ..z },
            rest,
        ),
        fields_merged(z, bytes_field(3, value) + rest) == fields_merged(
            ZPackView { val: value, ..z },
            rest,
        ),
        fields_merged(z, bytes_field(4, value) + rest) == fields_merged(
            ZPackView { newval: value, ..z },
            rest,
        ),
        fields_merged(z, bytes_field(5, value) + rest) == fields_merged(
            ZPackView { lease: value, ..z },
            rest,
        ),
        fields_merged(z, bool_field(6, flag) + rest) == fields_merged(
            ZPackView { valnull: flag, ..z },
            rest,
        ),
        fields_merged(z, bool_field(2, flag) + rest) is None,
        fields_merged(z, bytes_field(6, value) + rest) is None,
{
    lemma_take_in_bytes(z, 1, value, rest);
    lemma_take_in_bytes(z, 2, value, rest);
    lemma_take_in_bytes(z, 3, value, rest);
    lemma_take_in_bytes(z, 4, value, rest);
    lemma_take_in_bytes(z, 5, value, rest);
    lemma_take_in_flag(z, flag, rest);
    let key = field_key(2, WIRE_VARINT as nat);
    let body = varint(if flag { 1 } else { 0 }) + rest;
    assert(bool_field(2, flag) + rest =~= key + body);
    lemma_key_round_trip(2, WIRE_VARINT as nat, body);
    let key = field_key(6, WIRE_BYTES as nat);
    let body = varint(value.len()) + value + rest;
    assert(bytes_field(6, value) + rest =~= key + body);
    lemma_key_round_trip(6, WIRE_BYTES as nat, body);
}

proof fn lemma_take_in_bytes(z: ZPackView, tag: nat, value: Seq<u8>, rest: Seq<u8>)
    requires
        1 <= tag <= 5,
        value.len() <= u64::MAX,
    ensures
        fields_merged(z, bytes_field(tag, value) + rest) == fields_merged(
            set_bytes(z, tag, value),
            rest,
        ),
{
    let s = bytes_field(tag, value) + rest;
    let key = field_key(tag, WIRE_BYTES as nat);
    let body = varint(value.len()) + value + rest;
    assert(s =~= key + body);
    lemma_key_round_trip(tag, WIRE_BYTES as nat, body);
    lemma_varint_short(tag * 8 + WIRE_BYTES as nat);
    lemma_bytes_round_trip(value, rest);
    assert(s.skip(key.len() as int) =~= body);
    let m = varint(value.len()).len() + value.len();
    assert(s.skip((key.len() + m) as int) =~= rest);
    assert(field_merged(z, tag, WIRE_BYTES as nat, body) == Some((set_bytes(z, tag, value), m)));
}

proof fn lemma_take_in_flag(z: ZPackView, flag: bool, rest: Seq<u8>)
    ensures
        fields_merged(z, bool_field(6, flag) + rest) == fields_merged(
            ZPackView { valnull: flag, ..z },
            rest,
        ),
{
    let n: nat = if flag { 1 } else { 0 };
    let s = bool_field(6, flag) + rest;
    let key = field_key(6, WIRE_VARINT as nat);
    let body = varint(n) + rest;
    assert(s =~= key + body);
    lemma_key_round_trip(6, WIRE_VARINT as nat, body);
    lemma_varint_short(48);
    lemma_varint_short(n);
    law_varint_round_trip(n, rest);
    assert(s.skip(key.len() as int) =~= body);
    assert(s.skip((key.len() + 1) as int) =~= rest);
}

/// A field that the message does not have changes nothing, whatever its kind, as
/// far as it is well-formed; otherwise the message is refused.
pub proof fn law_unknown_fields_are_passed_over(z: ZPackView, tag: nat, wire: nat, s: Seq<u8>)
    requires
        7 <= tag <= MAX_TAG,
        wire <= 5,
    ensures
        fields_merged(z, field_key(tag, wire) + s) == (match skipped(wire, tag, s, 100) {
            Some(n) => fields_merged(z, s.skip(n as int)),
            None => None,
        }),
{
    let key = field_key(tag, wire);
    lemma_key_round_trip(tag, wire, s);
    lemma_varint_short(tag * 8 + wire);
    lemma_skipped_len(wire, tag, s, 100);
    assert((key + s).skip(key.len() as int) =~= s);
    match skipped(wire, tag, s, 100) {
        Some(n) => {
            assert((key + s).skip((key.len() + n) as int) =~= s.skip(n as int));
        },
        None => {},
    }
}

/// A message is decoded from nothing set.
pub proof fn law_decoding_starts_empty(s: Seq<u8>)
    ensures
        zpack_of(s) == fields_merged(
            ZPackView {
                opcode: Seq::empty(),
                key: Seq::empty(),
                val: Seq::empty(),
                newval: Seq::empty(),
                lease: Seq::empty(),
                valnull: false,
            },
            s,
        ),
        zpack_of(Seq::<u8>::empty()) == Some(empty_zpack()),
{
}

/// Two messages are the same where all their fields are.
pub proof fn law_same_message(a: ZPack, b: ZPack)
    ensures
        ZPack::obeys_eq_spec(),
        a.eq_spec(&b) <==> a.opcode@ == b.opcode@ && a.key@ == b.key@ && a.val@ == b.val@ && a.newval@
            == b.newval@ && a.lease@ == b.lease@ && a.valnull == b.valnull,
{
}

/// How bytes are decoded, field by field and however they are written: each begins
/// with a key. The fields one to five take bytes and the sixth a number, and any
/// other one is passed over; a field that is not of its kind, or not whole, is
/// refused.
pub proof fn law_decoding_step(z: ZPackView, s: Seq<u8>)
    requires
        s.len() > 0,
    ensures
        key_prefix(s) is None ==> fields_merged(z, s) is None,
        key_prefix(s) matches Some((tag, wire, n)) ==> {
            let rest = s.skip(n as int);
            &&& 1 <= tag <= 5 && (wire != 2 || bytes_prefix(rest) is None) ==> fields_merged(z, s) is None
            &&& 1 <= tag <= 5 && wire == 2 ==> (bytes_prefix(rest) matches Some((v, m))
                ==> fields_merged(z, s) == fields_merged(
                if tag == 1 {
                    ZPackView { opcode: v, ..z }
                } else if tag == 2 {
                    ZPackView { key: v, ..z }
                } else if tag == 3 {
                    ZPackView { val: v, ..z }
                } else if tag == 4 {
                    ZPackView { newval: v, ..z }
                } else {
                    ZPackView { lease: v, ..z }
                },
                rest.skip(m as int),
            ))
            &&& tag == 6 && (wire != 0 || varint_prefix(rest) is None) ==> fields_merged(z, s) is None
            &&& tag == 6 && wire == 0 ==> (varint_prefix(rest) matches Some((v, m)) ==> fields_merged(
                z,
                s,
            ) == fields_merged(ZPackView { valnull: v != 0, ..z }, rest.skip(m as int)))
            &&& tag > 6 && skipped(wire, tag, rest, 100) is None ==> fields_merged(z, s) is None
            &&& tag > 6 ==> (skipped(wire, tag, rest, 100) matches Some(m) ==> fields_merged(z, s)
                == fields_merged(z, rest.skip(m as int)))
        },
{
    lemma_key_len(s);
    match key_prefix(s) {
        Some((tag, wire, n)) => {
            let rest = s.skip(n as int);
            lemma_varint_len(rest, 0);
            lemma_skipped_len(wire, tag, rest, 100);
            match field_merged(z, tag, wire, rest) {
                Some((merged, m)) => {
                    assert(s.skip((n + m) as int) =~= rest.skip(m as int));
                },
                None => {},
            }
        },
        None => {},
    }
}

} // verus!
