//! Hashing of keys, and the strings that identifiers are made from.

use crate::host_entity::address_text;
use crate::number::decimal_of;
use crate::text::join3;
use vstd::prelude::*;
use vstd::utf8::*;

verus! {

/// The multiplier of the polynomial that keys are hashed with.
pub const HASH_FACTOR: u64 = 65599;

/// What stands before the first zero byte of `s`.
pub open spec fn until_nul(s: Seq<u8>) -> Seq<u8>
    decreases s.len(),
{
    if s.len() == 0 || s[0] == 0 {
        Seq::empty()
    } else {
        seq![s[0]] + until_nul(s.skip(1))
    }
}

/// The bytes of `s` as the digits of a number in base `HASH_FACTOR`, modulo
/// 2 to the 64.
pub open spec fn polynomial(s: Seq<u8>) -> int
    decreases s.len(),
{
    if s.len() == 0 {
        0
    } else {
        (polynomial(s.drop_last()) * HASH_FACTOR + s.last()) % 0x1_0000_0000_0000_0000
    }
}

/// The hash of a byte string: the polynomial over the bytes before the first
/// zero byte.
pub open spec fn hash_bytes(s: Seq<u8>) -> int {
    polynomial(until_nul(s))
}

/// The hash of a text: that of its UTF-8 bytes.
pub open spec fn hash_text(s: Seq<char>) -> int {
    hash_bytes(encode_utf8(s))
}

/// The position among `n` nodes that the text routes to.
pub open spec fn route(s: Seq<char>, n: nat) -> int
    recommends
        n > 0,
{
    hash_text(s) % n as int
}

proof fn lemma_hash_step(h: u64, c: u8)
    ensures
        (c as u64).wrapping_add(h << 6).wrapping_add(h << 16).wrapping_sub(h) == (h * HASH_FACTOR + c)
            % 0x1_0000_0000_0000_0000,
{
    assert(h << 6 == (h * 64) % 0x1_0000_0000_0000_0000) by (bit_vector);
    assert(h << 16 == (h * 65536) % 0x1_0000_0000_0000_0000) by (bit_vector);
    let m: int = 0x1_0000_0000_0000_0000;
    let a: int = (h * 64) % m;
    let b: int = (h * 65536) % m;
    let q: int = (h * 64) / m + (h * 65536) / m;
    let exact: int = h * HASH_FACTOR + c;
    let t1 = (c as u64).wrapping_add(h << 6);
    let t2 = t1.wrapping_add(h << 16);
    let t3 = t2.wrapping_sub(h);
    let k1: int = if c + a >= m { 1 } else { 0 };
    let k2: int = if t1 + b >= m { 1 } else { 0 };
    let k3: int = if t2 < h { 1 } else { 0 };
    assert(t1 == c + a - k1 * m);
    assert(t2 == t1 + b - k2 * m);
    assert(t3 == t2 - h + k3 * m);
    assert(exact == m * (q + k1 + k2 - k3) + t3);
    vstd::arithmetic::div_mod::lemma_fundamental_div_mod_converse_mod(exact, m, q + k1 + k2 - k3, t3 as int);
}

proof fn lemma_until_nul(s: Seq<u8>, i: int)
    requires
        0 <= i <= s.len(),
        forall|j: int| 0 <= j < i ==> s[j] != 0,
        i < s.len() ==> s[i] == 0,
    ensures
        until_nul(s) == s.take(i),
    decreases s.len(),
{
    if i > 0 {
        assert forall|j: int| 0 <= j < i - 1 implies s.skip(1)[j] != 0 by {
            assert(s[j + 1] != 0);
        }
        lemma_until_nul(s.skip(1), i - 1);
        assert(seq![s[0]] + s.skip(1).take(i - 1) =~= s.take(i));
    } else {
        assert(until_nul(s) =~= s.take(0));
    }
}

/// The letters and digits that generated strings are made of, in the order
/// `0-9A-Za-z`.
pub open spec fn alphanumeric(i: int) -> char {
    if i < 10 {
        ('0' as int + i) as char
    } else if i < 36 {
        ('A' as int + i - 10) as char
    } else {
        ('a' as int + i - 36) as char
    }
}

/// Whether a character is an ASCII letter or digit.
pub open spec fn is_alphanumeric(c: char) -> bool {
    '0' <= c <= '9' || 'A' <= c <= 'Z' || 'a' <= c <= 'z'
}

/// One step of the xorshift generator with the shifts 13, 7 and 17.
pub open spec fn xorshift(state: u64) -> u64 {
    let a = state ^ (state << 13);
    let b = a ^ (a >> 7);
    b ^ (b << 17)
}

/// The state of the generator after `n` steps from `seed`.
pub open spec fn xorshift_steps(seed: u64, n: nat) -> u64
    decreases n,
{
    if n == 0 {
        seed
    } else {
        xorshift(xorshift_steps(seed, (n - 1) as nat))
    }
}

/// The `len` letters and digits that the generator gives from `seed`: one for
/// each step, chosen by the state after that step.
pub open spec fn random_text(seed: u64, len: nat) -> Seq<char> {
    Seq::new(len, |i: int| alphanumeric((xorshift_steps(seed, (i + 1) as nat) % 62) as int))
}

fn alphanumeric_of(i: u64) -> (r: char)
    requires
        i < 62,
    ensures
        r == alphanumeric(i as int),
{
    if i < 10 {
        (48u8 + i as u8) as char
    } else if i < 36 {
        (65u8 + (i - 10) as u8) as char
    } else {
        (97u8 + (i - 36) as u8) as char
    }
}

/// Nanoseconds from the start of 1970 to now by the system clock, read with
/// `UNIX_EPOCH.elapsed()`, or `None` where the clock stands before that. The
/// value depends on the time of the call, so nothing is claimed of it.
#[verifier::external_body]
fn clock_nanos() -> (r: Option<u128>) {
    std::time::UNIX_EPOCH.elapsed().ok().map(|d| d.as_nanos())
}

/// Hash utility for key-based routing.
///
/// The hash decides which node a key belongs to: a client computes
/// `hash(key) % num_nodes` and talks to that node directly.
pub struct HashUtil;

impl HashUtil {
    /// Maximum 64-bit unsigned integer value.
    pub const ULL_MAX: u64 = 0xffff_ffff_ffff_ffff;

    /// Generate a 64-bit hash from a byte string, which ends before its first
    /// zero byte.
    pub fn gen_hash(data: &[u8]) -> (r: u64)
        ensures
            r == hash_bytes(data@),
    {
        let mut hash: u64 = 0;
        let mut i: usize = 0;
        while i < data.len() && data[i] != 0
            invariant
                i <= data@.len(),
                hash == polynomial(data@.take(i as int)),
                forall|j: int| 0 <= j < i ==> data@[j] != 0,
            decreases data@.len() - i,
        {
            let c: u64 = data[i] as u64;
            proof {
                lemma_hash_step(hash, data@[i as int]);
                assert(data@.take(i + 1).drop_last() =~= data@.take(i as int));
            }
            hash = c.wrapping_add(hash << 6).wrapping_add(hash << 16).wrapping_sub(hash);
            i += 1;
        }
        proof {
            lemma_until_nul(data@, i as int);
        }
        hash
    }

    /// Generate a 64-bit hash from a string.
    pub fn gen_hash_str(s: &str) -> (r: u64)
        ensures
            r == hash_text(s@),
    {
        HashUtil::gen_hash(s.as_bytes())
    }

    /// Generate a base string from host and port (e.g., "host:port").
    pub fn gen_base(host: &str, port: u16) -> (r: String)
        ensures
            r@ == address_text((host@, port)),
    {
        let port = decimal_of(port as u64);
        join3(host, ":", &port)
    }

    /// The alphanumeric string of the given length that `seed` gives.
    pub fn random_string_from(seed: u64, len: usize) -> (r: String)
        ensures
            r@ == random_text(seed, len as nat),
    {
        let mut state: u64 = seed;
        let mut out: String = String::new();
        for i in 0..len
            invariant
                state == xorshift_steps(seed, i as nat),
                out@ == random_text(seed, i as nat),
        {
            let a: u64 = state ^ (state << 13);
            let b: u64 = a ^ (a >> 7);
            state = b ^ (b << 17);
            out.push(alphanumeric_of(state % 62));
            assert(out@ =~= random_text(seed, (i + 1) as nat));
        }
        out
    }

    /// Generate a random alphanumeric string of the given length.
    ///
    /// The seed is the system clock, or 42 where the clock cannot be used.
    /// Not cryptographically secure — used only for ID generation.
    pub fn random_string(len: usize) -> (r: String)
        ensures
            exists|seed: u64| r@ == #[trigger] random_text(seed, len as nat),
    {
        let seed: u64 = match clock_nanos() {
            Some(nanos) => (nanos % 0x1_0000_0000_0000_0000) as u64,
            None => 42,
        };
        HashUtil::random_string_from(seed, len)
    }
}

/// A zero byte ends the hashed string: what follows it changes nothing.
pub proof fn law_hash_stops_at_nul(s: Seq<u8>, rest: Seq<u8>)
    ensures
        hash_bytes(s.push(0) + rest) == hash_bytes(s),
{
    lemma_until_nul_append(s, rest);
}

proof fn lemma_until_nul_append(s: Seq<u8>, rest: Seq<u8>)
    ensures
        until_nul(s.push(0) + rest) == until_nul(s),
    decreases s.len(),
{
    let t = s.push(0) + rest;
    if s.len() > 0 && s[0] != 0 {
        lemma_until_nul_append(s.skip(1), rest);
        assert(t.skip(1) =~= s.skip(1).push(0) + rest);
    }
}

/// The hash fits in 64 bits, and routing picks one of the nodes.
pub proof fn law_route_in_range(s: Seq<char>, n: nat)
    requires
        n > 0,
    ensures
        0 <= hash_text(s) <= u64::MAX,
        0 <= route(s, n) < n,
{
}

/// A generated string has the length that was asked for and holds only
/// letters and digits.
pub proof fn law_random_text_alphanumeric(seed: u64, len: nat)
    ensures
        random_text(seed, len).len() == len,
        forall|i: int| 0 <= i < len ==> is_alphanumeric(#[trigger] random_text(seed, len)[i]),
{
}

proof fn lemma_until_nul_all(s: Seq<u8>)
    requires
        forall|i: int| 0 <= i < s.len() ==> #[trigger] s[i] != 0,
    ensures
        until_nul(s) == s,
{
    lemma_until_nul(s, s.len() as int);
    assert(s.take(s.len() as int) =~= s);
}

/// Each byte that is not zero multiplies the hash of what stands before it by
/// 65599 and is added, in 64 bits; nothing hashes to zero.
pub proof fn law_hash_takes_in_each_byte(s: Seq<u8>, c: u8)
    requires
        forall|i: int| 0 <= i < s.len() ==> #[trigger] s[i] != 0,
        c != 0,
    ensures
        hash_bytes(s.push(c)) == (hash_bytes(s) * 65599 + c) % 0x1_0000_0000_0000_0000,
        hash_bytes(Seq::<u8>::empty()) == 0,
{
    lemma_until_nul_all(s);
    lemma_until_nul_all(s.push(c));
    lemma_until_nul_all(Seq::empty());
    assert(s.push(c).drop_last() =~= s);
}

/// A text is hashed by its UTF-8 bytes, and among `n` nodes it goes to the one at
/// the remainder of the hash: the hash is that position and a multiple of `n`.
pub proof fn law_route_is_hash_remainder(s: Seq<char>, n: nat)
    requires
        n > 0,
    ensures
        hash_text(s) == hash_bytes(encode_utf8(s)),
        route(s, n) == hash_bytes(encode_utf8(s)) % n as int,
        0 <= route(s, n) < n,
        exists|q: int| #[trigger] (q * n) + route(s, n) == hash_bytes(encode_utf8(s)),
{
    let h = hash_bytes(encode_utf8(s));
    vstd::arithmetic::div_mod::lemma_fundamental_div_mod(h, n as int);
    assert(n * (h / n as int) == (h / n as int) * n) by (nonlinear_arith);
    assert((h / n as int) * n + route(s, n) == h);
}

/// A generated string goes on where a shorter one from the same seed ends: its
/// first characters are that shorter string, and the characters behind the first
/// are the string from the next state of the generator.
pub proof fn law_random_text_continues(seed: u64, n: nat, m: nat)
    requires
        m <= n,
    ensures
        random_text(seed, n).take(m as int) == random_text(seed, m),
        n > 0 ==> random_text(seed, n).skip(1) == random_text(xorshift(seed), (n - 1) as nat),
        n > 0 ==> random_text(seed, n)[0] == alphanumeric((xorshift(seed) % 62) as int),
{
    assert(random_text(seed, n).take(m as int) =~= random_text(seed, m));
    if n > 0 {
        assert forall|i: int| 0 <= i < n - 1 implies random_text(seed, n).skip(1)[i] == random_text(
            xorshift(seed),
            (n - 1) as nat,
        )[i] by {
            lemma_xorshift_shift(seed, (i + 1) as nat);
        }
        assert(random_text(seed, n).skip(1) =~= random_text(xorshift(seed), (n - 1) as nat));
        reveal_with_fuel(xorshift_steps, 2);
    }
}

proof fn lemma_xorshift_shift(seed: u64, n: nat)
    ensures
        xorshift_steps(seed, n + 1) == xorshift_steps(xorshift(seed), n),
    decreases n,
{
    if n > 0 {
        lemma_xorshift_shift(seed, (n - 1) as nat);
    } else {
        reveal_with_fuel(xorshift_steps, 2);
    }
}

/// The sixty-two characters are the digits, the capital and the small letters, in
/// the order of their code points.
pub proof fn law_alphanumeric_order(i: int, j: int)
    requires
        0 <= i < 62,
        0 <= j < 62,
    ensures
        is_alphanumeric(alphanumeric(i)),
        i < j ==> (alphanumeric(i) as u32) < (alphanumeric(j) as u32),
{
}

/// One step of the generator is three shifts, each taken into the state by an
/// exclusive or: left by 13, right by 7 and left by 17. Only zero stays zero.
pub proof fn law_xorshift(state: u64, a: u64, b: u64)
    requires
        a == state ^ (state << 13u64),
        b == a ^ (a >> 7u64),
    ensures
        xorshift(state) == b ^ (b << 17u64),
        xorshift(0) == 0,
        state != 0 ==> xorshift(state) != 0,
{
    assert(0u64 ^ (0u64 << 13u64) == 0u64) by (bit_vector);
    assert(0u64 ^ (0u64 >> 7u64) == 0u64) by (bit_vector);
    assert(0u64 ^ (0u64 << 17u64) == 0u64) by (bit_vector);
    assert(state != 0 ==> state ^ (state << 13u64) != 0) by (bit_vector);
    assert(a != 0 ==> a ^ (a >> 7u64) != 0) by (bit_vector);
    assert(b != 0 ==> b ^ (b << 17u64) != 0) by (bit_vector);
}

} // verus!
