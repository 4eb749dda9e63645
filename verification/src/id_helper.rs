//! Identifiers for messages that travel in pieces.

use crate::hash_util::{hash_bytes, hash_text, random_text, HashUtil};
use crate::number::{hex_padded, hex_padded_of, hexadecimal};
use crate::text::{chars_of, substring_of};
use vstd::prelude::*;
use vstd::utf8::encode_utf8;

verus! {

/// The identifier that the generator makes from `seed`: the hash of 62
/// generated letters and digits.
pub open spec fn id_from(seed: u64) -> int {
    hash_text(random_text(seed, 62))
}

/// The last `len` hexadecimal digits of a number, with zeros before them where
/// it has fewer.
pub open spec fn last_digits(n: nat, len: nat) -> Seq<char> {
    let digits = hex_padded(n, len);
    digits.skip(digits.len() - len)
}

/// ID generation helper.
///
/// Generates identifiers by hashing random strings.
pub struct IdHelper;

impl IdHelper {
    /// Default length of generated IDs.
    pub const ID_LEN: usize = 20;

    /// Generate a unique 64-bit ID.
    pub fn gen_id() -> (r: u64)
        ensures
            exists|seed: u64| r == #[trigger] id_from(seed),
    {
        let s = HashUtil::random_string(62);
        proof {
            let seed = choose|seed: u64| s@ == #[trigger] random_text(seed, 62);
            assert(id_from(seed) == hash_text(s@));
        }
        HashUtil::gen_hash_str(&s)
    }

    /// Generate a hex string ID of the specified length: the digits of an ID,
    /// with zeros before them where there are too few, and without the first
    /// ones where there are too many.
    pub fn gen_id_string(len: usize) -> (r: String)
        ensures
            r@.len() == len,
            exists|seed: u64| r@ == last_digits(#[trigger] id_from(seed) as nat, len as nat),
    {
        let digits = chars_of(&hex_padded_of(IdHelper::gen_id(), len));
        let from: usize = digits.len() - len;
        let r = substring_of(&digits, from, digits.len());
        assert(r@ =~= digits@.skip(from as int));
        r
    }
}

/// An ID string has the length that was asked for: it is the end of the
/// hexadecimal digits, or all of them behind zeros.
pub proof fn law_last_digits(n: nat, len: nat)
    ensures
        last_digits(n, len).len() == len,
        hexadecimal(n).len() >= len ==> last_digits(n, len) == hexadecimal(n).skip(
            hexadecimal(n).len() - len,
        ),
        hexadecimal(n).len() < len ==> {
            let zeros = len - hexadecimal(n).len();
            &&& last_digits(n, len).skip(zeros) == hexadecimal(n)
            &&& forall|i: int| 0 <= i < zeros ==> #[trigger] last_digits(n, len)[i] == '0'
        },
{
    let r = last_digits(n, len);
    if hexadecimal(n).len() >= len {
        assert(r =~= hexadecimal(n).skip(hexadecimal(n).len() - len));
    } else {
        assert(r.skip(len - hexadecimal(n).len()) =~= hexadecimal(n));
    }
}

/// An ID is the hash of sixty-two generated letters and digits.
pub proof fn law_id_from_seed(seed: u64)
    ensures
        id_from(seed) == hash_bytes(encode_utf8(random_text(seed, 62))),
        0 <= id_from(seed) <= u64::MAX,
{
}

} // verus!
