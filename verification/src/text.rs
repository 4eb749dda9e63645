//! Characters and strings: the pieces of text handling that the rest of the
//! crate is built from, each stated over `Seq<char>`.

use vstd::prelude::*;
use vstd::utf8::*;

verus! {

// ── Strings and characters ──────────────────────────────────────────────

/// `String::push` puts one character at the end of the string.
pub assume_specification[ String::push ](s: &mut String, c: char)
    ensures
        final(s)@ == old(s)@.push(c),
;

/// `String::push_str` puts a whole slice at the end of the string.
pub assume_specification[ String::push_str ](s: &mut String, t: &str)
    ensures
        final(s)@ == old(s)@ + t@,
;

/// The characters of a string slice, in order.
pub fn chars_of(s: &str) -> (r: Vec<char>)
    ensures
        r@ == s@,
{
    let mut v: Vec<char> = Vec::new();
    for c in it: s.chars()
        invariant
            v@ == s@.take(it.index() as int),
            it.seq() == s@,
    {
        v.push(c);
    }
    v
}

/// The string made of the given characters.
pub fn string_of(s: &[char]) -> (r: String)
    ensures
        r@ == s@,
{
    let mut v: String = String::new();
    for i in 0..s.len()
        invariant
            v@ == s@.take(i as int),
    {
        v.push(s[i]);
    }
    assert(s@.take(s@.len() as int) == s@);
    v
}

/// The string made of the characters from `lo` up to, and without, `hi`.
pub fn substring_of(s: &Vec<char>, lo: usize, hi: usize) -> (r: String)
    requires
        lo <= hi <= s@.len(),
    ensures
        r@ == s@.subrange(lo as int, hi as int),
{
    let mut v: String = String::new();
    for i in lo..hi
        invariant
            lo <= i <= hi <= s@.len(),
            v@ == s@.subrange(lo as int, i as int),
    {
        v.push(s[i]);
    }
    v
}

/// Two texts, one after the other.
pub fn join2(a: &str, b: &str) -> (r: String)
    ensures
        r@ == a@ + b@,
{
    let mut r: String = a.to_owned();
    r.push_str(b);
    r
}

/// Three texts, one after the other.
pub fn join3(a: &str, b: &str, c: &str) -> (r: String)
    ensures
        r@ == a@ + b@ + c@,
{
    let mut r: String = a.to_owned();
    r.push_str(b);
    r.push_str(c);
    r
}

/// Four texts, one after the other.
pub fn join4(a: &str, b: &str, c: &str, d: &str) -> (r: String)
    ensures
        r@ == a@ + b@ + c@ + d@,
{
    let mut r: String = a.to_owned();
    r.push_str(b);
    r.push_str(c);
    r.push_str(d);
    r
}

/// Text that can be turned into a `String`.
pub trait IntoText: Sized {
    /// The characters of the text.
    spec fn text(self) -> Seq<char>;

    /// Turns the text into a `String`.
    fn into_text(self) -> (r: String)
        ensures
            r@ == self.text(),
    ;
}

impl IntoText for String {
    open spec fn text(self) -> Seq<char> {
        self@
    }

    fn into_text(self) -> (r: String) {
        self
    }
}

impl<'a> IntoText for &'a str {
    open spec fn text(self) -> Seq<char> {
        self@
    }

    fn into_text(self) -> (r: String) {
        self.to_owned()
    }
}

/// Two strings with the same UTF-8 bytes are the same string.
pub proof fn lemma_utf8_injective(a: Seq<char>, b: Seq<char>)
    requires
        encode_utf8(a) == encode_utf8(b),
    ensures
        a == b,
{
    encode_utf8_decode_utf8(a);
    encode_utf8_decode_utf8(b);
}

/// The bytes of two texts, one after the other, are those of the one followed
/// by those of the other.
pub proof fn lemma_utf8_concat(a: Seq<char>, b: Seq<char>)
    ensures
        encode_utf8(a + b) == encode_utf8(a) + encode_utf8(b),
    decreases a.len(),
{
    if a.len() == 0 {
        assert(a + b =~= b);
        assert(encode_utf8(a) =~= Seq::empty());
        assert(encode_utf8(a) + encode_utf8(b) =~= encode_utf8(b));
    } else {
        let first = encode_scalar(a[0] as u32);
        lemma_utf8_concat(a.drop_first(), b);
        assert((a + b).drop_first() =~= a.drop_first() + b);
        assert((a + b)[0] == a[0]);
        assert(first + (encode_utf8(a.drop_first()) + encode_utf8(b)) =~= (first + encode_utf8(
            a.drop_first(),
        )) + encode_utf8(b));
    }
}

/// Whether two byte slices hold the same bytes.
pub fn same_bytes(a: &[u8], b: &[u8]) -> (r: bool)
    ensures
        r == (a@ == b@),
{
    if a.len() != b.len() {
        return false;
    }
    for i in 0..a.len()
        invariant
            a@.len() == b@.len(),
            forall|j: int| 0 <= j < i ==> a@[j] == b@[j],
    {
        if a[i] != b[i] {
            return false;
        }
    }
    assert(a@ =~= b@);
    true
}

/// Whether two string slices hold the same characters.
pub fn same_text(a: &str, b: &str) -> (r: bool)
    ensures
        r == (a@ == b@),
{
    proof {
        if encode_utf8(a@) == encode_utf8(b@) {
            lemma_utf8_injective(a@, b@);
        }
    }
    same_bytes(a.as_bytes(), b.as_bytes())
}

/// A copy of the bytes.
pub fn copy_bytes(b: &[u8]) -> (r: Vec<u8>)
    ensures
        r@ == b@,
{
    let mut v: Vec<u8> = Vec::new();
    for i in 0..b.len()
        invariant
            v@ == b@.take(i as int),
    {
        v.push(b[i]);
    }
    assert(b@.take(b@.len() as int) == b@);
    v
}

/// The bytes from `lo` up to, and without, `hi`.
pub fn copy_range(b: &[u8], lo: usize, hi: usize) -> (r: Vec<u8>)
    requires
        lo <= hi <= b@.len(),
    ensures
        r@ == b@.subrange(lo as int, hi as int),
{
    let mut v: Vec<u8> = Vec::new();
    for i in lo..hi
        invariant
            lo <= i <= hi <= b@.len(),
            v@ == b@.subrange(lo as int, i as int),
    {
        v.push(b[i]);
    }
    v
}

/// The UTF-8 bytes of a string slice.
pub fn utf8_bytes(s: &str) -> (r: Vec<u8>)
    ensures
        r@ == encode_utf8(s@),
{
    copy_bytes(s.as_bytes())
}

/// What `String::from_utf8_lossy` makes of bytes that are not UTF-8.
pub uninterp spec fn utf8_lossy(bytes: Seq<u8>) -> Seq<char>;

/// The text that bytes stand for: what they encode, if they are UTF-8.
pub open spec fn text_of(bytes: Seq<u8>) -> Seq<char> {
    if valid_utf8(bytes) {
        decode_utf8(bytes)
    } else {
        utf8_lossy(bytes)
    }
}

/// `String::from_utf8_lossy` decodes bytes as UTF-8. Bytes that are UTF-8
/// decode to the text that they encode; in other bytes each ill-formed
/// stretch becomes U+FFFD, which the name stands for. Where there are any
/// bytes, there is any text.
#[verifier::external_body]
pub(crate) fn text_lossy(bytes: &[u8]) -> (r: String)
    ensures
        r@ == text_of(bytes@),
        !valid_utf8(bytes@) ==> r@ == utf8_lossy(bytes@),
        bytes@.len() > 0 ==> r@.len() > 0,
{
    String::from_utf8_lossy(bytes).into_owned()
}

/// The bytes of a text stand for that text.
pub proof fn law_text_round_trip(s: Seq<char>)
    ensures
        text_of(encode_utf8(s)) == s,
{
    encode_utf8_valid_utf8(s);
    encode_utf8_decode_utf8(s);
}

/// The text of UTF-8 bytes is encoded by those bytes.
pub proof fn law_bytes_round_trip(b: Seq<u8>)
    requires
        valid_utf8(b),
    ensures
        encode_utf8(text_of(b)) == b,
{
    decode_utf8_encode_utf8(b);
}

/// The words of the error that `std::str::from_utf8` gives for bytes that are
/// not UTF-8.
pub uninterp spec fn utf8_error_words(bytes: Seq<u8>) -> Seq<char>;

/// `std::str::from_utf8` accepts exactly the bytes that are UTF-8 and gives
/// back the text that they encode. For others the error says where they go
/// wrong; the name stands for its words.
#[verifier::external_body]
pub(crate) fn text_checked(bytes: &[u8]) -> (r: Result<&str, String>)
    ensures
        match r {
            Ok(s) => valid_utf8(bytes@) && s@ == decode_utf8(bytes@),
            Err(words) => !valid_utf8(bytes@) && words@ == utf8_error_words(bytes@),
        },
{
    std::str::from_utf8(bytes).map_err(|e| e.to_string())
}

// ── Prefixes and substrings ─────────────────────────────────────────────

/// Whether `s` begins with `prefix`.
pub open spec fn has_prefix<T>(s: Seq<T>, prefix: Seq<T>) -> bool {
    prefix.len() <= s.len() && s.take(prefix.len() as int) == prefix
}

/// Whether `s` begins with `prefix`.
pub fn starts_with(s: &str, prefix: &str) -> (r: bool)
    ensures
        r == has_prefix(s@, prefix@),
{
    let v = chars_of(s);
    let p = chars_of(prefix);
    if p.len() > v.len() {
        return false;
    }
    for i in 0..p.len()
        invariant
            p@ == prefix@,
            v@ == s@,
            p@.len() <= v@.len(),
            forall|j: int| 0 <= j < i ==> v@[j] == p@[j],
    {
        if v[i] != p[i] {
            assert(s@.take(p@.len() as int)[i as int] != p@[i as int]);
            return false;
        }
    }
    assert(v@.take(p@.len() as int) =~= p@);
    true
}

/// Whether `needle` stands in `s` at position `at`.
pub open spec fn occurs_at(s: Seq<char>, needle: Seq<char>, at: int) -> bool {
    0 <= at && at + needle.len() <= s.len() && s.subrange(at, at + needle.len()) == needle
}

/// Whether `needle` stands anywhere in `s`.
pub open spec fn has_substring(s: Seq<char>, needle: Seq<char>) -> bool {
    exists|at: int| occurs_at(s, needle, at)
}

/// Whether `needle` stands anywhere in `s`.
pub fn contains_text(s: &str, needle: &str) -> (r: bool)
    ensures
        r == has_substring(s@, needle@),
{
    let hay = chars_of(s);
    let len: usize = hay.len();
    let n = chars_of(needle);
    if n.len() > len {
        return false;
    }
    let last: usize = len - n.len();
    let mut at: usize = 0;
    while at <= last
        invariant
            n@ == needle@,
            hay@ == s@,
            last == len - n@.len(),
            len == hay@.len(),
            at <= last + 1,
            forall|i: int| 0 <= i < at ==> !occurs_at(hay@, n@, i),
        decreases last + 1 - at,
    {
        let mut k: usize = 0;
        while k < n.len() && hay[at + k] == n[k]
            invariant
                at <= last,
                last == len - n@.len(),
            len == hay@.len(),
                k <= n@.len(),
                forall|i: int| 0 <= i < k ==> hay@[at + i] == n@[i],
            decreases n@.len() - k,
        {
            k += 1;
        }
        if k == n.len() {
            assert(hay@.subrange(at as int, at + n@.len()) =~= n@);
            assert(occurs_at(hay@, n@, at as int));
            return true;
        }
        assert(!occurs_at(hay@, n@, at as int)) by {
            if occurs_at(hay@, n@, at as int) {
                assert(hay@.subrange(at as int, at + n@.len())[k as int] == n@[k as int]);
            }
        }
        if at == last {
            return false;
        }
        at += 1;
    }
    false
}

// ── Letter case ─────────────────────────────────────────────────────────

/// An ASCII capital letter as a small one; any other character as it is.
pub open spec fn ascii_lower(c: char) -> char {
    if 'A' <= c <= 'Z' {
        (c as int + 32) as char
    } else {
        c
    }
}

/// An ASCII small letter as a capital one; any other character as it is.
pub open spec fn ascii_upper(c: char) -> char {
    if 'a' <= c <= 'z' {
        (c as int - 32) as char
    } else {
        c
    }
}

/// What `str::to_lowercase` makes of a text that is not ASCII.
pub uninterp spec fn unicode_lowercase(s: Seq<char>) -> Seq<char>;

/// What `str::to_uppercase` makes of a text that is not ASCII.
pub uninterp spec fn unicode_uppercase(s: Seq<char>) -> Seq<char>;

/// The text in lower case.
pub open spec fn lowercase(s: Seq<char>) -> Seq<char> {
    if is_ascii_chars(s) {
        s.map_values(|c: char| ascii_lower(c))
    } else {
        unicode_lowercase(s)
    }
}

/// The text in upper case.
pub open spec fn uppercase(s: Seq<char>) -> Seq<char> {
    if is_ascii_chars(s) {
        s.map_values(|c: char| ascii_upper(c))
    } else {
        unicode_uppercase(s)
    }
}

/// `str::to_lowercase` maps each ASCII capital letter of an ASCII text to its
/// small letter and leaves the rest. What Unicode makes of other texts is what
/// the name stands for.
#[verifier::external_body]
pub(crate) fn to_lowercase(s: &str) -> (r: String)
    ensures
        r@ == lowercase(s@),
        !is_ascii_chars(s@) ==> r@ == unicode_lowercase(s@),
{
    s.to_lowercase()
}

/// `str::to_uppercase` maps each ASCII small letter of an ASCII text to its
/// capital letter and leaves the rest. What Unicode makes of other texts is
/// what the name stands for.
#[verifier::external_body]
pub(crate) fn to_uppercase(s: &str) -> (r: String)
    ensures
        r@ == uppercase(s@),
        !is_ascii_chars(s@) ==> r@ == unicode_uppercase(s@),
{
    s.to_uppercase()
}

// ── White space and trimming ────────────────────────────────────────────

/// The characters with the Unicode property White_Space.
pub open spec fn is_space(c: char) -> bool {
    ||| '\u{9}' <= c <= '\u{d}'
    ||| c == ' '
    ||| c == '\u{85}'
    ||| c == '\u{a0}'
    ||| c == '\u{1680}'
    ||| '\u{2000}' <= c <= '\u{200a}'
    ||| c == '\u{2028}'
    ||| c == '\u{2029}'
    ||| c == '\u{202f}'
    ||| c == '\u{205f}'
    ||| c == '\u{3000}'
}

/// Whether a character has the Unicode property White_Space.
pub fn is_whitespace(c: char) -> (r: bool)
    ensures
        r == is_space(c),
{
    ('\u{9}' <= c && c <= '\u{d}') || c == ' ' || c == '\u{85}' || c == '\u{a0}' || c == '\u{1680}'
        || ('\u{2000}' <= c && c <= '\u{200a}') || c == '\u{2028}' || c == '\u{2029}' || c
        == '\u{202f}' || c == '\u{205f}' || c == '\u{3000}'
}

/// `s` without its leading white space.
pub open spec fn trim_start(s: Seq<char>) -> Seq<char>
    decreases s.len(),
{
    if s.len() > 0 && is_space(s[0]) {
        trim_start(s.skip(1))
    } else {
        s
    }
}

/// `s` without its trailing white space.
pub open spec fn trim_end(s: Seq<char>) -> Seq<char>
    decreases s.len(),
{
    if s.len() > 0 && is_space(s.last()) {
        trim_end(s.drop_last())
    } else {
        s
    }
}

/// `s` without white space at either end.
pub open spec fn trim(s: Seq<char>) -> Seq<char> {
    trim_end(trim_start(s))
}

/// Whether `s` neither begins nor ends with white space.
pub open spec fn is_trimmed(s: Seq<char>) -> bool {
    s.len() > 0 ==> !is_space(s[0]) && !is_space(s.last())
}

/// Trimming leaves alone what has no white space at its ends.
pub proof fn lemma_trim_trimmed(s: Seq<char>)
    requires
        is_trimmed(s),
    ensures
        trim(s) == s,
{
}

/// What trimming gives has no white space at its ends.
pub proof fn lemma_trim_is_trimmed(s: Seq<char>)
    ensures
        is_trimmed(trim(s)),
{
    lemma_trim_start(s);
    lemma_trim_end(trim_start(s));
}

proof fn lemma_trim_start(s: Seq<char>)
    ensures
        trim_start(s).len() > 0 ==> !is_space(trim_start(s)[0]),
        trim_start(s).len() <= s.len(),
    decreases s.len(),
{
    if s.len() > 0 && is_space(s[0]) {
        lemma_trim_start(s.skip(1));
    }
}

proof fn lemma_trim_end(s: Seq<char>)
    ensures
        trim_end(s).len() > 0 ==> !is_space(trim_end(s).last()),
        trim_end(s).len() > 0 ==> trim_end(s)[0] == s[0],
        trim_end(s).len() <= s.len(),
    decreases s.len(),
{
    if s.len() > 0 && is_space(s.last()) {
        lemma_trim_end(s.drop_last());
    }
}

/// The bounds of the trimmed text inside `s[lo..hi]`.
pub fn trim_bounds(s: &Vec<char>, lo: usize, hi: usize) -> (r: (usize, usize))
    requires
        lo <= hi <= s@.len(),
    ensures
        lo <= r.0 <= r.1 <= hi,
        s@.subrange(r.0 as int, r.1 as int) == trim(s@.subrange(lo as int, hi as int)),
{
    let ghost whole = s@.subrange(lo as int, hi as int);
    let mut a: usize = lo;
    while a < hi && is_whitespace(s[a])
        invariant
            lo <= a <= hi <= s@.len(),
            whole == s@.subrange(lo as int, hi as int),
            trim_start(s@.subrange(a as int, hi as int)) == trim_start(whole),
        decreases hi - a,
    {
        assert(s@.subrange(a as int, hi as int).skip(1) =~= s@.subrange(a + 1, hi as int));
        a += 1;
    }
    assert(s@.subrange(a as int, hi as int) == trim_start(whole));
    let mut b: usize = hi;
    while a < b && is_whitespace(s[b - 1])
        invariant
            lo <= a <= b <= hi <= s@.len(),
            trim_end(s@.subrange(a as int, b as int)) == trim(whole),
        decreases b,
    {
        assert(s@.subrange(a as int, b as int).drop_last() =~= s@.subrange(a as int, b - 1));
        b -= 1;
    }
    (a, b)
}

/// `s` without white space at either end.
pub fn trimmed(s: &str) -> (r: String)
    ensures
        r@ == trim(s@),
{
    let v = chars_of(s);
    let (a, b) = trim_bounds(&v, 0, v.len());
    assert(v@.subrange(0, v@.len() as int) =~= v@);
    substring_of(&v, a, b)
}

// ── Splitting ───────────────────────────────────────────────────────────

/// The position of the first `c` in `s`, or the length of `s`.
pub open spec fn index_or_len(s: Seq<char>, c: char) -> int
    decreases s.len(),
{
    if s.len() == 0 || s[0] == c {
        0
    } else {
        1 + index_or_len(s.skip(1), c)
    }
}

/// The pieces of `s` between its `c`s: one more piece than there are `c`s.
pub open spec fn split_on(s: Seq<char>, c: char) -> Seq<Seq<char>>
    decreases s.len(),
{
    let i = index_or_len(s, c);
    if 0 <= i < s.len() {
        seq![s.take(i)] + split_on(s.skip(i + 1), c)
    } else {
        seq![s]
    }
}

/// The first `c` is found where nothing before it is one.
pub proof fn lemma_index_or_len(s: Seq<char>, c: char)
    ensures
        0 <= index_or_len(s, c) <= s.len(),
        index_or_len(s, c) < s.len() ==> s[index_or_len(s, c)] == c,
        forall|j: int| 0 <= j < index_or_len(s, c) ==> s[j] != c,
    decreases s.len(),
{
    if s.len() > 0 && s[0] != c {
        lemma_index_or_len(s.skip(1), c);
        let i = index_or_len(s.skip(1), c);
        assert forall|j: int| 0 <= j < i + 1 implies s[j] != c by {
            if j > 0 {
                assert(s.skip(1)[j - 1] == s[j]);
            }
        }
    }
}

/// A position that holds `c` with no `c` before it is the one that is found.
pub proof fn lemma_index_unique(s: Seq<char>, c: char, i: int)
    requires
        0 <= i <= s.len(),
        i < s.len() ==> s[i] == c,
        forall|j: int| 0 <= j < i ==> s[j] != c,
    ensures
        index_or_len(s, c) == i,
{
    lemma_index_or_len(s, c);
    let k = index_or_len(s, c);
    if k < i {
        assert(s[k] == c);
    } else if i < k {
        assert(s[i] == c);
    }
}

/// The views of the strings of a vector.
pub open spec fn views(v: Seq<String>) -> Seq<Seq<char>> {
    v.map_values(|s: String| s@)
}

/// Adding a string to a vector adds its view to the views.
pub proof fn lemma_views_push(v: Seq<String>, s: String)
    ensures
        views(v.push(s)) == views(v).push(s@),
{
    assert(views(v.push(s)) =~= views(v).push(s@));
}

/// The pieces of `s` between its `c`s.
pub fn split_text(s: &str, c: char) -> (r: Vec<String>)
    ensures
        views(r@) == split_on(s@, c),
{
    let v = chars_of(s);
    let mut out: Vec<String> = Vec::new();
    let mut from: usize = 0;
    let mut i: usize = 0;
    assert(v@.skip(0) =~= v@);
    assert(views(out@) =~= Seq::empty());
    assert(views(out@) + split_on(v@.skip(0), c) =~= split_on(s@, c));
    while i < v.len()
        invariant
            v@ == s@,
            from <= i <= v@.len(),
            forall|j: int| from <= j < i ==> v@[j] != c,
            views(out@) + split_on(v@.skip(from as int), c) == split_on(s@, c),
        decreases v@.len() - i,
    {
        if v[i] == c {
            let piece = substring_of(&v, from, i);
            proof {
                let rest = v@.skip(from as int);
                lemma_index_unique(rest, c, i - from);
                assert(rest.take(i - from) =~= piece@);
                assert(rest.skip(i - from + 1) =~= v@.skip(i + 1));
                lemma_views_push(out@, piece);
                assert(views(out@).push(piece@) + split_on(v@.skip(i + 1), c) =~= views(out@) + (
                seq![piece@] + split_on(v@.skip(i + 1), c)));
            }
            out.push(piece);
            from = i + 1;
        }
        i += 1;
    }
    let piece = substring_of(&v, from, i);
    proof {
        let rest = v@.skip(from as int);
        lemma_index_unique(rest, c, rest.len() as int);
        assert(rest =~= piece@);
        lemma_views_push(out@, piece);
        assert(views(out@).push(piece@) =~= views(out@) + seq![piece@]);
    }
    out.push(piece);
    out
}

/// `s` without one trailing carriage return.
pub open spec fn strip_cr(s: Seq<char>) -> Seq<char> {
    if s.len() > 0 && s.last() == '\r' {
        s.drop_last()
    } else {
        s
    }
}

/// The lines of `s`: the pieces that end in a line feed, each without that line feed and
/// without a carriage return just before it, then what is left after the last
/// line feed, if that is not empty.
pub open spec fn lines_of(s: Seq<char>) -> Seq<Seq<char>>
    decreases s.len(),
{
    let i = index_or_len(s, '\n');
    if s.len() == 0 {
        Seq::empty()
    } else if 0 <= i < s.len() {
        seq![strip_cr(s.take(i))] + lines_of(s.skip(i + 1))
    } else {
        seq![s]
    }
}

/// The lines of `s`.
pub fn text_lines(s: &str) -> (r: Vec<String>)
    ensures
        views(r@) == lines_of(s@),
{
    let v = chars_of(s);
    let mut out: Vec<String> = Vec::new();
    let mut from: usize = 0;
    let mut i: usize = 0;
    assert(v@.skip(0) =~= v@);
    assert(views(out@) =~= Seq::empty());
    assert(views(out@) + lines_of(v@.skip(0)) =~= lines_of(s@));
    while i < v.len()
        invariant
            v@ == s@,
            from <= i <= v@.len(),
            forall|j: int| from <= j < i ==> v@[j] != '\n',
            views(out@) + lines_of(v@.skip(from as int)) == lines_of(s@),
        decreases v@.len() - i,
    {
        if v[i] == '\n' {
            let end: usize = if i > from && v[i - 1] == '\r' {
                i - 1
            } else {
                i
            };
            let piece = substring_of(&v, from, end);
            proof {
                let rest = v@.skip(from as int);
                lemma_index_unique(rest, '\n', i - from);
                assert(strip_cr(rest.take(i - from)) =~= piece@);
                assert(rest.skip(i - from + 1) =~= v@.skip(i + 1));
                lemma_views_push(out@, piece);
                assert(views(out@).push(piece@) + lines_of(v@.skip(i + 1)) =~= views(out@) + (
                seq![piece@] + lines_of(v@.skip(i + 1))));
            }
            out.push(piece);
            from = i + 1;
        }
        i += 1;
    }
    if from < v.len() {
        let piece = substring_of(&v, from, i);
        proof {
            let rest = v@.skip(from as int);
            lemma_index_unique(rest, '\n', rest.len() as int);
            assert(rest =~= piece@);
            lemma_views_push(out@, piece);
            assert(views(out@).push(piece@) =~= views(out@) + seq![piece@]);
        }
        out.push(piece);
    } else {
        assert(lines_of(v@.skip(from as int)) =~= Seq::empty());
    }
    out
}

/// The position of the first white space in `s`, or the length of `s`.
pub open spec fn space_or_len(s: Seq<char>) -> int
    decreases s.len(),
{
    if s.len() == 0 || is_space(s[0]) {
        0
    } else {
        1 + space_or_len(s.skip(1))
    }
}

/// The first white space is found where nothing before it is white space.
pub proof fn lemma_space_or_len(s: Seq<char>)
    ensures
        0 <= space_or_len(s) <= s.len(),
        space_or_len(s) < s.len() ==> is_space(s[space_or_len(s)]),
        forall|j: int| 0 <= j < space_or_len(s) ==> !is_space(s[j]),
    decreases s.len(),
{
    if s.len() > 0 && !is_space(s[0]) {
        lemma_space_or_len(s.skip(1));
        let i = space_or_len(s.skip(1));
        assert forall|j: int| 0 <= j < i + 1 implies !is_space(s[j]) by {
            if j > 0 {
                assert(s.skip(1)[j - 1] == s[j]);
            }
        }
    }
}

/// The position of the first white space of `s` at or after `from`, or the
/// length of `s`.
pub fn find_space(s: &Vec<char>, from: usize) -> (r: usize)
    requires
        from <= s@.len(),
    ensures
        from <= r <= s@.len(),
        r - from == space_or_len(s@.skip(from as int)),
{
    let mut i: usize = from;
    while i < s.len() && !is_whitespace(s[i])
        invariant
            from <= i <= s@.len(),
            space_or_len(s@.skip(from as int)) == i - from + space_or_len(s@.skip(i as int)),
        decreases s@.len() - i,
    {
        assert(s@.skip(i as int).skip(1) =~= s@.skip(i + 1));
        i += 1;
    }
    i
}

/// The first word of `s`: what stands before its first white space.
pub open spec fn first_word(s: Seq<char>) -> Seq<char> {
    s.take(space_or_len(s))
}

/// What stands behind the first word of `s` and the white space that follows it.
pub open spec fn after_word(s: Seq<char>) -> Seq<char> {
    trim_start(s.skip(space_or_len(s)))
}

/// The first word of `s` and the one behind it; each is empty where there is
/// none.
pub fn two_words(s: &Vec<char>) -> (r: (String, String))
    ensures
        r.0@ == first_word(s@),
        r.1@ == first_word(after_word(s@)),
{
    let k = find_space(s, 0);
    assert(s@.skip(0) =~= s@);
    let first = substring_of(s, 0, k);
    assert(first@ =~= s@.take(k as int));
    let mut p: usize = k;
    while p < s.len() && is_whitespace(s[p])
        invariant
            k <= p <= s@.len(),
            trim_start(s@.skip(p as int)) == trim_start(s@.skip(k as int)),
        decreases s@.len() - p,
    {
        assert(s@.skip(p as int).skip(1) =~= s@.skip(p + 1));
        p += 1;
    }
    let ghost rest = s@.skip(p as int);
    assert(trim_start(rest) == rest);
    let q = find_space(s, p);
    let second = substring_of(s, p, q);
    assert(second@ =~= rest.take(q - p));
    (first, second)
}

/// A word holds no white space.
pub proof fn lemma_word(s: Seq<char>)
    ensures
        forall|i: int| 0 <= i < first_word(s).len() ==> !is_space(#[trigger] first_word(s)[i]),
        s.len() > 0 && !is_space(s[0]) ==> first_word(s).len() > 0 && first_word(s)[0] == s[0],
{
    lemma_space_or_len(s);
}

// ── Laws ────────────────────────────────────────────────────────────────

/// Of the printable ASCII characters only the blank is white space; the others
/// are five control characters and seventeen characters beyond ASCII.
pub proof fn law_white_space(c: char)
    ensures
        '!' <= c <= '~' ==> !is_space(c),
        c == ' ' || c == '\t' || c == '\n' || c == '\r' ==> is_space(c),
        is_space(c) <==> {
            let n = c as u32;
            n == 32 || 9 <= n <= 13 || n == 0x85 || n == 0xa0 || n == 0x1680 || 0x2000 <= n <= 0x200a
                || n == 0x2028 || n == 0x2029 || n == 0x202f || n == 0x205f || n == 0x3000
        },
{
}

proof fn lemma_trim_start_spaces(pre: Seq<char>, s: Seq<char>)
    requires
        forall|i: int| 0 <= i < pre.len() ==> is_space(#[trigger] pre[i]),
    ensures
        trim_start(pre + s) == trim_start(s),
    decreases pre.len(),
{
    if pre.len() > 0 {
        let rest = pre.skip(1);
        assert forall|i: int| 0 <= i < rest.len() implies is_space(#[trigger] rest[i]) by {
            assert(rest[i] == pre[i + 1]);
        }
        lemma_trim_start_spaces(rest, s);
        assert(is_space(pre[0]));
        assert((pre + s).skip(1) =~= rest + s);
    } else {
        assert(pre + s =~= s);
    }
}

proof fn lemma_trim_end_spaces(s: Seq<char>, post: Seq<char>)
    requires
        forall|i: int| 0 <= i < post.len() ==> is_space(#[trigger] post[i]),
    ensures
        trim_end(s + post) == trim_end(s),
    decreases post.len(),
{
    if post.len() > 0 {
        let rest = post.drop_last();
        assert forall|i: int| 0 <= i < rest.len() implies is_space(#[trigger] rest[i]) by {
            assert(rest[i] == post[i]);
        }
        lemma_trim_end_spaces(s, rest);
        assert(is_space(post[post.len() - 1]));
        assert((s + post).drop_last() =~= s + rest);
    } else {
        assert(s + post =~= s);
    }
}

/// Trimming takes away the white space at both ends, however much there is, and
/// nothing else.
pub proof fn law_trim_strips_white_space(pre: Seq<char>, s: Seq<char>, post: Seq<char>)
    requires
        forall|i: int| 0 <= i < pre.len() ==> is_space(#[trigger] pre[i]),
        forall|i: int| 0 <= i < post.len() ==> is_space(#[trigger] post[i]),
        s.len() > 0 ==> !is_space(s[0]) && !is_space(s.last()),
    ensures
        trim(pre + s + post) == s,
{
    assert(pre + s + post =~= pre + (s + post));
    lemma_trim_start_spaces(pre, s + post);
    if s.len() > 0 {
        assert((s + post)[0] == s[0]);
        assert(trim_start(s + post) == s + post);
        lemma_trim_end_spaces(s, post);
        assert(trim_end(s) == s);
    } else {
        assert(s + post =~= post + Seq::<char>::empty());
        lemma_trim_start_spaces(post, Seq::empty());
        assert(trim(pre + s + post) =~= s);
    }
}

/// A run of characters without white space is the first word of a text that
/// begins with it, if white space or nothing follows; behind it comes what
/// stands after the white space.
pub proof fn law_words(word: Seq<char>, gap: Seq<char>, rest: Seq<char>)
    requires
        forall|i: int| 0 <= i < word.len() ==> !is_space(#[trigger] word[i]),
        forall|i: int| 0 <= i < gap.len() ==> is_space(#[trigger] gap[i]),
        gap.len() == 0 ==> rest.len() == 0,
        rest.len() > 0 ==> !is_space(rest[0]),
    ensures
        first_word(word + gap + rest) == word,
        after_word(word + gap + rest) == rest,
{
    let s = word + gap + rest;
    lemma_space_or_len(s);
    let k = space_or_len(s);
    if k < word.len() {
        assert(s[k] == word[k]);
    }
    if gap.len() > 0 {
        assert(s[word.len() as int] == gap[0]);
    }
    assert(k == word.len());
    assert(s.take(k) =~= word);
    assert(s.skip(k) =~= gap + rest);
    lemma_trim_start_spaces(gap, rest);
}

/// A text is split at each separator: what stands before the first one is the
/// first piece, and the pieces of what follows come after it. A text without a
/// separator is one piece.
pub proof fn law_split_at_separators(a: Seq<char>, c: char, b: Seq<char>)
    requires
        forall|i: int| 0 <= i < a.len() ==> #[trigger] a[i] != c,
    ensures
        split_on(a.push(c) + b, c) == seq![a] + split_on(b, c),
        split_on(a, c) == seq![a],
{
    let s = a.push(c) + b;
    assert forall|j: int| 0 <= j < a.len() implies s[j] != c by {
        assert(s[j] == a[j]);
    }
    lemma_index_unique(s, c, a.len() as int);
    assert(s.take(a.len() as int) =~= a);
    assert(s.skip(a.len() as int + 1) =~= b);
    lemma_index_unique(a, c, a.len() as int);
}

/// A line ends at a line feed, with a carriage return before it or without; the
/// lines of what follows come after it. What stands behind the last line feed is
/// a line if there is anything.
pub proof fn law_lines_end_at_line_feeds(a: Seq<char>, b: Seq<char>)
    requires
        forall|i: int| 0 <= i < a.len() ==> #[trigger] a[i] != '\n',
    ensures
        a.len() == 0 || a.last() != '\r' ==> lines_of(a.push('\n') + b) == seq![a] + lines_of(b),
        lines_of(a.push('\r').push('\n') + b) == seq![a] + lines_of(b),
        a.len() > 0 ==> lines_of(a) == seq![a],
        lines_of(Seq::<char>::empty()) == Seq::<Seq<char>>::empty(),
{
    let s = a.push('\n') + b;
    assert forall|j: int| 0 <= j < a.len() implies s[j] != '\n' by {
        assert(s[j] == a[j]);
    }
    lemma_index_unique(s, '\n', a.len() as int);
    assert(s.take(a.len() as int) =~= a);
    assert(s.skip(a.len() as int + 1) =~= b);
    let r = a.push('\r');
    let t = r.push('\n') + b;
    assert forall|j: int| 0 <= j < r.len() implies t[j] != '\n' by {
        assert(t[j] == r[j]);
    }
    lemma_index_unique(t, '\n', r.len() as int);
    assert(t.take(r.len() as int) =~= r);
    assert(r.drop_last() =~= a);
    assert(t.skip(r.len() as int + 1) =~= b);
    lemma_index_unique(a, '\n', a.len() as int);
}

/// A text begins with a prefix exactly where it is the prefix and something
/// behind it.
pub proof fn law_prefix<T>(s: Seq<T>, prefix: Seq<T>, rest: Seq<T>)
    ensures
        has_prefix(prefix + rest, prefix),
        has_prefix(s, prefix) ==> s == prefix + s.skip(prefix.len() as int),
{
    assert((prefix + rest).take(prefix.len() as int) =~= prefix);
    if has_prefix(s, prefix) {
        assert(s =~= s.take(prefix.len() as int) + s.skip(prefix.len() as int));
    }
}

/// A text holds another one exactly where it is that text with something before
/// it and something behind it.
pub proof fn law_substring(s: Seq<char>, needle: Seq<char>, before: Seq<char>, behind: Seq<char>)
    ensures
        has_substring(before + needle + behind, needle),
        has_substring(s, needle) ==> exists|a: Seq<char>, b: Seq<char>| #[trigger] (a + needle + b) == s,
{
    let t = before + needle + behind;
    let at = before.len() as int;
    assert(t.subrange(at, at + needle.len()) =~= needle);
    assert(occurs_at(t, needle, at));
    if has_substring(s, needle) {
        let p = choose|p: int| occurs_at(s, needle, p);
        let a = s.take(p);
        let b = s.skip(p + needle.len());
        assert(a + needle + b =~= s) by {
            assert forall|i: int| 0 <= i < s.len() implies (a + needle + b)[i] == s[i] by {
                if p <= i < p + needle.len() {
                    assert(s.subrange(p, p + needle.len())[i - p] == needle[i - p]);
                }
            }
        }
    }
}

/// In an ASCII text a change of case touches each letter of the other case, by 32
/// code points, and nothing else.
pub proof fn law_ascii_case(s: Seq<char>, i: int)
    requires
        is_ascii_chars(s),
        0 <= i < s.len(),
    ensures
        lowercase(s).len() == s.len(),
        uppercase(s).len() == s.len(),
        lowercase(s)[i] as u32 == (if 65 <= s[i] as u32 <= 90 {
            s[i] as u32 + 32
        } else {
            s[i] as u32 as int
        }),
        uppercase(s)[i] as u32 == (if 97 <= s[i] as u32 <= 122 {
            s[i] as u32 - 32
        } else {
            s[i] as u32 as int
        }),
{
}

proof fn lemma_trim_end_keeps(a: Seq<char>, b: Seq<char>)
    requires
        a.len() > 0,
        !is_space(a.last()),
    ensures
        trim_end(a + b) == a + trim_end(b),
    decreases b.len(),
{
    if b.len() == 0 {
        assert(a + b =~= a);
        assert(a + trim_end(b) =~= a);
    } else {
        assert((a + b).last() == b.last());
        if is_space(b.last()) {
            assert((a + b).drop_last() =~= a + b.drop_last());
            lemma_trim_end_keeps(a, b.drop_last());
        }
    }
}

proof fn lemma_word_before(word: Seq<char>, rest: Seq<char>)
    requires
        forall|i: int| 0 <= i < word.len() ==> !is_space(#[trigger] word[i]),
        rest.len() > 0 ==> is_space(rest[0]),
    ensures
        first_word(word + rest) == word,
{
    let s = word + rest;
    lemma_space_or_len(s);
    let k = space_or_len(s);
    if k < word.len() {
        assert(s[k] == word[k]);
    }
    if rest.len() > 0 {
        assert(s[word.len() as int] == rest[0]);
    }
    assert(s.take(k) =~= word);
}

/// The words of a line, whatever white space stands before, between and behind
/// them: where a word is followed by another one, and where it stands alone.
pub proof fn law_words_of_line(
    pre: Seq<char>,
    a: Seq<char>,
    gap: Seq<char>,
    b: Seq<char>,
    rest: Seq<char>,
)
    requires
        forall|i: int| 0 <= i < pre.len() ==> is_space(#[trigger] pre[i]),
        forall|i: int| 0 <= i < a.len() ==> !is_space(#[trigger] a[i]),
        forall|i: int| 0 <= i < gap.len() ==> is_space(#[trigger] gap[i]),
        forall|i: int| 0 <= i < b.len() ==> !is_space(#[trigger] b[i]),
        rest.len() > 0 ==> is_space(rest[0]),
        a.len() > 0,
    ensures
        gap.len() > 0 && b.len() > 0 ==> {
            let t = trim(pre + a + gap + b + rest);
            &&& t.len() > 0
            &&& t[0] == a[0]
            &&& first_word(t) == a
            &&& first_word(after_word(t)) == b
        },
        trim(pre + a + gap) == a,
        first_word(a) == a,
        first_word(after_word(a)).len() == 0,
{
    law_trim_strips_white_space(pre, a, gap);
    lemma_word_before(a, Seq::empty());
    assert(a + Seq::<char>::empty() =~= a);
    law_words(a, Seq::empty(), Seq::empty());
    assert(a + Seq::<char>::empty() + Seq::<char>::empty() =~= a);
    assert(first_word(Seq::<char>::empty()).len() == 0);
    if gap.len() > 0 && b.len() > 0 {
        let core = a + gap + b;
        assert(pre + a + gap + b + rest =~= pre + (core + rest));
        lemma_trim_start_spaces(pre, core + rest);
        assert((core + rest)[0] == a[0]);
        assert(trim_start(core + rest) == core + rest);
        assert(core.last() == b.last());
        lemma_trim_end_keeps(core, rest);
        lemma_trim_end(rest);
        let tail = trim_end(rest);
        let t = core + tail;
        assert(t =~= a + gap + (b + tail));
        assert((b + tail)[0] == b[0]);
        law_words(a, gap, b + tail);
        lemma_word_before(b, tail);
    }
}

/// A line whose first visible character is `#` still begins with it when it is
/// trimmed.
pub proof fn lemma_comment(pre: Seq<char>, rest: Seq<char>)
    requires
        forall|i: int| 0 <= i < pre.len() ==> is_space(#[trigger] pre[i]),
    ensures
        trim(pre + seq!['#'] + rest).len() > 0,
        trim(pre + seq!['#'] + rest)[0] == '#',
{
    let s = seq!['#'] + rest;
    assert(pre + seq!['#'] + rest =~= pre + s);
    lemma_trim_start_spaces(pre, s);
    assert(s[0] == '#');
    assert(trim_start(s) == s);
    lemma_trim_end_keeps(seq!['#'], rest);
}

/// The views of strings are their texts, one for each and in order.
pub proof fn law_views(v: Seq<String>, i: int)
    requires
        0 <= i < v.len(),
    ensures
        views(v).len() == v.len(),
        views(v)[i] == v[i]@,
{
}

/// The text of a string is the string itself.
pub proof fn law_into_text(s: String, t: &str)
    ensures
        s.text() == s@,
        t.text() == t@,
{
}

} // verus!
