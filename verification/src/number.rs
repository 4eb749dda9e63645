//! Numbers as text: decimal and hexadecimal digits, padding, and parsing.

use crate::text::{
    chars_of, is_space, is_trimmed, lemma_trim_trimmed, same_text, string_of, trim, trim_end,
    trim_start,
};
use vstd::prelude::*;

verus! {

// ── Writing numbers ─────────────────────────────────────────────────────

/// The decimal digit for a number below ten.
pub open spec fn digit_char(d: int) -> char {
    if d == 0 { '0' }
    else if d == 1 { '1' }
    else if d == 2 { '2' }
    else if d == 3 { '3' }
    else if d == 4 { '4' }
    else if d == 5 { '5' }
    else if d == 6 { '6' }
    else if d == 7 { '7' }
    else if d == 8 { '8' }
    else { '9' }
}

/// The lower-case hexadecimal digit for a number below sixteen.
pub open spec fn hex_char(d: int) -> char {
    if d < 10 { digit_char(d) }
    else if d == 10 { 'a' }
    else if d == 11 { 'b' }
    else if d == 12 { 'c' }
    else if d == 13 { 'd' }
    else if d == 14 { 'e' }
    else { 'f' }
}

/// A number in decimal, without leading zeros.
pub open spec fn decimal(n: nat) -> Seq<char>
    decreases n,
{
    if n < 10 {
        seq![digit_char(n as int)]
    } else {
        decimal(n / 10).push(digit_char((n % 10) as int))
    }
}

/// A number in lower-case hexadecimal, without leading zeros.
pub open spec fn hexadecimal(n: nat) -> Seq<char>
    decreases n,
{
    if n < 16 {
        seq![hex_char(n as int)]
    } else {
        hexadecimal(n / 16).push(hex_char((n % 16) as int))
    }
}

fn digit_of(d: u64) -> (r: char)
    requires
        d < 16,
    ensures
        r == hex_char(d as int),
{
    match d {
        0 => '0',
        1 => '1',
        2 => '2',
        3 => '3',
        4 => '4',
        5 => '5',
        6 => '6',
        7 => '7',
        8 => '8',
        9 => '9',
        10 => 'a',
        11 => 'b',
        12 => 'c',
        13 => 'd',
        14 => 'e',
        _ => 'f',
    }
}

fn push_decimal(n: u64, out: &mut Vec<char>)
    ensures
        final(out)@ == old(out)@ + decimal(n as nat),
    decreases n,
{
    if n >= 10 {
        push_decimal(n / 10, out);
    }
    out.push(digit_of(n % 10));
    assert(out@ =~= old(out)@ + decimal(n as nat));
}

fn push_hexadecimal(n: u64, out: &mut Vec<char>)
    ensures
        final(out)@ == old(out)@ + hexadecimal(n as nat),
    decreases n,
{
    if n >= 16 {
        push_hexadecimal(n / 16, out);
    }
    out.push(digit_of(n % 16));
    assert(out@ =~= old(out)@ + hexadecimal(n as nat));
}

/// A number in decimal.
pub fn decimal_of(n: u64) -> (r: String)
    ensures
        r@ == decimal(n as nat),
{
    let mut v: Vec<char> = Vec::new();
    push_decimal(n, &mut v);
    assert(v@ =~= decimal(n as nat));
    string_of(v.as_slice())
}

/// `n` times the same character.
pub open spec fn repeated(c: char, n: int) -> Seq<char> {
    Seq::new(if n > 0 { n as nat } else { 0 }, |i: int| c)
}

/// `s` with spaces before it up to the given width.
pub open spec fn right_aligned(s: Seq<char>, width: nat) -> Seq<char> {
    repeated(' ', width - s.len()) + s
}

/// `s` with spaces after it up to the given width.
pub open spec fn left_aligned(s: Seq<char>, width: nat) -> Seq<char> {
    s + repeated(' ', width - s.len())
}

fn spaces_for(s: &str, width: usize) -> (r: String)
    ensures
        r@ == repeated(' ', width - s@.len()),
{
    let len: usize = chars_of(s).len();
    let count: usize = if width > len { width - len } else { 0 };
    let mut out: String = String::new();
    for i in 0..count
        invariant
            out@ == repeated(' ', i as int),
    {
        out.push(' ');
        assert(out@ =~= repeated(' ', i + 1));
    }
    assert(repeated(' ', width - s@.len()) =~= repeated(' ', count as int));
    out
}

/// `s` with spaces before it up to the given width.
pub fn right_aligned_of(s: &str, width: usize) -> (r: String)
    ensures
        r@ == right_aligned(s@, width as nat),
{
    let mut out = spaces_for(s, width);
    out.push_str(s);
    out
}

/// `s` with spaces after it up to the given width.
pub fn left_aligned_of(s: &str, width: usize) -> (r: String)
    ensures
        r@ == left_aligned(s@, width as nat),
{
    let spaces = spaces_for(s, width);
    let mut out: String = s.to_owned();
    out.push_str(&spaces);
    out
}

/// A number in a field of the given width: its decimal digits with spaces after
/// them, or asterisks all over where it has too many digits.
pub open spec fn fixed_field(n: nat, width: nat) -> Seq<char> {
    if decimal(n).len() <= width {
        left_aligned(decimal(n), width)
    } else {
        repeated('*', width as int)
    }
}

/// A number in a field of the given width: its decimal digits with spaces after
/// them, or asterisks all over where it has too many digits.
pub fn fixed_field_of(n: u64, width: usize) -> (r: String)
    ensures
        r@ == fixed_field(n as nat, width as nat),
{
    let digits = decimal_of(n);
    if chars_of(&digits).len() <= width {
        return left_aligned_of(&digits, width);
    }
    let mut out: String = String::new();
    for i in 0..width
        invariant
            out@ == repeated('*', i as int),
    {
        out.push('*');
        assert(out@ =~= repeated('*', i + 1));
    }
    out
}

/// A number in hexadecimal with zeros before it up to the given width.
pub open spec fn hex_padded(n: nat, width: nat) -> Seq<char> {
    repeated('0', width - hexadecimal(n).len()) + hexadecimal(n)
}

/// A number in hexadecimal with zeros before it up to the given width.
pub fn hex_padded_of(n: u64, width: usize) -> (r: String)
    ensures
        r@ == hex_padded(n as nat, width as nat),
{
    let mut digits: Vec<char> = Vec::new();
    push_hexadecimal(n, &mut digits);
    assert(digits@ =~= hexadecimal(n as nat));
    let mut out: Vec<char> = Vec::new();
    let count: usize = if width > digits.len() { width - digits.len() } else { 0 };
    for i in 0..count
        invariant
            out@ == repeated('0', i as int),
    {
        out.push('0');
        assert(out@ =~= repeated('0', i + 1));
    }
    assert(repeated('0', width - digits@.len()) =~= repeated('0', count as int));
    out.append(&mut digits);
    string_of(out.as_slice())
}

// ── Reading numbers ─────────────────────────────────────────────────────

/// Whether a character is an ASCII decimal digit.
pub open spec fn is_digit(c: char) -> bool {
    '0' <= c <= '9'
}

/// The value of an ASCII decimal digit.
pub open spec fn digit_value(c: char) -> nat {
    (c as int - '0' as int) as nat
}

/// The value of a run of decimal digits.
pub open spec fn digits_value(s: Seq<char>) -> nat
    decreases s.len(),
{
    if s.len() == 0 {
        0
    } else {
        digits_value(s.drop_last()) * 10 + digit_value(s.last())
    }
}

/// Whether `s` is one decimal digit or more, and nothing else.
pub open spec fn is_digits(s: Seq<char>) -> bool {
    s.len() > 0 && forall|i: int| 0 <= i < s.len() ==> is_digit(#[trigger] s[i])
}

/// The number of at most `max` that `s` spells: decimal digits, and at most
/// one plus sign before them.
pub open spec fn parse_unsigned(s: Seq<char>, max: nat) -> Option<nat> {
    let d = if s.len() > 0 && s[0] == '+' { s.skip(1) } else { s };
    if is_digits(d) && digits_value(d) <= max {
        Some(digits_value(d))
    } else {
        None
    }
}

/// The number from `min` up to `max` that `s` spells: decimal digits, and at
/// most one sign before them.
pub open spec fn parse_signed(s: Seq<char>, min: int, max: int) -> Option<int> {
    let d = if s.len() > 0 && (s[0] == '+' || s[0] == '-') { s.skip(1) } else { s };
    let v = if s.len() > 0 && s[0] == '-' { -(digits_value(d) as int) } else { digits_value(d) as int };
    if is_digits(d) && min <= v <= max {
        Some(v)
    } else {
        None
    }
}

/// More digits never make a run of digits worth less.
proof fn lemma_value_grows(s: Seq<char>, n: int)
    requires
        0 <= n <= s.len(),
    ensures
        digits_value(s.take(n)) <= digits_value(s),
    decreases s.len() - n,
{
    if n < s.len() {
        lemma_value_grows(s, n + 1);
        assert(s.take(n + 1).drop_last() =~= s.take(n));
    } else {
        assert(s.take(n) =~= s);
    }
}

/// Why a text is not a number.
#[derive(Debug, Clone, Copy, PartialEq, Eq, Structural)]
pub enum NumberError {
    /// There is nothing to read.
    Empty,
    /// Something that is not a digit stands where a digit should.
    InvalidDigit,
    /// The number is above the largest one allowed.
    TooLarge,
}

/// What is wrong with a run of digits that should be a number of at most
/// `max`, looking from position `i` on: the first character that is no digit,
/// or that makes the number too large.
pub open spec fn digits_error(d: Seq<char>, i: int, max: nat) -> NumberError
    decreases d.len() - i,
{
    if i < 0 || i >= d.len() || !is_digit(d[i]) {
        NumberError::InvalidDigit
    } else if digits_value(d.take(i + 1)) > max {
        NumberError::TooLarge
    } else {
        digits_error(d, i + 1, max)
    }
}

/// Why `s` does not spell a number of at most `max`.
pub open spec fn unsigned_error(s: Seq<char>, max: nat) -> NumberError {
    if s.len() == 0 {
        NumberError::Empty
    } else if s[0] == '+' {
        digits_error(s.skip(1), 0, max)
    } else {
        digits_error(s, 0, max)
    }
}

/// The words for what is wrong with a number.
pub open spec fn number_error_text(e: NumberError) -> Seq<char> {
    match e {
        NumberError::Empty => "cannot parse integer from empty string"@,
        NumberError::InvalidDigit => "invalid digit found in string"@,
        NumberError::TooLarge => "number too large to fit in target type"@,
    }
}

impl NumberError {
    /// The words for what is wrong.
    pub fn to_string(&self) -> (r: String)
        ensures
            r@ == number_error_text(*self),
    {
        match self {
            NumberError::Empty => "cannot parse integer from empty string".to_owned(),
            NumberError::InvalidDigit => "invalid digit found in string".to_owned(),
            NumberError::TooLarge => "number too large to fit in target type".to_owned(),
        }
    }
}

fn parse_digits(s: &Vec<char>, from: usize, max: u64) -> (r: Result<u64, NumberError>)
    requires
        from <= s@.len(),
    ensures
        r matches Ok(v) ==> is_digits(s@.skip(from as int)) && v == digits_value(
            s@.skip(from as int),
        ) && v <= max,
        r matches Err(e) ==> (!is_digits(s@.skip(from as int)) || digits_value(s@.skip(from as int))
            > max) && e == digits_error(s@.skip(from as int), 0, max as nat),
{
    let ghost d = s@.skip(from as int);
    if from == s.len() {
        return Err(NumberError::InvalidDigit);
    }
    let mut value: u128 = 0;
    let mut i: usize = from;
    assert(d.take(0) =~= Seq::empty());
    while i < s.len()
        invariant
            from <= i <= s@.len(),
            d == s@.skip(from as int),
            value == digits_value(d.take(i - from)),
            value <= max,
            forall|j: int| 0 <= j < i - from ==> is_digit(#[trigger] d[j]),
            digits_error(d, 0, max as nat) == digits_error(d, i - from, max as nat),
        decreases s@.len() - i,
    {
        let c = s[i];
        if !('0' <= c && c <= '9') {
            assert(!is_digit(d[i - from]));
            return Err(NumberError::InvalidDigit);
        }
        assert(d.take(i - from + 1).drop_last() =~= d.take(i - from));
        value = value * 10 + (c as u128 - '0' as u128);
        proof {
            lemma_value_grows(d, i - from + 1);
        }
        if value > max as u128 {
            return Err(NumberError::TooLarge);
        }
        i += 1;
    }
    assert(d.take(i - from) =~= d);
    Ok(value as u64)
}

/// Reads an unsigned number of at most `max`.
pub fn read_unsigned(s: &str, max: u64) -> (r: Result<u64, NumberError>)
    ensures
        match r {
            Ok(v) => parse_unsigned(s@, max as nat) == Some(v as nat) && v <= max,
            Err(e) => parse_unsigned(s@, max as nat) is None && e == unsigned_error(
                s@,
                max as nat,
            ),
        },
{
    let v = chars_of(s);
    if v.len() == 0 {
        return Err(NumberError::Empty);
    }
    let from: usize = if v[0] == '+' { 1 } else { 0 };
    assert(s@.skip(0) =~= s@);
    parse_digits(&v, from, max)
}

/// Reads an unsigned number of at most `max`.
pub fn parse_unsigned_of(s: &str, max: u64) -> (r: Option<u64>)
    ensures
        r is Some <==> parse_unsigned(s@, max as nat) is Some,
        r matches Some(v) ==> parse_unsigned(s@, max as nat) == Some(v as nat) && v <= max,
{
    match read_unsigned(s, max) {
        Ok(v) => Some(v),
        Err(_) => None,
    }
}

/// Reads a signed number from `min` up to `max`.
pub fn parse_signed_of(s: &str, min: i64, max: i64) -> (r: Option<i64>)
    requires
        min <= 0 <= max,
    ensures
        r is Some <==> parse_signed(s@, min as int, max as int) is Some,
        r matches Some(v) ==> parse_signed(s@, min as int, max as int) == Some(v as int) && min <= v
            <= max,
{
    let v = chars_of(s);
    let negative = v.len() > 0 && v[0] == '-';
    let from: usize = if v.len() > 0 && (v[0] == '+' || v[0] == '-') { 1 } else { 0 };
    assert(s@.skip(0) =~= s@);
    let largest: u64 = if negative { (-(min as i128)) as u64 } else { max as u64 };
    match parse_digits(&v, from, largest) {
        Ok(d) => if negative {
            Some((-(d as i128)) as i64)
        } else {
            Some(d as i64)
        },
        Err(_) => None,
    }
}

/// A type whose values can be read from text.
pub trait ParseText: View + Sized {
    /// The view of the value that `s` spells, if it spells one.
    spec fn parsed(s: Seq<char>) -> Option<Self::V>;

    /// Reads a value from the whole of `s`.
    fn parse_text(s: &str) -> (r: Option<Self>)
        ensures
            match r {
                Some(v) => Self::parsed(s@) == Some(v@),
                None => Self::parsed(s@) is None,
            },
    ;
}

impl ParseText for String {
    open spec fn parsed(s: Seq<char>) -> Option<Seq<char>> {
        Some(s)
    }

    fn parse_text(s: &str) -> (r: Option<String>) {
        Some(s.to_owned())
    }
}

impl ParseText for u8 {
    open spec fn parsed(s: Seq<char>) -> Option<u8> {
        match parse_unsigned(s, u8::MAX as nat) {
            Some(v) => Some(v as u8),
            None => None,
        }
    }

    fn parse_text(s: &str) -> (r: Option<u8>) {
        match parse_unsigned_of(s, u8::MAX as u64) {
            Some(v) => Some(v as u8),
            None => None,
        }
    }
}

impl ParseText for u16 {
    open spec fn parsed(s: Seq<char>) -> Option<u16> {
        match parse_unsigned(s, u16::MAX as nat) {
            Some(v) => Some(v as u16),
            None => None,
        }
    }

    fn parse_text(s: &str) -> (r: Option<u16>) {
        match parse_unsigned_of(s, u16::MAX as u64) {
            Some(v) => Some(v as u16),
            None => None,
        }
    }
}

impl ParseText for u32 {
    open spec fn parsed(s: Seq<char>) -> Option<u32> {
        match parse_unsigned(s, u32::MAX as nat) {
            Some(v) => Some(v as u32),
            None => None,
        }
    }

    fn parse_text(s: &str) -> (r: Option<u32>) {
        match parse_unsigned_of(s, u32::MAX as u64) {
            Some(v) => Some(v as u32),
            None => None,
        }
    }
}

impl ParseText for u64 {
    open spec fn parsed(s: Seq<char>) -> Option<u64> {
        match parse_unsigned(s, u64::MAX as nat) {
            Some(v) => Some(v as u64),
            None => None,
        }
    }

    fn parse_text(s: &str) -> (r: Option<u64>) {
        parse_unsigned_of(s, u64::MAX)
    }
}

impl ParseText for usize {
    open spec fn parsed(s: Seq<char>) -> Option<usize> {
        match parse_unsigned(s, usize::MAX as nat) {
            Some(v) => Some(v as usize),
            None => None,
        }
    }

    fn parse_text(s: &str) -> (r: Option<usize>) {
        match parse_unsigned_of(s, usize::MAX as u64) {
            Some(v) => Some(v as usize),
            None => None,
        }
    }
}

impl ParseText for i32 {
    open spec fn parsed(s: Seq<char>) -> Option<i32> {
        match parse_signed(s, i32::MIN as int, i32::MAX as int) {
            Some(v) => Some(v as i32),
            None => None,
        }
    }

    fn parse_text(s: &str) -> (r: Option<i32>) {
        match parse_signed_of(s, i32::MIN as i64, i32::MAX as i64) {
            Some(v) => Some(v as i32),
            None => None,
        }
    }
}

impl ParseText for i64 {
    open spec fn parsed(s: Seq<char>) -> Option<i64> {
        match parse_signed(s, i64::MIN as int, i64::MAX as int) {
            Some(v) => Some(v as i64),
            None => None,
        }
    }

    fn parse_text(s: &str) -> (r: Option<i64>) {
        parse_signed_of(s, i64::MIN, i64::MAX)
    }
}

impl ParseText for bool {
    open spec fn parsed(s: Seq<char>) -> Option<bool> {
        if s == "true"@ {
            Some(true)
        } else if s == "false"@ {
            Some(false)
        } else {
            None
        }
    }

    fn parse_text(s: &str) -> (r: Option<bool>) {
        if same_text(s, "true") {
            Some(true)
        } else if same_text(s, "false") {
            Some(false)
        } else {
            None
        }
    }
}

// ── What is written can be read ─────────────────────────────────────────

/// A number in decimal is digits that spell that number.
pub proof fn lemma_decimal_digits(n: nat)
    ensures
        is_digits(decimal(n)),
        digits_value(decimal(n)) == n,
    decreases n,
{
    let s = decimal(n);
    if n < 10 {
        assert(s.drop_last() =~= Seq::empty());
        assert(digits_value(s.drop_last()) == 0);
    } else {
        lemma_decimal_digits(n / 10);
        assert(s.drop_last() =~= decimal(n / 10));
        assert forall|i: int| 0 <= i < s.len() implies is_digit(#[trigger] s[i]) by {
            if i < s.len() - 1 {
                assert(decimal(n / 10)[i] == s[i]);
            }
        }
    }
}

/// Reading a number that was written in decimal gives that number back.
pub proof fn law_decimal_round_trip(n: nat, max: nat)
    requires
        n <= max,
    ensures
        parse_unsigned(decimal(n), max) == Some(n),
{
    lemma_decimal_digits(n);
    assert(is_digit(decimal(n)[0]));
}

/// A number takes at most `k` decimal digits exactly where it is below `10^k`.
pub proof fn lemma_decimal_len(n: nat)
    ensures
        decimal(n).len() >= 1,
        n < 10_000 <==> decimal(n).len() <= 4,
        n < 10_000_000 <==> decimal(n).len() <= 7,
        n <= u64::MAX ==> decimal(n).len() <= 20,
{
    reveal_with_fuel(decimal, 21);
}

/// Trimming takes away the spaces that an alignment put around a text.
pub proof fn lemma_trim_aligned(s: Seq<char>, width: nat)
    requires
        is_trimmed(s),
        s.len() > 0,
    ensures
        trim(right_aligned(s, width)) == s,
        trim(left_aligned(s, width)) == s,
{
    lemma_trim_leading(s, width - s.len());
    lemma_trim_trimmed(s);
    lemma_trim_trailing(s, width - s.len());
    let l = left_aligned(s, width);
    assert(l[0] == s[0]);
    assert(trim_start(l) == l);
}

proof fn lemma_trim_leading(s: Seq<char>, n: int)
    requires
        s.len() > 0,
        !is_space(s[0]),
    ensures
        trim_start(repeated(' ', n) + s) == s,
    decreases n,
{
    let t = repeated(' ', n) + s;
    if n > 0 {
        lemma_trim_leading(s, n - 1);
        assert(t.skip(1) =~= repeated(' ', n - 1) + s);
    } else {
        assert(t =~= s);
    }
}

proof fn lemma_trim_trailing(s: Seq<char>, n: int)
    requires
        s.len() > 0,
        !is_space(s.last()),
    ensures
        trim_end(s + repeated(' ', n)) == s,
    decreases n,
{
    let t = s + repeated(' ', n);
    if n > 0 {
        lemma_trim_trailing(s, n - 1);
        assert(t.drop_last() =~= s + repeated(' ', n - 1));
    } else {
        assert(t =~= s);
    }
}

/// A number in decimal or hexadecimal is the number without its last digit, and
/// that digit; it begins with a zero only where it is zero.
pub proof fn law_digits_one_by_one(n: nat, d: nat)
    ensures
        n > 0 && d < 10 ==> decimal(n * 10 + d).len() == decimal(n).len() + 1 && decimal(
            n * 10 + d,
        ).drop_last() == decimal(n) && decimal(n * 10 + d).last() as u32 == 48 + d,
        d < 10 ==> decimal(d).len() == 1 && decimal(d)[0] as u32 == 48 + d,
        n > 0 && d < 16 ==> hexadecimal(n * 16 + d).len() == hexadecimal(n).len() + 1 && hexadecimal(
            n * 16 + d,
        ).drop_last() == hexadecimal(n) && hexadecimal(n * 16 + d).last() as u32 == (if d < 10 {
            48 + d
        } else {
            87 + d
        }),
        d < 16 ==> hexadecimal(d).len() == 1 && hexadecimal(d)[0] as u32 == (if d < 10 {
            48 + d
        } else {
            87 + d
        }),
{
    if n > 0 && d < 10 {
        assert((n * 10 + d) / 10 == n && (n * 10 + d) % 10 == d);
        assert(decimal(n * 10 + d).drop_last() =~= decimal(n));
    }
    if n > 0 && d < 16 {
        assert((n * 16 + d) / 16 == n && (n * 16 + d) % 16 == d);
        assert(hexadecimal(n * 16 + d).drop_last() =~= hexadecimal(n));
    }
}

/// Each further digit multiplies the value by ten and is added.
pub proof fn law_digit_values(s: Seq<char>, c: char)
    requires
        '0' <= c <= '9',
    ensures
        digits_value(s.push(c)) == digits_value(s) * 10 + (c as u32 - 48),
        digits_value(Seq::<char>::empty()) == 0,
{
    assert(s.push(c).drop_last() =~= s);
}

/// What is read as an unsigned number: digits, with a plus sign before them or
/// without, whose value is not too large. Anything else is no number.
pub proof fn law_reads_unsigned(s: Seq<char>, max: nat)
    ensures
        s.len() > 0 && (forall|i: int| 0 <= i < s.len() ==> '0' <= #[trigger] s[i] <= '9') ==> {
            &&& parse_unsigned(s, max) == (if digits_value(s) <= max {
                Some(digits_value(s))
            } else {
                None
            })
            &&& parse_unsigned(seq!['+'] + s, max) == parse_unsigned(s, max)
        },
        s.len() == 0 ==> parse_unsigned(s, max) is None,
        s.len() == 1 && s[0] == '+' ==> parse_unsigned(s, max) is None,
        (exists|i: int| 0 <= i < s.len() && !('0' <= #[trigger] s[i] <= '9') && (i > 0 || s[0] != '+'))
            ==> parse_unsigned(s, max) is None,
{
    if s.len() > 0 && (forall|i: int| 0 <= i < s.len() ==> '0' <= #[trigger] s[i] <= '9') {
        assert('0' <= s[0] <= '9');
        assert((seq!['+'] + s).skip(1) =~= s);
        assert forall|i: int| 0 <= i < s.len() implies is_digit(#[trigger] s[i]) by {}
    }
    if exists|i: int| 0 <= i < s.len() && !('0' <= #[trigger] s[i] <= '9') && (i > 0 || s[0] != '+') {
        let i = choose|i: int|
            0 <= i < s.len() && !('0' <= #[trigger] s[i] <= '9') && (i > 0 || s[0] != '+');
        if s[0] == '+' {
            assert(s.skip(1)[i - 1] == s[i]);
            assert(!is_digit(s.skip(1)[i - 1]));
        } else {
            assert(!is_digit(s[i]));
        }
    }
}

/// What is read as a signed number: digits, with a sign before them or without,
/// whose value with that sign is in range. Anything else is no number.
pub proof fn law_reads_signed(s: Seq<char>, min: int, max: int)
    ensures
        s.len() > 0 && (forall|i: int| 0 <= i < s.len() ==> '0' <= #[trigger] s[i] <= '9') ==> {
            let v = digits_value(s) as int;
            &&& parse_signed(s, min, max) == (if min <= v <= max { Some(v) } else { None })
            &&& parse_signed(seq!['+'] + s, min, max) == parse_signed(s, min, max)
            &&& parse_signed(seq!['-'] + s, min, max) == (if min <= -v <= max {
                Some(-v)
            } else {
                None
            })
        },
        s.len() == 0 ==> parse_signed(s, min, max) is None,
        s.len() == 1 && (s[0] == '+' || s[0] == '-') ==> parse_signed(s, min, max) is None,
        (exists|i: int|
            0 <= i < s.len() && !('0' <= #[trigger] s[i] <= '9') && (i > 0 || (s[0] != '+' && s[0] != '-')))
            ==> parse_signed(s, min, max) is None,
{
    if s.len() > 0 && (forall|i: int| 0 <= i < s.len() ==> '0' <= #[trigger] s[i] <= '9') {
        assert('0' <= s[0] <= '9');
        assert((seq!['+'] + s).skip(1) =~= s);
        assert((seq!['-'] + s).skip(1) =~= s);
        assert forall|i: int| 0 <= i < s.len() implies is_digit(#[trigger] s[i]) by {}
    }
    if exists|i: int|
        0 <= i < s.len() && !('0' <= #[trigger] s[i] <= '9') && (i > 0 || (s[0] != '+' && s[0] != '-')) {
        let i = choose|i: int|
            0 <= i < s.len() && !('0' <= #[trigger] s[i] <= '9') && (i > 0 || (s[0] != '+' && s[0]
                != '-'));
        if s[0] == '+' || s[0] == '-' {
            assert(s.skip(1)[i - 1] == s[i]);
            assert(!is_digit(s.skip(1)[i - 1]));
        } else {
            assert(!is_digit(s[i]));
        }
    }
}

/// Each type reads the numbers of its range, and `bool` the two words.
pub proof fn law_types_read_their_range(s: Seq<char>)
    ensures
        u8::parsed(s) matches Some(v) ==> parse_unsigned(s, 0xff) == Some(v as nat),
        u8::parsed(s) is None ==> parse_unsigned(s, 0xff) is None,
        u16::parsed(s) matches Some(v) ==> parse_unsigned(s, 0xffff) == Some(v as nat),
        u16::parsed(s) is None ==> parse_unsigned(s, 0xffff) is None,
        u32::parsed(s) matches Some(v) ==> parse_unsigned(s, 0xffff_ffff) == Some(v as nat),
        u32::parsed(s) is None ==> parse_unsigned(s, 0xffff_ffff) is None,
        u64::parsed(s) matches Some(v) ==> parse_unsigned(s, 0xffff_ffff_ffff_ffff) == Some(v as nat),
        u64::parsed(s) is None ==> parse_unsigned(s, 0xffff_ffff_ffff_ffff) is None,
        usize::parsed(s) matches Some(v) ==> parse_unsigned(s, usize::MAX as nat) == Some(v as nat),
        usize::parsed(s) is None ==> parse_unsigned(s, usize::MAX as nat) is None,
        i32::parsed(s) matches Some(v) ==> parse_signed(s, -0x8000_0000, 0x7fff_ffff) == Some(v as int),
        i32::parsed(s) is None ==> parse_signed(s, -0x8000_0000, 0x7fff_ffff) is None,
        i64::parsed(s) matches Some(v) ==> parse_signed(
            s,
            -0x8000_0000_0000_0000,
            0x7fff_ffff_ffff_ffff,
        ) == Some(v as int),
        i64::parsed(s) is None ==> parse_signed(
            s,
            -0x8000_0000_0000_0000,
            0x7fff_ffff_ffff_ffff,
        ) is None,
        bool::parsed(s) == Some(true) <==> s == "true"@,
        bool::parsed(s) == Some(false) <==> s == "false"@,
        String::parsed(s) == Some(s),
{
    reveal_strlit("true");
    reveal_strlit("false");
    assert("true"@.len() != "false"@.len());
}

/// Why a text is no number: it is empty; or, reading from the left, a character
/// comes up that is no digit; or before that the number gets too large.
pub proof fn law_number_errors(good: Seq<char>, c: char, rest: Seq<char>, max: nat)
    requires
        forall|i: int| 0 <= i < good.len() ==> '0' <= #[trigger] good[i] <= '9',
        digits_value(good) <= max,
    ensures
        unsigned_error(Seq::<char>::empty(), max) is Empty,
        !('0' <= c <= '9') && (good.len() > 0 || c != '+') ==> unsigned_error(
            good.push(c) + rest,
            max,
        ) is InvalidDigit,
        '0' <= c <= '9' && digits_value(good.push(c)) > max ==> unsigned_error(
            good.push(c) + rest,
            max,
        ) is TooLarge,
{
    let s = good.push(c) + rest;
    if good.len() > 0 {
        assert('0' <= good[0] <= '9');
        assert(s[0] == good[0]);
    } else {
        assert(s[0] == c);
    }
    assert(s.take(good.len() as int) =~= good);
    lemma_digits_error_skips(s, good.len() as int, 0, max, good);
    assert(s[good.len() as int] == c);
    assert(s.take(good.len() as int + 1) =~= good.push(c));
}

proof fn lemma_digits_error_skips(s: Seq<char>, n: int, i: int, max: nat, good: Seq<char>)
    requires
        0 <= i <= n,
        n == good.len(),
        n < s.len(),
        s.take(n) == good,
        forall|j: int| 0 <= j < good.len() ==> '0' <= #[trigger] good[j] <= '9',
        digits_value(good) <= max,
    ensures
        digits_error(s, i, max) == digits_error(s, n, max),
    decreases n - i,
{
    if i < n {
        assert(s.take(n)[i] == s[i]);
        assert('0' <= good[i] <= '9');
        lemma_value_grows(good, i + 1);
        assert(good.take(i + 1) =~= s.take(i + 1));
        lemma_digits_error_skips(s, n, i + 1, max, good);
    }
}

/// An alignment brings a text to the given width with blanks on one side, and
/// cuts nothing off.
pub proof fn law_alignment(s: Seq<char>, width: nat, i: int)
    ensures
        s.len() >= width ==> right_aligned(s, width) == s && left_aligned(s, width) == s,
        s.len() <= width ==> {
            &&& right_aligned(s, width).len() == width
            &&& left_aligned(s, width).len() == width
            &&& right_aligned(s, width).skip(width - s.len()) == s
            &&& left_aligned(s, width).take(s.len() as int) == s
            &&& 0 <= i < width - s.len() ==> right_aligned(s, width)[i] == ' '
            &&& s.len() <= i < width ==> left_aligned(s, width)[i] == ' '
        },
{
    if s.len() <= width {
        assert(right_aligned(s, width).skip(width - s.len()) =~= s);
        assert(left_aligned(s, width).take(s.len() as int) =~= s);
    }
    if s.len() >= width {
        assert(right_aligned(s, width) =~= s);
        assert(left_aligned(s, width) =~= s);
    }
}

/// A field holds the digits of its number on the left, as far as they fit, and
/// then blanks; where they do not fit it holds no digit.
pub proof fn law_fixed_field(n: nat, width: nat, i: int)
    requires
        0 <= i < width,
    ensures
        fixed_field(n, width).len() == width,
        decimal(n).len() <= width && i < decimal(n).len() ==> fixed_field(n, width)[i] == decimal(n)[i],
        decimal(n).len() <= width && i >= decimal(n).len() ==> fixed_field(n, width)[i] == ' ',
        decimal(n).len() > width ==> fixed_field(n, width)[i] == '*',
{
}

/// The three ways in which a text can fail to be a number have their words.
pub proof fn law_number_error_words()
    ensures
        number_error_text(NumberError::Empty) == "cannot parse integer from empty string"@,
        number_error_text(NumberError::InvalidDigit) == "invalid digit found in string"@,
        number_error_text(NumberError::TooLarge) == "number too large to fit in target type"@,
{
}

/// Padding puts zeros before the hexadecimal digits up to the width and cuts
/// nothing off.
pub proof fn law_hex_padding(n: nat, width: nat, i: int)
    ensures
        hexadecimal(n).len() >= width ==> hex_padded(n, width) == hexadecimal(n),
        hexadecimal(n).len() < width ==> hex_padded(n, width).len() == width && hex_padded(
            n,
            width,
        ).skip(width - hexadecimal(n).len()) == hexadecimal(n),
        0 <= i < width - hexadecimal(n).len() ==> hex_padded(n, width)[i] == '0',
{
    if hexadecimal(n).len() >= width {
        assert(hex_padded(n, width) =~= hexadecimal(n));
    } else {
        assert(hex_padded(n, width).skip(width - hexadecimal(n).len()) =~= hexadecimal(n));
    }
}

} // verus!
