//! Configuration entry (name-value pair).

use crate::number::ParseText;
use crate::text::{
    after_word, chars_of, first_word, is_space, is_trimmed, join3, law_trim_strips_white_space,
    law_words_of_line, lemma_comment, lemma_space_or_len, lemma_trim_is_trimmed, lemma_trim_trimmed,
    lemma_word, space_or_len, substring_of, trim, trim_bounds, trim_start, two_words, IntoText,
};
use vstd::prelude::*;
use vstd::std_specs::cmp::PartialEqSpec;

verus! {

/// A single configuration entry with a name and optional value.
///
/// Comment lines (starting with `#`) and empty lines hold no entry.
#[derive(Debug)]
pub struct ConfEntry {
    /// The parameter name (e.g., `"PROTOCOL"`, `"PORT"`)
    pub name: String,
    /// The parameter value (e.g., `"TCP"`, `"50000"`)
    /// May be empty if the config line has only a name.
    pub value: String,
}

impl View for ConfEntry {
    type V = (Seq<char>, Seq<char>);

    open spec fn view(&self) -> (Seq<char>, Seq<char>) {
        (self.name@, self.value@)
    }
}

/// The entry that a line holds: its first word is the name and its second one
/// the value, which is empty where there is none. An empty line and a comment
/// hold no entry.
pub open spec fn entry_of_line(line: Seq<char>) -> Option<(Seq<char>, Seq<char>)> {
    let t = trim(line);
    if t.len() == 0 || t[0] == '#' {
        None
    } else {
        Some((first_word(t), first_word(after_word(t))))
    }
}

/// The text of an entry: the name, and the value behind a space if there is
/// one.
pub open spec fn entry_text(entry: (Seq<char>, Seq<char>)) -> Seq<char> {
    if entry.1.len() == 0 {
        entry.0
    } else {
        entry.0 + " "@ + entry.1
    }
}

impl ConfEntry {
    /// Create a new configuration entry.
    pub fn new<N: IntoText, V: IntoText>(name: N, value: V) -> (r: ConfEntry)
        ensures
            r@ == (name.text(), value.text()),
    {
        ConfEntry { name: name.into_text(), value: value.into_text() }
    }

    /// Parse a configuration entry from a single line of text.
    ///
    /// The first whitespace-delimited token is the name, the second is the value.
    /// Leading/trailing whitespace is trimmed. Returns `None` for empty lines
    /// or comment lines (starting with `#`).
    pub fn from_line(line: &str) -> (r: Option<ConfEntry>)
        ensures
            r is Some <==> entry_of_line(line@) is Some,
            r matches Some(entry) ==> entry_of_line(line@) == Some(entry@),
    {
        let v = chars_of(line);
        assert(v@.subrange(0, v@.len() as int) =~= v@);
        let (a, b) = trim_bounds(&v, 0, v.len());
        if a == b || v[a] == '#' {
            return None;
        }
        let t = chars_of(&substring_of(&v, a, b));
        let (name, value) = two_words(&t);
        Some(ConfEntry { name, value })
    }

    /// Get the name as a string reference.
    pub fn name(&self) -> (r: &str)
        ensures
            r@ == self@.0,
    {
        &self.name
    }

    /// Get the value as a string reference.
    pub fn value(&self) -> (r: &str)
        ensures
            r@ == self@.1,
    {
        &self.value
    }

    /// Try to parse the value as a specific type.
    pub fn parse_value<T: ParseText>(&self) -> (r: Option<T>)
        ensures
            match r {
                Some(v) => T::parsed(self@.1) == Some(v@),
                None => T::parsed(self@.1) is None,
            },
    {
        T::parse_text(&self.value)
    }

    /// Get the value, defaulting to the provided value if empty or unparseable.
    pub fn value_or<T: ParseText>(&self, default: T) -> (r: T)
        ensures
            self@.1.len() == 0 || T::parsed(self@.1) is None ==> r == default,
            self@.1.len() > 0 && T::parsed(self@.1) is Some ==> T::parsed(self@.1) == Some(r@),
    {
        if self.value.as_str().is_empty() {
            return default;
        }
        match self.parse_value::<T>() {
            Some(v) => v,
            None => default,
        }
    }

    /// Serialize to "name value" string.
    pub fn to_string(&self) -> (r: String)
        ensures
            r@ == entry_text(self@),
    {
        if self.value.as_str().is_empty() {
            self.name.clone()
        } else {
            join3(&self.name, " ", &self.value)
        }
    }
}

impl Clone for ConfEntry {
    fn clone(&self) -> (r: ConfEntry)
        ensures
            r == *self,
    {
        ConfEntry { name: self.name.clone(), value: self.value.clone() }
    }
}

impl PartialEq for ConfEntry {
    fn eq(&self, other: &ConfEntry) -> (r: bool) {
        self.name == other.name && self.value == other.value
    }
}

impl vstd::std_specs::cmp::PartialEqSpecImpl for ConfEntry {
    open spec fn obeys_eq_spec() -> bool {
        true
    }

    open spec fn eq_spec(&self, other: &ConfEntry) -> bool {
        self@ == other@
    }
}

impl Eq for ConfEntry {

}

/// Whether an entry can stand on a line of its own: neither the name nor the
/// value holds white space, and the name is not empty and does not look like a
/// comment.
pub open spec fn is_plain_entry(entry: (Seq<char>, Seq<char>)) -> bool {
    &&& entry.0.len() > 0
    &&& entry.0[0] != '#'
    &&& forall|i: int| 0 <= i < entry.0.len() ==> !is_space(#[trigger] entry.0[i])
    &&& forall|i: int| 0 <= i < entry.1.len() ==> !is_space(#[trigger] entry.1[i])
}

/// Parsing the text of an entry that can stand on a line gives it back.
pub proof fn law_entry_round_trip(entry: (Seq<char>, Seq<char>))
    requires
        is_plain_entry(entry),
    ensures
        entry_of_line(entry_text(entry)) == Some(entry),
{
    reveal_strlit(" ");
    let (name, value) = entry;
    let s = entry_text(entry);
    assert(is_trimmed(s)) by {
        assert(s[0] == name[0]);
        if value.len() == 0 {
            assert(s.last() == name.last());
        } else {
            assert(s.last() == value.last());
        }
    }
    lemma_trim_trimmed(s);
    lemma_space_or_len(s);
    let k = space_or_len(s);
    if value.len() == 0 {
        if k < s.len() {
            assert(is_space(name[k]));
        }
        assert(s.take(k) =~= name);
        assert(s.skip(k) =~= Seq::empty());
        assert(first_word(after_word(s)) =~= value);
    } else {
        assert(s[name.len() as int] == ' ');
        if k < name.len() {
            assert(s[k] == name[k]);
        } else if k > name.len() {
            assert(is_space(s[name.len() as int]));
        }
        assert(s.take(k) =~= name);
        assert(s.skip(k).skip(1) =~= value);
        assert(trim_start(value) == value);
        assert(after_word(s) == value);
        lemma_space_or_len(value);
        let j = space_or_len(value);
        if j < value.len() {
            assert(is_space(value[j]));
        }
        assert(value.take(j) =~= value);
    }
}

/// The entry of a line holds white space neither in its name nor in its value,
/// so that it can be written out and read again.
pub proof fn law_line_entry_is_plain(line: Seq<char>)
    ensures
        entry_of_line(line) matches Some(entry) ==> is_plain_entry(entry),
{
    let t = trim(line);
    lemma_trim_is_trimmed(line);
    lemma_word(t);
    lemma_word(after_word(t));
}

/// The first two words of a line are the name and the value, whatever white space
/// stands around them and whatever follows; a line with one word has an empty
/// value. Blank lines hold nothing.
pub proof fn law_line_gives_two_words(
    pre: Seq<char>,
    name: Seq<char>,
    gap: Seq<char>,
    value: Seq<char>,
    rest: Seq<char>,
)
    requires
        forall|i: int| 0 <= i < pre.len() ==> is_space(#[trigger] pre[i]),
        forall|i: int| 0 <= i < name.len() ==> !is_space(#[trigger] name[i]),
        forall|i: int| 0 <= i < gap.len() ==> is_space(#[trigger] gap[i]),
        forall|i: int| 0 <= i < value.len() ==> !is_space(#[trigger] value[i]),
        rest.len() > 0 ==> is_space(rest[0]),
        name.len() > 0,
        name[0] != '#',
    ensures
        gap.len() > 0 && value.len() > 0 ==> entry_of_line(pre + name + gap + value + rest) == Some(
            (name, value),
        ),
        entry_of_line(pre + name + gap) == Some((name, Seq::<char>::empty())),
        entry_of_line(pre) is None,
{
    law_words_of_line(pre, name, gap, value, rest);
    assert(first_word(after_word(name)) =~= Seq::<char>::empty());
    law_trim_strips_white_space(pre, Seq::empty(), Seq::empty());
    assert(pre + Seq::<char>::empty() + Seq::<char>::empty() =~= pre);
}

/// A line whose first visible character is `#` holds no entry.
pub proof fn law_comment_holds_nothing(pre: Seq<char>, rest: Seq<char>)
    requires
        forall|i: int| 0 <= i < pre.len() ==> is_space(#[trigger] pre[i]),
    ensures
        entry_of_line(pre + seq!['#'] + rest) is None,
{
    lemma_comment(pre, rest);
}

/// The text of an entry is its name, a blank and its value; the name alone where
/// the value is empty.
pub proof fn law_entry_text(name: Seq<char>, value: Seq<char>)
    ensures
        value.len() > 0 ==> entry_text((name, value)) == name + seq![' '] + value,
        entry_text((name, Seq::<char>::empty())) == name,
{
    reveal_strlit(" ");
    assert(" "@ =~= seq![' ']);
}

/// Two entries are the same where name and value are.
pub proof fn law_same_entry(a: ConfEntry, b: ConfEntry)
    ensures
        ConfEntry::obeys_eq_spec(),
        a.eq_spec(&b) <==> a.name@ == b.name@ && a.value@ == b.value@,
{
}

} // verus!
