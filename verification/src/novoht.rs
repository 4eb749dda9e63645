//! NoVoHT (Non-Volatile Hash Table) storage engine.
//!
//! A hash table in memory that can keep a database file up to date. The file
//! is tab-separated, one entry per line:
//!
//! ```text
//! key1\tvalue1\t
//! key2\tvalue2\t
//! ```
//!
//! A removal is a line that begins with `~`:
//!
//! ```text
//! ~key1\t
//! ```
//!
//! Each change of a persistent table adds one line to its journal, which is
//! to be appended to the file. [`NoVoHT::flush`] gives the whole file anew.

use crate::error::{ErrorView, ZhtError, ZhtResult};
use crate::table::Table;
use crate::text::{
    chars_of, index_or_len, is_space, join3, law_split_at_separators, law_trim_strips_white_space,
    lemma_index_or_len, lemma_index_unique, lemma_trim_trimmed, lemma_views_push, lines_of, same_text, split_on, split_text, substring_of,
    trim, trim_end, trim_start, trimmed, views,
};
use vstd::prelude::*;

verus! {

// ── The database file ───────────────────────────────────────────────────

/// The line of an entry, without its line feed: the key, a tab, the value
/// and a tab.
pub open spec fn entry_line(key: Seq<char>, value: Seq<char>) -> Seq<char> {
    key + "\t"@ + value + "\t"@
}

/// The line of a removal, without its line feed.
pub open spec fn removal_line(key: Seq<char>) -> Seq<char> {
    "~"@ + key + "\t"@
}

/// `value` and then each of `extras` that is not empty, with colons between.
pub open spec fn joined_values(value: Seq<char>, extras: Seq<Seq<char>>) -> Seq<char>
    decreases extras.len(),
{
    if extras.len() == 0 {
        value
    } else {
        let before = joined_values(value, extras.drop_last());
        if extras.last().len() == 0 {
            before
        } else {
            before + ":"@ + extras.last()
        }
    }
}

/// What a line of the file makes of a table. The trimmed line is split at its
/// tabs. A first piece that begins with `~` removes the key behind the `~`.
/// Otherwise the first piece gets the other pieces as its value, with colons
/// between them; a line with one piece alone changes nothing.
pub open spec fn load_line(m: Map<Seq<char>, Seq<char>>, line: Seq<char>) -> Map<
    Seq<char>,
    Seq<char>,
> {
    let t = trim(line);
    let parts = split_on(t, '\t');
    if t.len() == 0 {
        m
    } else if parts[0].len() > 0 && parts[0][0] == '~' {
        m.remove(parts[0].skip(1))
    } else if parts.len() < 2 {
        m
    } else {
        m.insert(parts[0], joined_values(parts[1], parts.skip(2)))
    }
}

/// What the lines of the file, one after the other, make of a table.
pub open spec fn load_lines(m: Map<Seq<char>, Seq<char>>, lines: Seq<Seq<char>>) -> Map<
    Seq<char>,
    Seq<char>,
>
    decreases lines.len(),
{
    if lines.len() == 0 {
        m
    } else {
        load_line(load_lines(m, lines.drop_last()), lines.last())
    }
}

/// The table that a database file holds.
pub open spec fn table_of_file(file: Seq<char>) -> Map<Seq<char>, Seq<char>> {
    load_lines(Map::empty(), lines_of(file))
}

/// The file with one line for each of the keys.
pub open spec fn file_text(keys: Seq<Seq<char>>, m: Map<Seq<char>, Seq<char>>) -> Seq<char>
    decreases keys.len(),
{
    if keys.len() == 0 {
        Seq::empty()
    } else {
        file_text(keys.drop_last(), m) + entry_line(keys.last(), m[keys.last()]).push('\n')
    }
}

/// Whether a compare-and-swap takes place: the key has the expected value, or
/// none.
pub open spec fn swaps(
    m: Map<Seq<char>, Seq<char>>,
    key: Seq<char>,
    expected: Seq<char>,
) -> bool {
    !m.contains_key(key) || m[key] == expected
}

/// The value of `key` after a compare-and-swap: the new value where the swap
/// takes place, and otherwise the value that it has.
pub open spec fn swapped_value(
    m: Map<Seq<char>, Seq<char>>,
    key: Seq<char>,
    expected: Seq<char>,
    new_value: Seq<char>,
) -> Seq<char> {
    if swaps(m, key, expected) {
        new_value
    } else {
        m[key]
    }
}

/// The value of `key` after an append: the old value, a colon and the new
/// value, or the new value alone where there was none.
pub open spec fn appended_value(
    m: Map<Seq<char>, Seq<char>>,
    key: Seq<char>,
    value: Seq<char>,
) -> Seq<char> {
    if m.contains_key(key) {
        m[key] + ":"@ + value
    } else {
        value
    }
}

/// A table and the file that is kept for it, what is recorded for the file
/// included.
pub struct TableFile {
    pub map: Map<Seq<char>, Seq<char>>,
    pub file: Seq<char>,
}

/// What can be done to a persistent table.
pub enum TableCall {
    Put { key: Seq<char>, value: Seq<char> },
    Append { key: Seq<char>, value: Seq<char> },
    Remove { key: Seq<char> },
    CompareSwap { key: Seq<char>, expected: Seq<char>, new_value: Seq<char> },
    /// To rewrite the file, with the keys in the given order.
    Flush { keys: Seq<Seq<char>> },
    /// To forget the table and load it from the file.
    Reload,
}

impl TableFile {
    /// No entry and an empty file.
    pub open spec fn empty() -> TableFile {
        TableFile { map: Map::empty(), file: Seq::empty() }
    }

    /// An entry is set, and its line added to the file.
    pub open spec fn with_entry(self, key: Seq<char>, value: Seq<char>) -> TableFile {
        TableFile {
            map: self.map.insert(key, value),
            file: self.file + entry_line(key, value).push('\n'),
        }
    }

    /// A key is removed, and the removal added to the file.
    pub open spec fn without_key(self, key: Seq<char>) -> TableFile {
        TableFile {
            map: self.map.remove(key),
            file: self.file + removal_line(key).push('\n'),
        }
    }

    /// The table and its file after a call. A call that is refused changes
    /// nothing.
    pub open spec fn after(self, call: TableCall) -> TableFile {
        match call {
            TableCall::Put { key, value } => if key.len() == 0 {
                self
            } else {
                self.with_entry(key, value)
            },
            TableCall::Append { key, value } => if key.len() == 0 {
                self
            } else {
                self.with_entry(key, appended_value(self.map, key, value))
            },
            TableCall::Remove { key } => if self.map.contains_key(key) {
                self.without_key(key)
            } else {
                self
            },
            TableCall::CompareSwap { key, expected, new_value } => self.with_entry(
                key,
                swapped_value(self.map, key, expected, new_value),
            ),
            TableCall::Flush { keys } => TableFile {
                map: self.map,
                file: file_text(keys, self.map),
            },
            TableCall::Reload => TableFile { map: table_of_file(self.file), file: self.file },
        }
    }

    /// The table and its file after calls, one after the other.
    pub open spec fn after_all(self, calls: Seq<TableCall>) -> TableFile
        decreases calls.len(),
    {
        if calls.len() == 0 {
            self
        } else {
            self.after_all(calls.drop_last()).after(calls.last())
        }
    }

    /// Whether a call leaves only what the file can hold: the entry that it sets
    /// can stand there, or the removal that it records; a flush writes the keys
    /// of the table.
    pub open spec fn can_hold(self, call: TableCall) -> bool {
        match call {
            TableCall::Put { key, value } => key.len() > 0 ==> storable_key(key) && storable_value(
                value,
            ),
            TableCall::Append { key, value } => key.len() > 0 ==> storable_key(key)
                && storable_value(appended_value(self.map, key, value)),
            TableCall::Remove { key } => self.map.contains_key(key) ==> removable_key(key),
            TableCall::CompareSwap { key, expected, new_value } => storable_key(key)
                && storable_value(swapped_value(self.map, key, expected, new_value)),
            TableCall::Flush { keys } => keys.to_set() == self.map.dom(),
            TableCall::Reload => true,
        }
    }

    /// Whether each of the calls, one after the other, leaves only what the file
    /// can hold.
    pub open spec fn can_hold_all(self, calls: Seq<TableCall>) -> bool
        decreases calls.len(),
    {
        calls.len() > 0 ==> {
            &&& self.can_hold_all(calls.drop_last())
            &&& self.after_all(calls.drop_last()).can_hold(calls.last())
        }
    }

    /// The file is made of whole lines and holds the table, whose entries can
    /// all stand in a file.
    pub open spec fn is_faithful(self) -> bool {
        &&& whole_lines(self.file)
        &&& table_of_file(self.file) == self.map
        &&& forall|k: Seq<char>| #[trigger]
            self.map.contains_key(k) ==> storable_key(k) && storable_value(self.map[k])
    }
}

/// Non-Volatile Hash Table: a key-value store in memory, with a journal of
/// its changes where it is persistent.
pub struct NoVoHT {
    map: Table<String>,
    db_path: String,
    persistent: bool,
    journal: String,
}

impl View for NoVoHT {
    type V = Map<Seq<char>, Seq<char>>;

    closed spec fn view(&self) -> Map<Seq<char>, Seq<char>> {
        self.map@.map_values(|s: String| s@)
    }
}

impl NoVoHT {
    /// The table in memory is well-formed, and a table that is not persistent
    /// keeps no journal.
    pub closed spec fn wf(&self) -> bool {
        &&& self.map.wf()
        &&& !self.persistent ==> self.journal@.len() == 0
    }

    /// The keys in the order in which they are listed and written.
    pub closed spec fn order(&self) -> Seq<Seq<char>> {
        self.map.order()
    }

    /// The path of the database file.
    pub closed spec fn path(&self) -> Seq<char> {
        self.db_path@
    }

    /// Whether changes are recorded for a database file.
    pub closed spec fn is_persistent_spec(&self) -> bool {
        self.persistent
    }

    /// The lines that are not yet appended to the database file.
    pub closed spec fn pending(&self) -> Seq<char> {
        self.journal@
    }

    /// The journal with one more line, or the empty journal of a table that is
    /// not persistent.
    pub open spec fn pending_with(&self, line: Seq<char>) -> Seq<char> {
        if self.is_persistent_spec() {
            self.pending() + line.push('\n')
        } else {
            self.pending()
        }
    }

    /// The journal with more lines, one after the other.
    pub open spec fn pending_after(&self, lines: Seq<Seq<char>>) -> Seq<char>
        decreases lines.len(),
    {
        if lines.len() == 0 || !self.is_persistent_spec() {
            self.pending()
        } else {
            self.pending_after(lines.drop_last()) + lines.last().push('\n')
        }
    }

    /// The parts of a table that no operation on entries changes.
    pub open spec fn same_file(&self, other: &NoVoHT) -> bool {
        self.path() == other.path() && self.is_persistent_spec() == other.is_persistent_spec()
    }

    /// The table and its file, given what was written to the file so far.
    pub open spec fn on_file(&self, written: Seq<char>) -> TableFile {
        TableFile { map: self@, file: written + self.pending() }
    }

    /// Whether a persistent table and its file are as they were with a call
    /// made, whatever was written to the file so far.
    pub open spec fn is_after(&self, before: &NoVoHT, call: TableCall) -> bool {
        self.is_persistent_spec() ==> forall|written: Seq<char>| #[trigger]
            self.on_file(written) == before.on_file(written).after(call)
    }

    /// Whether a file of whole lines holds the table, once the journal is
    /// appended to it.
    pub open spec fn is_current(&self, file: Seq<char>) -> bool {
        &&& whole_lines(file + self.pending())
        &&& table_of_file(file + self.pending()) == self@
    }

    /// The listed keys are the keys of the table, each once.
    pub proof fn lemma_order(&self)
        requires
            self.wf(),
        ensures
            self.order().no_duplicates(),
            self.order().to_set() == self@.dom(),
            forall|i: int| 0 <= i < self.order().len() ==> self@.contains_key(#[trigger] self.order()[i]),
            self@.dom().finite(),
            self@.dom().len() == self.order().len(),
    {
        self.map.lemma_order();
        assert(self@.dom() =~= self.map@.dom());
    }

    /// Create a new in-memory NoVoHT (no persistence).
    pub fn new() -> (r: NoVoHT)
        ensures
            r.wf(),
            r@ == Map::<Seq<char>, Seq<char>>::empty(),
            !r.is_persistent_spec(),
            r.path() == Seq::<char>::empty(),
            r.pending() == Seq::<char>::empty(),
    {
        let r = NoVoHT {
            map: Table::new(),
            db_path: String::new(),
            persistent: false,
            journal: String::new(),
        };
        assert(r@ =~= Map::<Seq<char>, Seq<char>>::empty());
        r
    }

    /// Create a NoVoHT for the database file at `db_path`, whose lines are
    /// given: none where the file is new.
    ///
    /// The file should then be rewritten from [`NoVoHT::flush`], which strips
    /// its removals.
    pub fn with_persistence(db_path: &str, lines: &Vec<String>) -> (r: NoVoHT)
        ensures
            r.wf(),
            r@ == load_lines(Map::empty(), views(lines@)),
            r.is_persistent_spec(),
            r.path() == db_path@,
            r.pending() == Seq::<char>::empty(),            forall|t: TableFile|
                lines_of(t.file) == views(lines@) ==> r.on_file(t.file) == #[trigger] t.after(
                    TableCall::Reload,
                ),
    {
        let mut r = NoVoHT {
            map: Table::new(),
            db_path: db_path.to_owned(),
            persistent: true,
            journal: String::new(),
        };
        assert(r@ =~= Map::<Seq<char>, Seq<char>>::empty());
        r.read_file_lines(lines);
        assert forall|t: TableFile| lines_of(t.file) == views(lines@) implies r.on_file(t.file)
            == #[trigger] t.after(TableCall::Reload) by {
            assert(t.file + r.pending() =~= t.file);
        }
        r
    }

    /// Whether changes are recorded for a database file.
    pub fn is_persistent(&self) -> (r: bool)
        ensures
            r == self.is_persistent_spec(),
    {
        self.persistent
    }

    /// The path of the database file, empty where there is none.
    pub fn db_path(&self) -> (r: &str)
        ensures
            r@ == self.path(),
    {
        &self.db_path
    }

    /// Takes the lines that are to be appended to the database file.
    pub fn take_journal(&mut self) -> (r: String)
        requires
            old(self).wf(),
        ensures
            final(self).wf(),
            r@ == old(self).pending(),
            final(self).pending() == Seq::<char>::empty(),
            final(self)@ == old(self)@,
            final(self).order() == old(self).order(),
            final(self).same_file(old(self)),
            forall|written: Seq<char>| #[trigger]
                final(self).on_file(written + r@) == old(self).on_file(written),
    {
        let mut out: String = String::new();
        std::mem::swap(&mut out, &mut self.journal);
        assert forall|written: Seq<char>| #[trigger]
            self.on_file(written + out@) == old(self).on_file(written) by {
            assert(written + out@ + self.pending() =~= written + old(self).pending());
        }
        out
    }

    fn record(&mut self, line: String)
        requires
            old(self).wf(),
        ensures
            final(self).wf(),
            final(self)@ == old(self)@,
            final(self).order() == old(self).order(),
            final(self).pending() == old(self).pending_with(line@),
            final(self).same_file(old(self)),
    {
        if self.persistent {
            self.journal.push_str(&line);
            self.journal.push('\n');
            assert(self.journal@ =~= old(self).journal@ + line@.push('\n'));
        }
    }

    fn set_value(&mut self, key: &str, value: String)
        requires
            old(self).wf(),
        ensures
            final(self).wf(),
            final(self)@ == old(self)@.insert(key@, value@),
            final(self).pending() == old(self).pending_with(entry_line(key@, value@)),
            final(self).same_file(old(self)),
            old(self).is_persistent_spec() ==> forall|written: Seq<char>| #[trigger]
                final(self).on_file(written) == old(self).on_file(written).with_entry(key@, value@),
    {
        let mut line = join3(key, "\t", &value);
        line.push_str("\t");
        self.map.insert(key.to_owned(), value);
        assert(self@ =~= old(self)@.insert(key@, value@));
        self.record(line);
        proof {
            lemma_recorded(self, old(self), entry_line(key@, value@));
        }
    }

    /// Insert or update a key-value pair.
    ///
    /// An empty key is refused with `EmptyKey`.
    pub fn put(&mut self, key: &str, value: &str) -> (r: ZhtResult<()>)
        requires
            old(self).wf(),
        ensures
            final(self).wf(),
            final(self).same_file(old(self)),
            key@.len() == 0 ==> {
                &&& r matches Err(e) && e@ == ErrorView::EmptyKey
                &&& *final(self) == *old(self)
            },
            key@.len() > 0 ==> {
                &&& r is Ok
                &&& final(self)@ == old(self)@.insert(key@, value@)
                &&& final(self).pending() == old(self).pending_with(entry_line(key@, value@))
            },
            final(self).is_after(old(self), TableCall::Put { key: key@, value: value@ }),
    {
        if key.is_empty() {
            return Err(ZhtError::EmptyKey);
        }
        self.set_value(key, value.to_owned());
        Ok(())
    }

    /// Look up a value by key.
    ///
    /// A key that is not there is refused with `KeyNotFound`.
    pub fn get(&self, key: &str) -> (r: ZhtResult<String>)
        requires
            self.wf(),
        ensures
            r is Ok <==> self@.contains_key(key@),
            r matches Ok(v) ==> v@ == self@[key@],
            r matches Err(e) ==> e@ == ErrorView::KeyNotFound(key@),
    {
        match self.map.get(key) {
            Some(v) => Ok(v.clone()),
            None => Err(ZhtError::KeyNotFound(key.to_owned())),
        }
    }

    /// Check if a key exists in the hash table.
    pub fn contains(&self, key: &str) -> (r: bool)
        ensures
            r == self@.contains_key(key@),
    {
        self.map.contains(key)
    }

    /// Remove a key from the hash table.
    ///
    /// A key that is not there is refused with `KeyNotFound`.
    pub fn remove(&mut self, key: &str) -> (r: ZhtResult<()>)
        requires
            old(self).wf(),
        ensures
            final(self).wf(),
            final(self).same_file(old(self)),
            r is Ok <==> old(self)@.contains_key(key@),
            r is Ok ==> {
                &&& final(self)@ == old(self)@.remove(key@)
                &&& final(self).pending() == old(self).pending_with(removal_line(key@))
            },
            r matches Err(e) ==> {
                &&& e@ == ErrorView::KeyNotFound(key@)
                &&& *final(self) == *old(self)
            },
            final(self).is_after(old(self), TableCall::Remove { key: key@ }),
    {
        if !self.map.contains(key) {
            return Err(ZhtError::KeyNotFound(key.to_owned()));
        }
        let _ = self.map.remove(key);
        assert(self@ =~= old(self)@.remove(key@));
        self.record(join3("~", key, "\t"));
        proof {
            lemma_recorded(self, old(self), removal_line(key@));
        }
        Ok(())
    }

    /// Append a value to an existing key, with `":"` between the old value and
    /// the new one. A key that is not there is created with the given value.
    ///
    /// An empty key is refused with `EmptyKey`.
    pub fn append(&mut self, key: &str, value: &str) -> (r: ZhtResult<()>)
        requires
            old(self).wf(),
        ensures
            final(self).wf(),
            final(self).same_file(old(self)),
            key@.len() == 0 ==> {
                &&& r matches Err(e) && e@ == ErrorView::EmptyKey
                &&& *final(self) == *old(self)
            },
            key@.len() > 0 ==> {
                let v = appended_value(old(self)@, key@, value@);
                &&& r is Ok
                &&& final(self)@ == old(self)@.insert(key@, v)
                &&& final(self).pending() == old(self).pending_with(entry_line(key@, v))
            },
            final(self).is_after(old(self), TableCall::Append { key: key@, value: value@ }),
            key@.len() > 0 ==> {
                &&& final(self)@.contains_key(key@)
                &&& !old(self)@.contains_key(key@) ==> final(self)@[key@] == value@
                &&& old(self)@.contains_key(key@) ==> final(self)@[key@] == old(self)@[key@] + seq![':']
                    + value@
                &&& forall|other: Seq<char>|
                    other != key@ ==> #[trigger] final(self)@.contains_key(other)
                        == old(self)@.contains_key(other)
                &&& forall|other: Seq<char>|
                    other != key@ && old(self)@.contains_key(other) ==> #[trigger] final(self)@[other]
                        == old(self)@[other]
            },
    {
        proof {
            law_append_keeps_both(self@, key@, value@);
        }
        if key.is_empty() {
            return Err(ZhtError::EmptyKey);
        }
        let new_value = match self.map.get(key) {
            Some(existing) => join3(existing, ":", value),
            None => value.to_owned(),
        };
        self.set_value(key, new_value);
        Ok(())
    }

    /// Atomic compare-and-swap operation.
    ///
    /// If the current value of `key` matches `expected`, or the key has none,
    /// it is given `new_value`. Otherwise, the value is left unchanged.
    /// **Always returns `Ok(actual_value)`**: the value that is in the map
    /// after the operation.
    pub fn compare_swap(&mut self, key: &str, expected: &str, new_value: &str) -> (r: ZhtResult<
        String,
    >)
        requires
            old(self).wf(),
        ensures
            final(self).wf(),
            final(self).same_file(old(self)),
            ({
                let v = swapped_value(old(self)@, key@, expected@, new_value@);
                &&& r matches Ok(actual) && actual@ == v
                &&& final(self)@ == old(self)@.insert(key@, v)
                &&& final(self).pending() == old(self).pending_with(entry_line(key@, v))
            }),
            final(self).is_after(
                old(self),
                TableCall::CompareSwap { key: key@, expected: expected@, new_value: new_value@ },
            ),
            !old(self)@.contains_key(key@) || old(self)@[key@] == expected@ ==> {
                &&& final(self)@ == old(self)@.insert(key@, new_value@)
                &&& r matches Ok(actual) && actual@ == new_value@
            },
            old(self)@.contains_key(key@) && old(self)@[key@] != expected@ ==> {
                &&& final(self)@ == old(self)@
                &&& r matches Ok(actual) && actual@ == old(self)@[key@]
            },
    {
        proof {
            law_swap_or_unchanged(self@, key@, expected@, new_value@);
        }
        let actual = match self.map.get(key) {
            Some(current) => if same_text(current, expected) {
                new_value.to_owned()
            } else {
                current.clone()
            },
            None => new_value.to_owned(),
        };
        self.set_value(key, actual.clone());
        Ok(actual)
    }

    /// Number of elements in the hash table.
    pub fn len(&self) -> (r: usize)
        requires
            self.wf(),
        ensures
            self@.dom().finite(),
            r == self@.dom().len(),
    {
        assert(self@.dom() =~= self.map@.dom());
        self.map.len()
    }

    /// Check if the hash table is empty.
    pub fn is_empty(&self) -> (r: bool)
        requires
            self.wf(),
        ensures
            r == (self@.dom() == Set::<Seq<char>>::empty()),
    {
        proof {
            self.lemma_order();
            if self@.dom().len() == 0 {
                assert(self@.dom() =~= Set::<Seq<char>>::empty());
            }
        }
        self.len() == 0
    }

    /// Get all keys in the hash table.
    pub fn keys(&self) -> (r: Vec<String>)
        requires
            self.wf(),
        ensures
            views(r@) == self.order(),
    {
        let mut out: Vec<String> = Vec::new();
        let n: usize = self.map.len();
        for i in 0..n
            invariant
                self.wf(),
                n == self.order().len(),
                views(out@) == self.order().take(i as int),
        {
            let key = self.map.key_at(i).clone();
            proof {
                lemma_views_push(out@, key);
                assert(self.order().take(i + 1) =~= self.order().take(i as int).push(key@));
            }
            out.push(key);
        }
        assert(self.order().take(self.order().len() as int) =~= self.order());
        out
    }

    /// Get all key-value pairs in the hash table.
    pub fn entries(&self) -> (r: Vec<(String, String)>)
        requires
            self.wf(),
        ensures
            r@.len() == self.order().len(),
            forall|i: int|
                0 <= i < r@.len() ==> (#[trigger] r@[i]).0@ == self.order()[i] && r@[i].1@
                    == self@[self.order()[i]],
    {
        let mut out: Vec<(String, String)> = Vec::new();
        proof {
            self.lemma_order();
        }
        let n: usize = self.map.len();
        for i in 0..n
            invariant
                self.wf(),
                n == self.order().len(),
                out@.len() == i,
                forall|j: int| 0 <= j < self.order().len() ==> self@.contains_key(#[trigger] self.order()[j]),
                forall|j: int|
                    0 <= j < i ==> (#[trigger] out@[j]).0@ == self.order()[j] && out@[j].1@
                        == self@[self.order()[j]],
        {
            assert(self@.contains_key(self.order()[i as int]));
            out.push((self.map.key_at(i).clone(), self.map.value_at(i).clone()));
        }
        out
    }

    /// The contents that the database file is to be rewritten with, or `None`
    /// where the table is not persistent.
    ///
    /// A clean rewrite: one line for each entry, and no removals. It takes the
    /// place of what the journal still held.
    pub fn flush(&mut self) -> (r: Option<String>)
        requires
            old(self).wf(),
        ensures
            final(self).wf(),
            final(self)@ == old(self)@,
            final(self).order() == old(self).order(),
            final(self).same_file(old(self)),
            final(self).pending() == Seq::<char>::empty(),
            r is Some <==> old(self).is_persistent_spec(),
            r matches Some(text) ==> text@ == file_text(old(self).order(), old(self)@),
            r matches Some(text) ==> forall|written: Seq<char>|
                final(self).on_file(text@) == (#[trigger] old(self).on_file(written)).after(
                    TableCall::Flush { keys: old(self).order() },
                ),
    {
        let _ = self.take_journal();
        if !self.persistent {
            return None;
        }
        let mut out: String = String::new();
        proof {
            self.lemma_order();
        }
        let n: usize = self.map.len();
        for i in 0..n
            invariant
                self.wf(),
                n == self.order().len(),
                out@ == file_text(self.order().take(i as int), self@),
                forall|j: int| 0 <= j < self.order().len() ==> self@.contains_key(#[trigger] self.order()[j]),
        {
            let ghost before = out@;
            let ghost keys = self.order().take(i + 1);
            assert(self@.contains_key(self.order()[i as int]));
            let key = self.map.key_at(i);
            let value = self.map.value_at(i);
            out.push_str(key);
            out.push_str("\t");
            out.push_str(value);
            out.push_str("\t");
            out.push('\n');
            assert(keys.drop_last() =~= self.order().take(i as int));
            assert(out@ =~= before + entry_line(key@, value@).push('\n'));
        }
        assert(self.order().take(self.order().len() as int) =~= self.order());
        assert(out@ + self.pending() =~= out@);
        Some(out)
    }

    /// Lays the lines of a database file over what is already in the table.
    fn read_file_lines(&mut self, lines: &Vec<String>)
        requires
            old(self).wf(),
        ensures
            final(self).wf(),
            final(self)@ == load_lines(old(self)@, views(lines@)),
            final(self).same_file(old(self)),
            final(self).pending() == old(self).pending(),
    {
        let mut i: usize = 0;
        assert(views(lines@).take(0) =~= Seq::empty());
        while i < lines.len()
            invariant
                i <= lines@.len(),
                self.wf(),
                self@ == load_lines(old(self)@, views(lines@).take(i as int)),
                self.same_file(old(self)),
                self.pending() == old(self).pending(),
            decreases lines@.len() - i,
        {
            assert(views(lines@).take(i + 1).drop_last() =~= views(lines@).take(i as int));
            self.read_line(&lines[i]);
            i += 1;
        }
        assert(views(lines@).take(i as int) =~= views(lines@));
    }

    /// Lays one line of a database file over the table.
    fn read_line(&mut self, line: &str)
        requires
            old(self).wf(),
        ensures
            final(self).wf(),
            final(self)@ == load_line(old(self)@, line@),
            final(self).same_file(old(self)),
            final(self).pending() == old(self).pending(),
    {
        let t = trimmed(line);
        if t.as_str().is_empty() {
            return ;
        }
        let parts = split_text(&t, '\t');
        proof {
            assert(views(parts@).len() > 0);
            assert(views(parts@)[0] == parts@[0]@);
        }
        let first = chars_of(&parts[0]);
        if first.len() > 0 && first[0] == '~' {
            let key = substring_of(&first, 1, first.len());
            assert(key@ =~= parts@[0]@.skip(1));
            let _ = self.map.remove(&key);
            assert(self@ =~= old(self)@.remove(key@));
            return ;
        }
        if parts.len() < 2 {
            return ;
        }
        let mut value = parts[1].clone();
        let ghost extras = views(parts@).skip(2);
        let mut i: usize = 2;
        assert(extras.take(0) =~= Seq::empty());
        while i < parts.len()
            invariant
                2 <= i <= parts@.len(),
                extras == views(parts@).skip(2),
                value@ == joined_values(parts@[1]@, extras.take(i - 2)),
            decreases parts@.len() - i,
        {
            assert(extras.take(i - 1).drop_last() =~= extras.take(i - 2));
            assert(extras[i - 2] == parts@[i as int]@);
            if !parts[i].as_str().is_empty() {
                value.push_str(":");
                value.push_str(&parts[i]);
            }
            i += 1;
        }
        assert(extras.take(i - 2) =~= extras);
        let ghost v = value@;
        self.map.insert(parts[0].clone(), value);
        assert(self@ =~= old(self)@.insert(parts@[0]@, v));
    }
}

impl Default for NoVoHT {
    fn default() -> (r: NoVoHT)
        ensures
            r.wf(),
            r@ == Map::<Seq<char>, Seq<char>>::empty(),
            !r.is_persistent_spec(),
            r.pending() == Seq::<char>::empty(),
    {
        NoVoHT::new()
    }
}

/// A line that was recorded stands behind whatever the file held.
proof fn lemma_recorded(after: &NoVoHT, before: &NoVoHT, line: Seq<char>)
    requires
        before.is_persistent_spec() ==> after.pending() == before.pending() + line.push('\n'),
    ensures
        before.is_persistent_spec() ==> forall|written: Seq<char>| (#[trigger] after.on_file(
            written,
        )).file == before.on_file(written).file + line.push('\n'),
{
    if before.is_persistent_spec() {
        assert forall|written: Seq<char>| (#[trigger] after.on_file(written)).file
            == before.on_file(written).file + line.push('\n') by {
            assert(written + after.pending() =~= written + before.pending() + line.push('\n'));
        }
    }
}

// ── What is written can be read ─────────────────────────────────────────

/// Whether a key can stand in the file: it is not empty, holds neither tab nor
/// line feed, and begins neither with white space nor with the mark of a
/// removal.
pub open spec fn storable_key(key: Seq<char>) -> bool {
    &&& key.len() > 0
    &&& key[0] != '~'
    &&& !is_space(key[0])
    &&& forall|i: int| 0 <= i < key.len() ==> #[trigger] key[i] != '\t' && key[i] != '\n'
}

/// Whether a value can stand in the file: it is not empty, holds neither tab
/// nor line feed, and does not end with white space.
pub open spec fn storable_value(value: Seq<char>) -> bool {
    &&& value.len() > 0
    &&& !is_space(value.last())
    &&& forall|i: int| 0 <= i < value.len() ==> #[trigger] value[i] != '\t' && value[i] != '\n'
}

/// Whether a removal of the key can stand in the file: the key holds neither
/// tab nor line feed and does not end with white space.
pub open spec fn removable_key(key: Seq<char>) -> bool {
    &&& key.len() > 0
    &&& !is_space(key.last())
    &&& forall|i: int| 0 <= i < key.len() ==> #[trigger] key[i] != '\t' && key[i] != '\n'
}

/// Whether a text is made of whole lines.
pub open spec fn whole_lines(file: Seq<char>) -> bool {
    file.len() > 0 ==> file.last() == '\n'
}

/// Reading the line of an entry sets that entry.
pub proof fn law_entry_line_sets(m: Map<Seq<char>, Seq<char>>, key: Seq<char>, value: Seq<char>)
    requires
        storable_key(key),
        storable_value(value),
    ensures
        load_line(m, entry_line(key, value)) == m.insert(key, value),
{
    reveal_strlit("\t");
    let line = entry_line(key, value);
    let t = key.push('\t') + value;
    assert(trim(line) == t) by {
        assert(line[0] == key[0]);
        assert(line.last() == '\t');
        assert(line.drop_last() =~= t);
        assert(t.last() == value.last());
        lemma_trim_trimmed(t);
        assert(trim_start(line) == line);
        assert(trim_end(line) == trim_end(t));
    }
    lemma_index_unique(t, '\t', key.len() as int);
    assert(t.take(key.len() as int) =~= key);
    assert(t.skip(key.len() as int + 1) =~= value);
    lemma_index_unique(value, '\t', value.len() as int);
    let parts = split_on(t, '\t');
    assert(split_on(value, '\t') =~= seq![value]);
    assert(parts =~= seq![key, value]);
    assert(parts.skip(2) =~= Seq::empty());
}

/// Reading the line of a removal takes the key out.
pub proof fn law_removal_line_removes(m: Map<Seq<char>, Seq<char>>, key: Seq<char>)
    requires
        removable_key(key),
    ensures
        load_line(m, removal_line(key)) == m.remove(key),
{
    reveal_strlit("\t");
    reveal_strlit("~");
    let line = removal_line(key);
    let t = seq!['~'] + key;
    assert(trim(line) == t) by {
        assert(line[0] == '~');
        assert(line.last() == '\t');
        assert(line.drop_last() =~= t);
        assert(t.last() == key.last());
        lemma_trim_trimmed(t);
        assert(trim_start(line) == line);
        assert(trim_end(line) == trim_end(t));
    }
    lemma_index_unique(t, '\t', t.len() as int);
    assert(split_on(t, '\t') =~= seq![t]);
    assert(t.skip(1) =~= key);
}

/// The lines of whole lines followed by one more line.
proof fn lemma_lines_push(file: Seq<char>, line: Seq<char>)
    requires
        whole_lines(file),
        line.len() > 0,
        line.last() != '\r',
        forall|i: int| 0 <= i < line.len() ==> #[trigger] line[i] != '\n',
    ensures
        lines_of(file + line.push('\n')) == lines_of(file).push(line),
    decreases file.len(),
{
    let all = file + line.push('\n');
    if file.len() == 0 {
        assert(all =~= line.push('\n'));
        lemma_index_unique(all, '\n', line.len() as int);
        assert(all.take(line.len() as int) =~= line);
        assert(all.skip(line.len() as int + 1) =~= Seq::empty());
        assert(lines_of(Seq::empty()) =~= Seq::empty());
        assert(lines_of(all) =~= seq![line]);
        assert(lines_of(file).push(line) =~= seq![line]);
    } else {
        lemma_index_or_len(file, '\n');
        let i = index_or_len(file, '\n');
        if i == file.len() {
            assert(file[file.len() - 1] != '\n');
        }
        assert forall|j: int| 0 <= j < i implies all[j] != '\n' by {
            assert(all[j] == file[j]);
        }
        lemma_index_unique(all, '\n', i);
        let rest = file.skip(i + 1);
        assert(whole_lines(rest)) by {
            if rest.len() > 0 {
                assert(rest.last() == file.last());
            }
        }
        lemma_lines_push(rest, line);
        assert(all.take(i) =~= file.take(i));
        assert(all.skip(i + 1) =~= rest + line.push('\n'));
        assert(lines_of(all) =~= lines_of(file).push(line));
    }
}

/// Appending a line to a file of whole lines loads that line last.
pub proof fn law_file_grows_by_line(file: Seq<char>, line: Seq<char>)
    requires
        whole_lines(file),
        line.len() > 0,
        line.last() != '\r',
        forall|i: int| 0 <= i < line.len() ==> #[trigger] line[i] != '\n',
    ensures
        whole_lines(file + line.push('\n')),
        table_of_file(file + line.push('\n')) == load_line(table_of_file(file), line),
{
    lemma_lines_push(file, line);
    assert(lines_of(file).push(line).drop_last() =~= lines_of(file));
}

/// The line of an entry holds no line feed and ends with a tab.
proof fn lemma_entry_line_plain(key: Seq<char>, value: Seq<char>)
    requires
        storable_key(key),
        storable_value(value),
    ensures
        entry_line(key, value).len() > 0,
        entry_line(key, value)[0] != '~',
        entry_line(key, value).last() == '\t',
        forall|i: int|
            0 <= i < entry_line(key, value).len() ==> #[trigger] entry_line(key, value)[i] != '\n',
{
    reveal_strlit("\t");
    let line = entry_line(key, value);
    assert(line[0] == key[0]);
    assert forall|i: int| 0 <= i < line.len() implies #[trigger] line[i] != '\n' by {
        if i < key.len() {
            assert(line[i] == key[i]);
        } else if key.len() < i < line.len() - 1 {
            assert(line[i] == value[i - key.len() - 1]);
        }
    }
}

/// A file that holds a table holds, with the line of an entry appended, the
/// table with that entry. `put`, `append` and `compare_swap` record such a
/// line.
pub proof fn law_reload_after_entry(file: Seq<char>, key: Seq<char>, value: Seq<char>)
    requires
        whole_lines(file),
        storable_key(key),
        storable_value(value),
    ensures
        whole_lines(file + entry_line(key, value).push('\n')),
        table_of_file(file + entry_line(key, value).push('\n')) == table_of_file(file).insert(
            key,
            value,
        ),
{
    let line = entry_line(key, value);
    lemma_entry_line_plain(key, value);
    law_file_grows_by_line(file, line);
    law_entry_line_sets(table_of_file(file), key, value);
}

/// A file that holds a table holds, with the line of a removal appended, the
/// table without that key.
pub proof fn law_reload_after_removal(file: Seq<char>, key: Seq<char>)
    requires
        whole_lines(file),
        removable_key(key),
    ensures
        whole_lines(file + removal_line(key).push('\n')),
        table_of_file(file + removal_line(key).push('\n')) == table_of_file(file).remove(key),
{
    reveal_strlit("\t");
    reveal_strlit("~");
    let line = removal_line(key);
    assert forall|i: int| 0 <= i < line.len() implies #[trigger] line[i] != '\n' by {
        if 0 < i < line.len() - 1 {
            assert(line[i] == key[i - 1]);
        }
    }
    law_file_grows_by_line(file, line);
    law_removal_line_removes(table_of_file(file), key);
}

/// The file of a persistent table stays current: where it is so before an entry
/// is set and its line recorded, as `put`, `append` and `compare_swap` do, it
/// is so afterwards.
pub proof fn law_entry_keeps_file_current(
    before: &NoVoHT,
    after: &NoVoHT,
    file: Seq<char>,
    key: Seq<char>,
    value: Seq<char>,
)
    requires
        before.is_persistent_spec(),
        before.is_current(file),
        storable_key(key),
        storable_value(value),
        after@ == before@.insert(key, value),
        after.pending() == before.pending_with(entry_line(key, value)),
    ensures
        after.is_current(file),
{
    let line = entry_line(key, value).push('\n');
    law_reload_after_entry(file + before.pending(), key, value);
    assert(file + before.pending() + line =~= file + (before.pending() + line));
}

/// The file of a persistent table stays current when a key is removed and the
/// removal recorded.
pub proof fn law_removal_keeps_file_current(
    before: &NoVoHT,
    after: &NoVoHT,
    file: Seq<char>,
    key: Seq<char>,
)
    requires
        before.is_persistent_spec(),
        before.is_current(file),
        removable_key(key),
        after@ == before@.remove(key),
        after.pending() == before.pending_with(removal_line(key)),
    ensures
        after.is_current(file),
{
    let line = removal_line(key).push('\n');
    law_reload_after_removal(file + before.pending(), key);
    assert(file + before.pending() + line =~= file + (before.pending() + line));
}

/// Appending what the journal held to the file leaves the table current.
pub proof fn law_journal_written_keeps_file_current(
    before: &NoVoHT,
    after: &NoVoHT,
    file: Seq<char>,
)
    requires
        before.is_current(file),
        after@ == before@,
        after.pending() == Seq::<char>::empty(),
    ensures
        after.is_current(file + before.pending()),
{
    assert(file + before.pending() + after.pending() =~= file + before.pending());
}

/// A rewritten file holds the table that it was written from: what a flush
/// writes, a later load gives back, whatever the order of the keys.
pub proof fn law_flush_round_trip(keys: Seq<Seq<char>>, m: Map<Seq<char>, Seq<char>>)
    requires
        keys.to_set() == m.dom(),
        forall|k: Seq<char>| #[trigger] m.contains_key(k) ==> storable_key(k) && storable_value(m[k]),
    ensures
        whole_lines(file_text(keys, m)),
        table_of_file(file_text(keys, m)) == m,
{
    assert forall|i: int| 0 <= i < keys.len() implies m.contains_key(#[trigger] keys[i]) by {
        assert(keys.to_set().contains(keys[i]));
    }
    lemma_flush(keys, m);
    assert(m.restrict(keys.to_set()) =~= m);
}

proof fn lemma_flush(keys: Seq<Seq<char>>, m: Map<Seq<char>, Seq<char>>)
    requires
        forall|i: int| 0 <= i < keys.len() ==> m.contains_key(#[trigger] keys[i]),
        forall|k: Seq<char>| #[trigger] m.contains_key(k) ==> storable_key(k) && storable_value(m[k]),
    ensures
        whole_lines(file_text(keys, m)),
        table_of_file(file_text(keys, m)) == m.restrict(keys.to_set()),
    decreases keys.len(),
{
    if keys.len() == 0 {
        assert(lines_of(Seq::empty()) =~= Seq::empty());
        assert(m.restrict(keys.to_set()) =~= Map::empty());
    } else {
        let k = keys.last();
        let before = keys.drop_last();
        assert(m.contains_key(k));
        lemma_flush(before, m);
        law_reload_after_entry(file_text(before, m), k, m[k]);
        assert forall|x: Seq<char>| keys.to_set().contains(x) implies before.to_set().contains(x) || x == k by {
            let i = choose|i: int| 0 <= i < keys.len() && keys[i] == x;
            if i < keys.len() - 1 {
                assert(before[i] == x);
            }
        }
        assert forall|x: Seq<char>| before.to_set().contains(x) implies keys.to_set().contains(x) by {
            let i = choose|i: int| 0 <= i < before.len() && before[i] == x;
            assert(keys[i] == x);
        }
        assert(keys.to_set().contains(k)) by {
            assert(keys[keys.len() - 1] == k);
        }
        assert(m.restrict(before.to_set()).insert(k, m[k]) =~= m.restrict(keys.to_set()));
    }
}

/// A rewritten file is clean: it has one line for each entry, in the order of
/// the keys, and no line is a removal.
pub proof fn law_flushed_file_is_clean(keys: Seq<Seq<char>>, m: Map<Seq<char>, Seq<char>>)
    requires
        forall|i: int|
            0 <= i < keys.len() ==> storable_key(#[trigger] keys[i]) && storable_value(m[keys[i]]),
    ensures
        lines_of(file_text(keys, m)) == keys.map_values(|k: Seq<char>| entry_line(k, m[k])),
        forall|i: int|
            0 <= i < keys.len() ==> (#[trigger] lines_of(file_text(keys, m))[i])[0] != '~',
        whole_lines(file_text(keys, m)),
    decreases keys.len(),
{
    let lines = keys.map_values(|k: Seq<char>| entry_line(k, m[k]));
    if keys.len() == 0 {
        assert(lines_of(Seq::empty()) =~= Seq::empty());
        assert(lines =~= Seq::empty());
    } else {
        let before = keys.drop_last();
        let k = keys.last();
        assert(storable_key(keys[keys.len() - 1]) && storable_value(m[k]));
        assert forall|i: int| 0 <= i < before.len() implies storable_key(#[trigger] before[i])
            && storable_value(m[before[i]]) by {
            assert(before[i] == keys[i]);
        }
        law_flushed_file_is_clean(before, m);
        lemma_entry_line_plain(k, m[k]);
        lemma_lines_push(file_text(before, m), entry_line(k, m[k]));
        assert(before.map_values(|k: Seq<char>| entry_line(k, m[k])).push(entry_line(k, m[k]))
            =~= lines);
        assert forall|i: int| 0 <= i < keys.len() implies (#[trigger] lines_of(
            file_text(keys, m),
        )[i])[0] != '~' by {
            assert(lines[i] == entry_line(keys[i], m[keys[i]]));
            lemma_entry_line_plain(keys[i], m[keys[i]]);
        }
    }
}

/// Where a file holds a table before a call that leaves only what a file can
/// hold, it does so after it.
proof fn lemma_stays_faithful(t: TableFile, call: TableCall)
    requires
        t.is_faithful(),
        t.can_hold(call),
    ensures
        t.after(call).is_faithful(),
{
    match call {
        TableCall::Put { key, value } => {
            if key.len() > 0 {
                law_reload_after_entry(t.file, key, value);
            }
        },
        TableCall::Append { key, value } => {
            if key.len() > 0 {
                law_reload_after_entry(t.file, key, appended_value(t.map, key, value));
            }
        },
        TableCall::Remove { key } => {
            if t.map.contains_key(key) {
                law_reload_after_removal(t.file, key);
            }
        },
        TableCall::CompareSwap { key, expected, new_value } => {
            law_reload_after_entry(t.file, key, swapped_value(t.map, key, expected, new_value));
        },
        TableCall::Flush { keys } => {
            law_flush_round_trip(keys, t.map);
        },
        TableCall::Reload => {},
    }
}

/// After any calls, in any order, flushes and reloads among them, the file of a
/// table holds the table: loading the file gives back what is in memory. Only a
/// key or a value that cannot stand in a file breaks it.
pub proof fn law_file_holds_table_after_any_calls(t: TableFile, calls: Seq<TableCall>)
    requires
        t.is_faithful(),
        t.can_hold_all(calls),
    ensures
        t.after_all(calls).is_faithful(),
        table_of_file(t.after_all(calls).file) == t.after_all(calls).map,
    decreases calls.len(),
{
    if calls.len() > 0 {
        law_file_holds_table_after_any_calls(t, calls.drop_last());
        lemma_stays_faithful(t.after_all(calls.drop_last()), calls.last());
    }
}

/// A table that was filled by any calls, from an empty file on, is the same when
/// it is opened again: loading the file gives the same entries, and the file
/// that is rewritten then has one line for each entry, in the order of the keys,
/// and no removals.
pub proof fn law_reopened_table_is_the_same(calls: Seq<TableCall>, keys: Seq<Seq<char>>)
    requires
        TableFile::empty().can_hold_all(calls),
        keys.to_set() == TableFile::empty().after_all(calls).map.dom(),
    ensures
        ({
            let m = TableFile::empty().after_all(calls).map;
            let reopened = TableFile::empty().after_all(calls).after(TableCall::Reload).after(
                TableCall::Flush { keys },
            );
            &&& reopened.map == m
            &&& reopened.is_faithful()
            &&& lines_of(reopened.file) == keys.map_values(|k: Seq<char>| entry_line(k, m[k]))
            &&& forall|i: int|
                0 <= i < keys.len() ==> (#[trigger] lines_of(reopened.file)[i])[0] != '~'
        }),
{
    assert(lines_of(Seq::empty()) =~= Seq::empty());
    law_file_holds_table_after_any_calls(TableFile::empty(), calls);
    let t = TableFile::empty().after_all(calls);
    lemma_stays_faithful(t, TableCall::Reload);
    lemma_stays_faithful(t.after(TableCall::Reload), TableCall::Flush { keys });
    assert forall|i: int| 0 <= i < keys.len() implies storable_key(#[trigger] keys[i])
        && storable_value(t.map[keys[i]]) by {
        assert(keys.to_set().contains(keys[i]));
        assert(t.map.contains_key(keys[i]));
    }
    law_flushed_file_is_clean(keys, t.map);
}

/// What was put under a key is found under it, and every other key keeps its
/// value.
pub proof fn law_put_get(m: Map<Seq<char>, Seq<char>>, key: Seq<char>, value: Seq<char>, other: Seq<char>)
    ensures
        m.insert(key, value).contains_key(key),
        m.insert(key, value)[key] == value,
        other != key ==> {
            &&& m.insert(key, value).contains_key(other) == m.contains_key(other)
            &&& m.contains_key(other) ==> m.insert(key, value)[other] == m[other]
        },
{
}

/// A compare-and-swap with the value that is there, or on a key that is not
/// there, stores the new value; with any other value it changes nothing.
pub proof fn law_swap_or_unchanged(
    m: Map<Seq<char>, Seq<char>>,
    key: Seq<char>,
    expected: Seq<char>,
    new_value: Seq<char>,
)
    ensures
        (!m.contains_key(key) || m[key] == expected) ==> m.insert(
            key,
            swapped_value(m, key, expected, new_value),
        ) == m.insert(key, new_value),
        (m.contains_key(key) && m[key] != expected) ==> m.insert(
            key,
            swapped_value(m, key, expected, new_value),
        ) == m,
{
    if m.contains_key(key) && m[key] != expected {
        assert(m.insert(key, m[key]) =~= m);
    }
}

/// Appending twice leaves both values behind the old one, in order.
pub proof fn law_append_twice(
    m: Map<Seq<char>, Seq<char>>,
    key: Seq<char>,
    a: Seq<char>,
    b: Seq<char>,
)
    requires
        m.contains_key(key),
    ensures
        appended_value(m.insert(key, appended_value(m, key, a)), key, b) == m[key] + ":"@ + a
            + ":"@ + b,
{
}

/// An append to a key that is not there stores the value alone; to one that is
/// there, the old value, a colon and the new one. What else the table holds makes
/// no difference.
pub proof fn law_append_keeps_both(
    m: Map<Seq<char>, Seq<char>>,
    key: Seq<char>,
    value: Seq<char>,
)
    ensures
        !m.contains_key(key) ==> appended_value(m, key, value) == value,
        m.contains_key(key) ==> appended_value(m, key, value) == m[key] + seq![':'] + value,
        appended_value(m.remove(key), key, value) == value,
{
    reveal_strlit(":");
    assert(":"@ =~= seq![':']);
}

/// A swap takes place exactly where the key has no value or the expected one.
pub proof fn law_swap_condition(
    m: Map<Seq<char>, Seq<char>>,
    key: Seq<char>,
    expected: Seq<char>,
    new_value: Seq<char>,
    current: Seq<char>,
)
    ensures
        swaps(m.remove(key), key, expected),
        swaps(m.insert(key, expected), key, expected),
        current != expected ==> !swaps(m.insert(key, current), key, expected),
        swapped_value(m.remove(key), key, expected, new_value) == new_value,
        swapped_value(m.insert(key, expected), key, expected, new_value) == new_value,
        current != expected ==> swapped_value(m.insert(key, current), key, expected, new_value)
            == current,
{
}

/// The line of an entry is the key and the value with a tab behind each; that of a
/// removal is the key behind a `~` with a tab behind it.
pub proof fn law_line_format(key: Seq<char>, value: Seq<char>)
    ensures
        entry_line(key, value) == key + seq!['\t'] + value + seq!['\t'],
        removal_line(key) == seq!['~'] + key + seq!['\t'],
{
    reveal_strlit("\t");
    reveal_strlit("~");
    assert("\t"@ =~= seq!['\t']);
    assert("~"@ =~= seq!['~']);
}

/// A rewritten file grows by one line for each further key; without keys it is
/// empty.
pub proof fn law_file_text_by_keys(
    keys: Seq<Seq<char>>,
    m: Map<Seq<char>, Seq<char>>,
    key: Seq<char>,
)
    ensures
        file_text(Seq::empty(), m) == Seq::<char>::empty(),
        file_text(keys.push(key), m) == file_text(keys, m) + key + seq!['\t'] + m[key] + seq![
            '\t',
            '\n',
        ],
{
    law_line_format(key, m[key]);
    assert(keys.push(key).drop_last() =~= keys);
    assert(file_text(keys.push(key), m) =~= file_text(keys, m) + key + seq!['\t'] + m[key] + seq![
        '\t',
        '\n',
    ]);
}

/// The journal of a persistent table grows by one line at a time, and that of
/// another table stays as it is.
pub proof fn law_journal_grows_by_lines(table: &NoVoHT, line: Seq<char>, lines: Seq<Seq<char>>)
    ensures
        table.is_persistent_spec() ==> table.pending_with(line) == table.pending() + line + seq!['\n'],
        !table.is_persistent_spec() ==> table.pending_with(line) == table.pending(),
        table.pending_after(Seq::empty()) == table.pending(),
        table.is_persistent_spec() ==> table.pending_after(lines.push(line)) == table.pending_after(
            lines,
        ) + line + seq!['\n'],
        !table.is_persistent_spec() ==> table.pending_after(lines) == table.pending(),
{
    assert(table.pending() + line.push('\n') =~= table.pending() + line + seq!['\n']);
    assert(lines.push(line).drop_last() =~= lines);
    assert(table.pending_after(lines) + line.push('\n') =~= table.pending_after(lines) + line + seq![
        '\n',
    ]);
}

/// Lines are laid over a table one after the other.
pub proof fn law_lines_load_in_order(
    m: Map<Seq<char>, Seq<char>>,
    lines: Seq<Seq<char>>,
    line: Seq<char>,
)
    ensures
        load_lines(m, Seq::empty()) == m,
        load_lines(m, lines.push(line)) == load_line(load_lines(m, lines), line),
{
    assert(lines.push(line).drop_last() =~= lines);
}

/// What a line does, whatever white space stands around it: blank, nothing. With a
/// `~` in front, it removes what stands between that and the first tab. Otherwise
/// what stands before the first tab gets what stands behind it, and a line without
/// a tab does nothing.
pub proof fn law_line_loads(
    m: Map<Seq<char>, Seq<char>>,
    pre: Seq<char>,
    first: Seq<char>,
    rest: Seq<char>,
    post: Seq<char>,
)
    requires
        forall|i: int| 0 <= i < pre.len() ==> is_space(#[trigger] pre[i]),
        forall|i: int| 0 <= i < post.len() ==> is_space(#[trigger] post[i]),
        forall|i: int| 0 <= i < first.len() ==> #[trigger] first[i] != '\t',
        first.len() > 0,
        !is_space(first[0]),
        rest.len() > 0 ==> !is_space(rest.last()),
    ensures
        load_line(m, pre) == m,
        rest.len() > 0 && first[0] == '~' ==> load_line(m, pre + (first.push('\t') + rest) + post)
            == m.remove(first.skip(1)),
        rest.len() > 0 && first[0] != '~' ==> load_line(m, pre + (first.push('\t') + rest) + post)
            == m.insert(
            first,
            joined_values(split_on(rest, '\t')[0], split_on(rest, '\t').skip(1)),
        ),
        !is_space(first.last()) && first[0] == '~' ==> load_line(m, pre + first + post) == m.remove(
            first.skip(1),
        ),
        !is_space(first.last()) && first[0] != '~' ==> load_line(m, pre + first + post) == m,
{
    law_trim_strips_white_space(pre, Seq::empty(), Seq::empty());
    assert(pre + Seq::<char>::empty() + Seq::<char>::empty() =~= pre);
    if rest.len() > 0 {
        let t = first.push('\t') + rest;
        assert(t[0] == first[0]);
        assert(t.last() == rest.last());
        law_trim_strips_white_space(pre, t, post);
        law_split_at_separators(first, '\t', rest);
        let parts = seq![first] + split_on(rest, '\t');
        assert(parts[0] == first);
        assert(parts[1] == split_on(rest, '\t')[0]);
        assert(parts.skip(2) =~= split_on(rest, '\t').skip(1));
    }
    if !is_space(first.last()) {
        law_trim_strips_white_space(pre, first, post);
        law_split_at_separators(first, '\t', rest);
    }
}

/// Values on one line are joined with colons, and empty ones left out.
pub proof fn law_values_are_joined(value: Seq<char>, extras: Seq<Seq<char>>, next: Seq<char>)
    ensures
        joined_values(value, Seq::empty()) == value,
        next.len() == 0 ==> joined_values(value, extras.push(next)) == joined_values(value, extras),
        next.len() > 0 ==> joined_values(value, extras.push(next)) == joined_values(value, extras)
            + seq![':'] + next,
{
    reveal_strlit(":");
    assert(":"@ =~= seq![':']);
    assert(extras.push(next).drop_last() =~= extras);
}

/// Tables with the same file have the same path and are persistent alike.
pub proof fn law_same_file(a: &NoVoHT, b: &NoVoHT)
    ensures
        a.same_file(b) <==> a.path() == b.path() && a.is_persistent_spec() == b.is_persistent_spec(),
{
}

/// What each call makes of the entries: a put sets, an append adds, a remove takes
/// out, a swap sets where the value is the expected one; a flush changes none. An
/// empty key is refused.
pub proof fn law_calls_change_entries(
    t: TableFile,
    key: Seq<char>,
    value: Seq<char>,
    expected: Seq<char>,
    keys: Seq<Seq<char>>,
)
    ensures
        key.len() > 0 ==> t.after(TableCall::Put { key, value }).map == t.map.insert(key, value),
        key.len() == 0 ==> t.after(TableCall::Put { key, value }).map == t.map,
        key.len() > 0 ==> t.after(TableCall::Append { key, value }).map == t.map.insert(
            key,
            if t.map.contains_key(key) {
                t.map[key] + seq![':'] + value
            } else {
                value
            },
        ),
        key.len() == 0 ==> t.after(TableCall::Append { key, value }).map == t.map,
        t.after(TableCall::Remove { key }).map == t.map.remove(key),
        !t.map.contains_key(key) || t.map[key] == expected ==> t.after(
            TableCall::CompareSwap { key, expected, new_value: value },
        ).map == t.map.insert(key, value),
        t.map.contains_key(key) && t.map[key] != expected ==> t.after(
            TableCall::CompareSwap { key, expected, new_value: value },
        ).map == t.map,
        t.after(TableCall::Flush { keys }).map == t.map,
{
    law_append_keeps_both(t.map, key, value);
    law_swap_or_unchanged(t.map, key, expected, value);
    if !t.map.contains_key(key) {
        assert(t.map.remove(key) =~= t.map);
    }
}

/// The file of a table is what was written so far with the journal behind it. A
/// table that is persistent is as a call leaves it, whatever was written before.
pub proof fn law_table_on_file(
    after: &NoVoHT,
    before: &NoVoHT,
    call: TableCall,
    written: Seq<char>,
)
    ensures
        after.on_file(written).map == after@,
        after.on_file(written).file == written + after.pending(),
        after.is_after(before, call) && after.is_persistent_spec() ==> after@ == before.on_file(
            written,
        ).after(call).map && written + after.pending() == before.on_file(written).after(call).file,
{
    if after.is_after(before, call) && after.is_persistent_spec() {
        assert(after.on_file(written) == before.on_file(written).after(call));
    }
}

/// What each call writes to the file: an entry set is a line more, as long as the
/// call is not refused; a removal too; and a flush writes the file anew.
pub proof fn law_calls_write_lines(
    t: TableFile,
    key: Seq<char>,
    value: Seq<char>,
    expected: Seq<char>,
    keys: Seq<Seq<char>>,
)
    ensures
        key.len() > 0 ==> t.after(TableCall::Put { key, value }).file == t.file + (key + seq!['\t']
            + value + seq!['\t', '\n']),
        key.len() == 0 ==> t.after(TableCall::Put { key, value }).file == t.file,
        key.len() > 0 ==> t.after(TableCall::Append { key, value }).file == t.file + (key + seq!['\t'] + (
        if t.map.contains_key(key) {
            t.map[key] + seq![':'] + value
        } else {
            value
        }) + seq!['\t', '\n']),
        t.map.contains_key(key) ==> t.after(TableCall::Remove { key }).file == t.file + (seq!['~'] + key
            + seq!['\t', '\n']),
        !t.map.contains_key(key) ==> t.after(TableCall::Remove { key }).file == t.file,
        t.after(TableCall::CompareSwap { key, expected, new_value: value }).file == t.file + (key + seq![
            '\t',
        ] + (if t.map.contains_key(key) && t.map[key] != expected {
            t.map[key]
        } else {
            value
        }) + seq!['\t', '\n']),
        t.after(TableCall::Flush { keys }).file == file_text(keys, t.map),
{
    law_append_keeps_both(t.map, key, value);
    let tail = seq!['\t', '\n'];
    let v = appended_value(t.map, key, value);
    let w = swapped_value(t.map, key, expected, value);
    law_line_format(key, value);
    law_line_format(key, v);
    law_line_format(key, w);
    assert(entry_line(key, value).push('\n') =~= key + seq!['\t'] + value + tail);
    assert(entry_line(key, v).push('\n') =~= key + seq!['\t'] + v + tail);
    assert(entry_line(key, w).push('\n') =~= key + seq!['\t'] + w + tail);
    assert(removal_line(key).push('\n') =~= seq!['~'] + key + tail);
}

/// Exactly these entries and removals can stand in a file.
pub proof fn law_can_hold(t: TableFile, key: Seq<char>, value: Seq<char>)
    ensures
        storable_key(key) && storable_value(value) ==> t.can_hold(TableCall::Put { key, value }),
        removable_key(key) ==> t.can_hold(TableCall::Remove { key }),
        key.len() == 0 ==> t.can_hold(TableCall::Put { key, value }) && t.can_hold(
            TableCall::Append { key, value },
        ),
        t.can_hold(TableCall::Reload),
        storable_key(key) <==> key.len() > 0 && key[0] != '~' && !is_space(key[0]) && !key.contains('\t')
            && !key.contains('\n'),
        storable_value(value) <==> value.len() > 0 && !is_space(value.last()) && !value.contains('\t')
            && !value.contains('\n'),
        removable_key(key) <==> key.len() > 0 && !is_space(key.last()) && !key.contains('\t')
            && !key.contains('\n'),
{
    lemma_holds_no(key);
    lemma_holds_no(value);
}

proof fn lemma_holds_no(s: Seq<char>)
    ensures
        !s.contains('\t') && !s.contains('\n') <==> forall|i: int|
            0 <= i < s.len() ==> #[trigger] s[i] != '\t' && s[i] != '\n',
{
    if !s.contains('\t') && !s.contains('\n') {
        assert forall|i: int| 0 <= i < s.len() implies #[trigger] s[i] != '\t' && s[i] != '\n' by {
            assert(s.contains(s[i]));
        }
    }
}

} // verus!
