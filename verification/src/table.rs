//! Rows of a table: text values under text keys, kept in the order in
//! which the keys were first inserted.

use crate::text::{same_text, views};
use vstd::prelude::*;

verus! {

/// What a row holds: pairs of key and value, in order.
pub type Entries = Seq<(Seq<char>, Seq<char>)>;

/// The position of the first entry under `key`, or `entries.len()` where
/// there is none.
pub open spec fn position(entries: Entries, key: Seq<char>) -> int
    decreases entries.len(),
{
    if entries.len() == 0 || entries[0].0 == key {
        0
    } else {
        1 + position(entries.drop_first(), key)
    }
}

/// The value under `key`, if there is one.
pub open spec fn lookup(entries: Entries, key: Seq<char>) -> Option<Seq<char>> {
    let i = position(entries, key);
    if 0 <= i < entries.len() {
        Some(entries[i].1)
    } else {
        None
    }
}

/// `entries` after `value` was put under `key`: in the place of the value
/// that was there, or behind all others where `key` is new.
pub open spec fn with_entry(entries: Entries, key: Seq<char>, value: Seq<char>) -> Entries {
    let i = position(entries, key);
    if 0 <= i < entries.len() {
        entries.update(i, (key, value))
    } else {
        entries.push((key, value))
    }
}

/// The keys of `entries`, in order.
pub open spec fn keys_of(entries: Entries) -> Seq<Seq<char>> {
    Seq::new(entries.len(), |i: int| entries[i].0)
}

/// Whether no key occurs twice.
pub open spec fn distinct_keys(entries: Entries) -> bool {
    forall|i: int, j: int|
        0 <= i < j < entries.len() ==> (#[trigger] entries[i]).0 != (#[trigger] entries[j]).0
}

/// `position` is the one place before which no entry has the key and at
/// which one has, or the entries end.
pub proof fn lemma_position(entries: Entries, key: Seq<char>, k: int)
    requires
        0 <= k <= entries.len(),
        forall|i: int| 0 <= i < k ==> (#[trigger] entries[i]).0 != key,
        k < entries.len() ==> entries[k].0 == key,
    ensures
        position(entries, key) == k,
    decreases entries.len(),
{
    if entries.len() == 0 || entries[0].0 == key {
    } else {
        let rest = entries.drop_first();
        assert forall|i: int| 0 <= i < k - 1 implies (#[trigger] rest[i]).0 != key by {
            assert(rest[i] == entries[i + 1]);
        }
        lemma_position(rest, key, k - 1);
    }
}

/// Where `position` points, and that no entry before it has the key.
pub proof fn lemma_position_bounds(entries: Entries, key: Seq<char>)
    ensures
        0 <= position(entries, key) <= entries.len(),
        forall|i: int| 0 <= i < position(entries, key) ==> (#[trigger] entries[i]).0 != key,
        position(entries, key) < entries.len() ==> entries[position(entries, key)].0 == key,
    decreases entries.len(),
{
    if entries.len() == 0 || entries[0].0 == key {
    } else {
        let rest = entries.drop_first();
        lemma_position_bounds(rest, key);
        assert forall|i: int| 0 <= i < position(entries, key) implies (#[trigger] entries[i]).0
            != key by {
            if i > 0 {
                assert(entries[i] == rest[i - 1]);
            }
        }
    }
}

/// Putting a value under a key leaves no key twice, keeps the keys that
/// were there in their places, and makes the value the one found under
/// the key; what is found under other keys stays.
pub proof fn lemma_with_entry(entries: Entries, key: Seq<char>, value: Seq<char>)
    requires
        distinct_keys(entries),
    ensures
        distinct_keys(with_entry(entries, key, value)),
        lookup(with_entry(entries, key, value), key) == Some(value),
        forall|other: Seq<char>|
            other != key ==> lookup(with_entry(entries, key, value), other) == lookup(
                entries,
                other,
            ),
        lookup(entries, key) is Some ==> keys_of(with_entry(entries, key, value)) == keys_of(
            entries,
        ),
        lookup(entries, key) is None ==> keys_of(with_entry(entries, key, value)) == keys_of(
            entries,
        ).push(key),
{
    let after = with_entry(entries, key, value);
    let i = position(entries, key);
    lemma_position_bounds(entries, key);
    if i < entries.len() {
        assert forall|a: int, b: int| 0 <= a < b < after.len() implies (#[trigger] after[a]).0 != (
        #[trigger] after[b]).0 by {
            assert(after[a].0 == entries[a].0);
            assert(after[b].0 == entries[b].0);
        }
        assert forall|k: int| 0 <= k < i implies (#[trigger] after[k]).0 != key by {
            assert(after[k] == entries[k]);
        }
        lemma_position(after, key, i);
        assert(keys_of(after) =~= keys_of(entries));
    } else {
        assert forall|a: int, b: int| 0 <= a < b < after.len() implies (#[trigger] after[a]).0 != (
        #[trigger] after[b]).0 by {
            assert(after[a] == entries[a]);
            if b < entries.len() {
                assert(after[b] == entries[b]);
            }
        }
        assert forall|k: int| 0 <= k < i implies (#[trigger] after[k]).0 != key by {
            assert(after[k] == entries[k]);
        }
        lemma_position(after, key, i);
        assert(keys_of(after) =~= keys_of(entries).push(key));
    }
    assert forall|other: Seq<char>| other != key implies lookup(after, other) == lookup(
        entries,
        other,
    ) by {
        let p = position(entries, other);
        lemma_position_bounds(entries, other);
        assert forall|k: int| 0 <= k < p implies (#[trigger] after[k]).0 != other by {
            if k != i {
                assert(after[k] == entries[k]);
            }
        }
        if p < entries.len() {
            assert(p != i);
            assert(after[p] == entries[p]);
            lemma_position(after, other, p);
        } else {
            assert forall|k: int| 0 <= k < after.len() implies (#[trigger] after[k]).0
                != other by {
                if k < entries.len() && k != i {
                    assert(after[k] == entries[k]);
                }
            }
            lemma_position(after, other, after.len() as int);
        }
    }
}

/// One row of a table. No key occurs twice in it.
#[derive(Debug)]
pub struct Row {
    entries: Vec<(String, String)>,
}

impl View for Row {
    type V = Entries;

    closed spec fn view(&self) -> Entries {
        model(self.entries@)
    }
}

/// What stored pairs stand for.
spec fn model(stored: Seq<(String, String)>) -> Entries {
    Seq::new(stored.len(), |i: int| (stored[i].0@, stored[i].1@))
}

impl Row {
    #[verifier::type_invariant]
    spec fn keys_differ(&self) -> bool {
        distinct_keys(self@)
    }

    /// A row without entries.
    pub fn new() -> (row: Row)
        ensures
            row@ == Seq::<(Seq<char>, Seq<char>)>::empty(),
    {
        let row = Row { entries: Vec::new() };
        assert(row@ =~= Seq::<(Seq<char>, Seq<char>)>::empty());
        row
    }

    /// The number of entries. No two of them share a key.
    pub fn len(&self) -> (n: usize)
        ensures
            n == self@.len(),
            distinct_keys(self@),
    {
        proof {
            use_type_invariant(self);
        }
        self.entries.len()
    }

    /// Whether the row has no entries.
    pub fn is_empty(&self) -> (empty: bool)
        ensures
            empty == (self@.len() == 0),
    {
        self.entries.len() == 0
    }

    /// The place of the entry under `key`, or the number of entries where
    /// there is none.
    fn index_of(&self, key: &str) -> (i: usize)
        ensures
            i == position(self@, key@),
            i <= self@.len(),
            i <= self.entries@.len(),
    {
        let mut i: usize = 0;
        while i < self.entries.len()
            invariant
                i <= self.entries@.len(),
                forall|k: int| 0 <= k < i ==> (#[trigger] self@[k]).0 != key@,
            decreases self.entries@.len() - i,
        {
            if same_text(self.entries[i].0.as_str(), key) {
                proof {
                    lemma_position(self@, key@, i as int);
                }
                return i;
            }
            i += 1;
        }
        proof {
            lemma_position(self@, key@, i as int);
        }
        i
    }

    /// Whether there is a value under `key`.
    pub fn contains_key(&self, key: &str) -> (found: bool)
        ensures
            found == lookup(self@, key@).is_some(),
    {
        self.index_of(key) < self.entries.len()
    }

    /// The value under `key`, if there is one.
    pub fn get(&self, key: &str) -> (value: Option<&String>)
        ensures
            match value {
                Some(v) => lookup(self@, key@) == Some(v@),
                None => lookup(self@, key@).is_none(),
            },
    {
        let i = self.index_of(key);
        if i < self.entries.len() {
            Some(&self.entries[i].1)
        } else {
            None
        }
    }

    /// Puts `value` under `key` and hands back the value that was there.
    /// A key that is new to the row goes behind all others; one that the
    /// row has keeps its place.
    pub fn insert(&mut self, key: String, value: String) -> (previous: Option<String>)
        ensures
            final(self)@ == with_entry(old(self)@, key@, value@),
            match previous {
                Some(v) => lookup(old(self)@, key@) == Some(v@),
                None => lookup(old(self)@, key@).is_none(),
            },
    {
        proof {
            use_type_invariant(&*self);
            lemma_with_entry(self@, key@, value@);
        }
        let ghost before = self@;
        let i = self.index_of(key.as_str());
        let mut entries: Vec<(String, String)> = Vec::new();
        assert(model(entries@) =~= Seq::<(Seq<char>, Seq<char>)>::empty());
        core::mem::swap(&mut self.entries, &mut entries);
        let previous = if i < entries.len() {
            let previous = entries[i].1.clone();
            entries.set(i, (key, value));
            Some(previous)
        } else {
            entries.push((key, value));
            None
        };
        assert(model(entries@) =~= with_entry(before, key@, value@));
        core::mem::swap(&mut self.entries, &mut entries);
        previous
    }

    /// The keys of the row, in order. No key occurs twice.
    pub fn keys(&self) -> (keys: Vec<String>)
        ensures
            views(keys@) == keys_of(self@),
            distinct_keys(self@),
    {
        proof {
            use_type_invariant(self);
        }
        let mut keys: Vec<String> = Vec::new();
        let mut i: usize = 0;
        while i < self.entries.len()
            invariant
                i <= self.entries@.len(),
                keys@.len() == i,
                forall|k: int| 0 <= k < i ==> (#[trigger] keys@[k])@ == self@[k].0,
            decreases self.entries@.len() - i,
        {
            keys.push(self.entries[i].0.clone());
            i += 1;
        }
        assert(views(keys@) =~= keys_of(self@));
        keys
    }
}

} // verus!
