//! A map from names to values that keeps the order of insertion.
//!
//! The map is a list of entries. A lookup finds the first entry with the
//! given name, and an insertion under a name that is present replaces that
//! entry in place, so a map that is only changed through `insert` never
//! holds a name twice.

use vstd::prelude::*;
use crate::text::str_eq;

verus! {

/// Whether the entry at position `i` is the first one named `key`.
pub open spec fn is_first<V>(entries: Seq<(String, V)>, key: Seq<char>, i: int) -> bool {
    &&& 0 <= i < entries.len()
    &&& entries[i].0@ == key
    &&& forall|j: int| 0 <= j < i ==> entries[j].0@ != key
}

/// Whether some entry is named `key`.
pub open spec fn has_name<V>(entries: Seq<(String, V)>, key: Seq<char>) -> bool {
    exists|i: int| 0 <= i < entries.len() && entries[i].0@ == key
}

/// The position of the first entry named `key`.
pub open spec fn index_of<V>(entries: Seq<(String, V)>, key: Seq<char>) -> int {
    choose|i: int| is_first(entries, key, i)
}

/// Whether no name occurs twice.
pub open spec fn distinct_names<V>(entries: Seq<(String, V)>) -> bool {
    forall|i: int, j: int|
        0 <= i < entries.len() && 0 <= j < entries.len() && i != j ==> entries[i].0@
            != entries[j].0@
}

/// A name that is present has exactly one first entry.
pub proof fn lemma_first_exists<V>(entries: Seq<(String, V)>, key: Seq<char>)
    requires
        has_name(entries, key),
    ensures
        is_first(entries, key, index_of(entries, key)),
    decreases entries.len(),
{
    let w = choose|i: int| 0 <= i < entries.len() && entries[i].0@ == key;
    lemma_first_below(entries, key, w);
}

proof fn lemma_first_below<V>(entries: Seq<(String, V)>, key: Seq<char>, w: int)
    requires
        0 <= w < entries.len(),
        entries[w].0@ == key,
    ensures
        exists|i: int| is_first(entries, key, i),
    decreases w,
{
    if exists|j: int| 0 <= j < w && entries[j].0@ == key {
        let j = choose|j: int| 0 <= j < w && entries[j].0@ == key;
        lemma_first_below(entries, key, j);
    } else {
        assert(is_first(entries, key, w));
    }
}

/// The first entry named `key` is found at one position only.
pub proof fn lemma_first_unique<V>(entries: Seq<(String, V)>, key: Seq<char>, i: int)
    requires
        is_first(entries, key, i),
    ensures
        index_of(entries, key) == i,
        has_name(entries, key),
{
    let k = index_of(entries, key);
    assert(is_first(entries, key, k));
    if k < i {
        assert(entries[k].0@ != key);
    } else if i < k {
        assert(entries[i].0@ != key);
    }
}

/// What one more entry adds to the names of a list's beginning.
pub proof fn lemma_has_name_step<V>(all: Seq<(String, V)>, i: int, key: Seq<char>)
    requires
        0 <= i < all.len(),
    ensures
        has_name(all.take(i + 1), key) == (has_name(all.take(i), key) || all[i].0@ == key),
        has_name(all.take(i + 1), key) ==> has_name(all, key),
        !has_name(all.take(i), all[i].0@) ==> is_first(all, all[i].0@, i),
{
    let shorter = all.take(i);
    let longer = all.take(i + 1);
    if has_name(longer, key) {
        let w = choose|w: int| 0 <= w < longer.len() && longer[w].0@ == key;
        assert(all[w].0@ == key);
        if w < i {
            assert(shorter[w].0@ == key);
        }
    }
    if has_name(shorter, key) {
        let w = choose|w: int| 0 <= w < shorter.len() && shorter[w].0@ == key;
        assert(longer[w].0@ == key);
    }
    if all[i].0@ == key {
        assert(longer[i].0@ == key);
    }
    if !has_name(shorter, all[i].0@) {
        assert forall|j: int| 0 <= j < i implies all[j].0@ != all[i].0@ by {
            if all[j].0@ == all[i].0@ {
                assert(shorter[j].0@ == all[i].0@);
            }
        }
    }
}

/// The names that a list of entries holds.
pub open spec fn names_of<V>(entries: Seq<(String, V)>) -> Set<Seq<char>> {
    Set::new(|key: Seq<char>| has_name(entries, key))
}

/// A list that holds no name twice holds as many names as entries.
pub proof fn lemma_names_count<V>(entries: Seq<(String, V)>)
    requires
        distinct_names(entries),
    ensures
        names_of(entries).finite(),
        names_of(entries).len() == entries.len(),
    decreases entries.len(),
{
    if entries.len() == 0 {
        assert(names_of(entries) =~= Set::<Seq<char>>::empty());
    } else {
        let rest = entries.drop_last();
        let last = entries.last().0@;
        assert forall|i: int, j: int|
            0 <= i < rest.len() && 0 <= j < rest.len() && i != j implies rest[i].0@
            != rest[j].0@ by {
            assert(rest[i] == entries[i]);
            assert(rest[j] == entries[j]);
        }
        lemma_names_count(rest);
        if has_name(rest, last) {
            let w = choose|w: int| 0 <= w < rest.len() && rest[w].0@ == last;
            assert(entries[w].0@ == entries[entries.len() - 1].0@);
        }
        assert forall|key: Seq<char>|
            names_of(entries).contains(key) == names_of(rest).insert(last).contains(key) by {
            if has_name(entries, key) {
                let w = choose|w: int| 0 <= w < entries.len() && entries[w].0@ == key;
                if w < rest.len() {
                    assert(rest[w].0@ == key);
                }
            }
            if has_name(rest, key) {
                let w = choose|w: int| 0 <= w < rest.len() && rest[w].0@ == key;
                assert(entries[w].0@ == key);
            }
            if key == last {
                assert(entries[entries.len() - 1].0@ == key);
            }
        }
        assert(names_of(entries) =~= names_of(rest).insert(last));
    }
}

/// A map from names to values, in order of insertion.
#[derive(Debug)]
pub struct NameMap<V> {
    pub entries: Vec<(String, V)>,
}

impl<V> NameMap<V> {
    /// Whether the map holds `key`.
    pub open spec fn has(&self, key: Seq<char>) -> bool {
        has_name(self.entries@, key)
    }

    /// The value stored under `key`, where the map holds it.
    pub open spec fn value_of(&self, key: Seq<char>) -> V {
        self.entries@[index_of(self.entries@, key)].1
    }

    /// Whether no name occurs twice.
    pub open spec fn wf(&self) -> bool {
        distinct_names(self.entries@)
    }

    /// The empty map.
    pub fn new() -> (r: Self)
        ensures
            r.entries@.len() == 0,
            r.wf(),
    {
        NameMap { entries: Vec::new() }
    }

    /// The number of entries.
    pub fn len(&self) -> (r: usize)
        ensures
            r == self.entries@.len(),
    {
        self.entries.len()
    }

    /// Whether the map has no entry.
    pub fn is_empty(&self) -> (r: bool)
        ensures
            r == (self.entries@.len() == 0),
    {
        self.entries.len() == 0
    }

    /// The position of the first entry named `key`.
    pub fn position(&self, key: &str) -> (r: Option<usize>)
        ensures
            match r {
                Some(i) => is_first(self.entries@, key@, i as int) && self.has(key@) && i
                    == index_of(self.entries@, key@),
                None => !self.has(key@),
            },
    {
        let mut i: usize = 0;
        while i < self.entries.len()
            invariant
                i <= self.entries.len(),
                forall|j: int| 0 <= j < i ==> self.entries@[j].0@ != key@,
            decreases self.entries.len() - i,
        {
            if str_eq(self.entries[i].0.as_str(), key) {
                proof {
                    lemma_first_unique(self.entries@, key@, i as int);
                }
                return Some(i);
            }
            i = i + 1;
        }
        None
    }

    /// Whether the map holds `key`.
    pub fn contains_key(&self, key: &str) -> (r: bool)
        ensures
            r == self.has(key@),
    {
        self.position(key).is_some()
    }

    /// The value stored under `key`.
    pub fn get(&self, key: &str) -> (r: Option<&V>)
        ensures
            match r {
                Some(v) => self.has(key@) && *v == self.value_of(key@),
                None => !self.has(key@),
            },
    {
        match self.position(key) {
            Some(i) => Some(&self.entries[i].1),
            None => None,
        }
    }

    /// Stores `value` under `key`. An entry of that name is replaced where it
    /// stands; a new name is added at the end.
    pub fn insert(&mut self, key: String, value: V)
        ensures
            old(self).has(key@) ==> final(self).entries@ == old(self).entries@.update(
                index_of(old(self).entries@, key@),
                (key, value),
            ),
            !old(self).has(key@) ==> final(self).entries@ == old(self).entries@.push((key, value)),
            final(self).has(key@),
            final(self).value_of(key@) == value,
            old(self).wf() ==> final(self).wf(),
            forall|k: Seq<char>|
                k != key@ ==> (final(self).has(k) == old(self).has(k)) && (old(self).has(k)
                    ==> final(self).value_of(k) == old(self).value_of(k)),
    {
        let ghost before = self.entries@;
        let ghost name = key@;
        let found = self.position(key.as_str());
        match found {
            Some(i) => {
                self.entries.set(i, (key, value));
            },
            None => {
                self.entries.push((key, value));
            },
        }
        proof {
            let after = self.entries@;
            let at: int = match found {
                Some(i) => i as int,
                None => before.len() as int,
            };
            assert(after.len() > at && after[at].0@ == name && after[at].1 == value);
            assert(forall|j: int| 0 <= j < after.len() && j != at ==> after[j] == before[j]);
            assert(is_first(after, name, at));
            lemma_first_unique(after, name, at);
            assert forall|k: Seq<char>| k != name implies (has_name(after, k) == has_name(
                before,
                k,
            )) && (has_name(before, k) ==> after[index_of(after, k)].1 == before[index_of(
                before,
                k,
            )].1) by {
                if has_name(before, k) {
                    lemma_first_exists(before, k);
                    let p = index_of(before, k);
                    assert(p != at);
                    assert(after[p].0@ == k);
                    assert(is_first(after, k, p)) by {
                        assert forall|j: int| 0 <= j < p implies after[j].0@ != k by {
                            if j != at {
                                assert(after[j] == before[j]);
                            }
                        }
                    }
                    lemma_first_unique(after, k, p);
                }
                if has_name(after, k) {
                    let w = choose|i: int| 0 <= i < after.len() && after[i].0@ == k;
                    assert(w != at);
                    assert(before[w].0@ == k);
                }
            }
            if distinct_names(before) {
                assert forall|i: int, j: int|
                    0 <= i < after.len() && 0 <= j < after.len() && i != j implies after[i].0@
                    != after[j].0@ by {
                    if i == at {
                        assert(after[j] == before[j]);
                        if found.is_none() {
                            assert(!has_name(before, name));
                        }
                    } else if j == at {
                        assert(after[i] == before[i]);
                        if found.is_none() {
                            assert(!has_name(before, name));
                        }
                    } else {
                        assert(after[i] == before[i]);
                        assert(after[j] == before[j]);
                    }
                }
            }
        }
    }
}

/// The list in reverse order.
pub fn reversed<T>(v: Vec<T>) -> (out: Vec<T>)
    ensures
        out@.len() == v@.len(),
        forall|j: int| 0 <= j < out@.len() ==> out@[j] == v@[v@.len() - 1 - j],
{
    let ghost all = v@;
    let mut out: Vec<T> = Vec::new();
    let mut rest = v;
    while rest.len() > 0
        invariant
            out@.len() + rest@.len() == all.len(),
            forall|j: int| 0 <= j < rest@.len() ==> rest@[j] == all[j],
            forall|j: int| 0 <= j < out@.len() ==> out@[j] == all[all.len() - 1 - j],
        decreases rest@.len(),
    {
        let x = rest.pop().unwrap();
        out.push(x);
    }
    out
}

} // verus!
