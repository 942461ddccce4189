//! A finite mapping from text keys to values, kept as a list of entries in
//! which no key occurs twice.

use vstd::prelude::*;

verus! {

/// No two entries of `entries` carry the same key.
pub open spec fn keys_distinct<V>(entries: Seq<(String, V)>) -> bool {
    forall|i: int, j: int| 0 <= i < j < entries.len() ==> entries[i].0@ != entries[j].0@
}

/// Some entry of `entries` carries the key `key`.
pub open spec fn has_key<V>(entries: Seq<(String, V)>, key: Seq<char>) -> bool {
    exists|i: int| 0 <= i < entries.len() && entries[i].0@ == key
}

/// The position of an entry of `entries` that carries `key`, if there is one.
pub open spec fn position_of<V>(entries: Seq<(String, V)>, key: Seq<char>) -> int {
    choose|i: int| 0 <= i < entries.len() && entries[i].0@ == key
}

/// The mapping that a list of entries stands for.
pub open spec fn entries_map<V>(entries: Seq<(String, V)>) -> Map<Seq<char>, V> {
    Map::new(
        |key: Seq<char>| has_key(entries, key),
        |key: Seq<char>| entries[position_of(entries, key)].1,
    )
}

/// Every entry of a list with distinct keys is found again in its mapping.
pub proof fn lemma_entries_map_index<V>(entries: Seq<(String, V)>, i: int)
    requires
        keys_distinct(entries),
        0 <= i < entries.len(),
    ensures
        entries_map(entries).contains_key(entries[i].0@),
        entries_map(entries)[entries[i].0@] == entries[i].1,
{
    let key = entries[i].0@;
    let j = position_of(entries, key);
    assert(0 <= j < entries.len() && entries[j].0@ == key);
    if j < i {
        assert(entries[j].0@ != entries[i].0@);
    } else if i < j {
        assert(entries[i].0@ != entries[j].0@);
    }
}

/// The mapping of an empty list is empty.
pub proof fn lemma_entries_map_empty<V>(entries: Seq<(String, V)>)
    requires
        entries.len() == 0,
    ensures
        entries_map(entries) == Map::<Seq<char>, V>::empty(),
{
    assert(entries_map(entries) =~= Map::<Seq<char>, V>::empty());
}

/// Appending an entry under a fresh key inserts it into the mapping.
pub proof fn lemma_entries_map_push<V>(entries: Seq<(String, V)>, key: String, value: V)
    requires
        keys_distinct(entries),
        !has_key(entries, key@),
    ensures
        keys_distinct(entries.push((key, value))),
        entries_map(entries.push((key, value))) == entries_map(entries).insert(key@, value),
{
    let longer = entries.push((key, value));
    assert(keys_distinct(longer)) by {
        assert forall|i: int, j: int| 0 <= i < j < longer.len() implies longer[i].0@
            != longer[j].0@ by {
            if j == entries.len() {
                assert(entries[i].0@ != key@);
            } else {
                assert(entries[i].0@ != entries[j].0@);
            }
        }
    }
    let last = entries.len() as int;
    assert forall|k: Seq<char>| has_key(longer, k) <==> (k == key@ || has_key(entries, k)) by {
        if has_key(longer, k) {
            let i = position_of(longer, k);
            if i < last {
                assert(entries[i].0@ == k);
            }
        }
        if k == key@ {
            assert(longer[last].0@ == k);
        }
        if has_key(entries, k) {
            let i = position_of(entries, k);
            assert(longer[i].0@ == k);
        }
    }
    assert forall|k: Seq<char>| has_key(longer, k) implies #[trigger] entries_map(longer)[k]
        == entries_map(entries).insert(key@, value)[k] by {
        let i = position_of(longer, k);
        lemma_entries_map_index(longer, i);
        if i < last {
            lemma_entries_map_index(entries, i);
        }
    }
    assert(entries_map(longer) =~= entries_map(entries).insert(key@, value));
}

/// Replacing the value of an entry overwrites its key in the mapping.
pub proof fn lemma_entries_map_update<V>(entries: Seq<(String, V)>, at: int, key: String, value: V)
    requires
        keys_distinct(entries),
        0 <= at < entries.len(),
        entries[at].0@ == key@,
    ensures
        keys_distinct(entries.update(at, (key, value))),
        entries_map(entries.update(at, (key, value))) == entries_map(entries).insert(key@, value),
{
    let changed = entries.update(at, (key, value));
    assert(keys_distinct(changed)) by {
        assert forall|i: int, j: int| 0 <= i < j < changed.len() implies changed[i].0@
            != changed[j].0@ by {
            assert(entries[i].0@ != entries[j].0@);
        }
    }
    assert forall|k: Seq<char>| has_key(changed, k) <==> (k == key@ || has_key(entries, k)) by {
        if has_key(changed, k) {
            let i = position_of(changed, k);
            assert(entries[i].0@ == k);
        }
        if k == key@ {
            assert(changed[at].0@ == k);
        }
        if has_key(entries, k) {
            let i = position_of(entries, k);
            assert(changed[i].0@ == k);
        }
    }
    assert forall|k: Seq<char>| has_key(changed, k) implies #[trigger] entries_map(changed)[k]
        == entries_map(entries).insert(key@, value)[k] by {
        let i = position_of(changed, k);
        lemma_entries_map_index(changed, i);
        if i != at {
            lemma_entries_map_index(entries, i);
        }
    }
    assert(entries_map(changed) =~= entries_map(entries).insert(key@, value));
}

/// The mapping of a list with distinct keys is finite and has one key per entry.
pub proof fn lemma_entries_map_len<V>(entries: Seq<(String, V)>)
    requires
        keys_distinct(entries),
    ensures
        entries_map(entries).dom().finite(),
        entries_map(entries).dom().len() == entries.len(),
    decreases entries.len(),
{
    if entries.len() == 0 {
        lemma_entries_map_empty(entries);
    } else {
        let shorter = entries.drop_last();
        let last = entries.last();
        assert(keys_distinct(shorter)) by {
            assert forall|i: int, j: int| 0 <= i < j < shorter.len() implies shorter[i].0@
                != shorter[j].0@ by {
                assert(entries[i].0@ != entries[j].0@);
            }
        }
        assert(!has_key(shorter, last.0@)) by {
            if has_key(shorter, last.0@) {
                let i = position_of(shorter, last.0@);
                assert(entries[i].0@ != entries[entries.len() - 1].0@);
            }
        }
        lemma_entries_map_len(shorter);
        lemma_entries_map_push(shorter, last.0, last.1);
        assert(shorter.push((last.0, last.1)) =~= entries);
    }
}

/// A mapping from text keys to values of type `V`.
///
/// Its view is the `Map` from each key's characters to the value stored
/// under it. Comparing two maps with `==` in compiled code compares their
/// entries in the order in which the keys were first inserted.
#[derive(Debug, PartialEq, Eq)]
pub struct TextMap<V> {
    entries: Vec<(String, V)>,
}

impl<V> TextMap<V> {
    #[verifier::type_invariant]
    spec fn inv(&self) -> bool {
        keys_distinct(self.entries@)
    }

    /// The entries of the map, in the order in which their keys were first
    /// inserted.
    pub closed spec fn spec_entries(&self) -> Seq<(String, V)> {
        self.entries@
    }

    /// The mapping held, from each key's characters to its value.
    pub open spec fn view(&self) -> Map<Seq<char>, V> {
        entries_map(self.spec_entries())
    }

    /// The value of each entry is structurally smaller than the map, so that
    /// a recursive definition may descend into it.
    pub proof fn lemma_entry_decreases(&self, i: int)
        requires
            0 <= i < self.spec_entries().len(),
        ensures
            decreases_to!(self => self.spec_entries()[i].1),
    {
    }

    /// The value under each key is structurally smaller than the map.
    pub proof fn lemma_value_decreases(&self, key: Seq<char>)
        requires
            self@.contains_key(key),
        ensures
            decreases_to!(self => self@[key]),
    {
        self.lemma_entry_decreases(position_of(self.spec_entries(), key));
    }

    /// An empty map.
    pub fn new() -> (map: Self)
        ensures
            map@ == Map::<Seq<char>, V>::empty(),
            map.spec_entries().len() == 0,
    {
        let map = TextMap { entries: Vec::new() };
        proof {
            lemma_entries_map_empty(map.entries@);
        }
        map
    }

    /// The number of keys.
    pub fn len(&self) -> (n: usize)
        ensures
            self@.dom().finite(),
            n == self@.dom().len(),
            n == self.spec_entries().len(),
    {
        proof {
            use_type_invariant(self);
            lemma_entries_map_len(self.entries@);
        }
        self.entries.len()
    }

    /// Whether the map holds no key.
    pub fn is_empty(&self) -> (empty: bool)
        ensures
            empty == (self@ == Map::<Seq<char>, V>::empty()),
    {
        proof {
            use_type_invariant(self);
            lemma_entries_map_len(self.entries@);
            if self.entries@.len() == 0 {
                lemma_entries_map_empty(self.entries@);
            }
        }
        self.entries.len() == 0
    }

    /// The position of `key` among the entries, if the map holds it.
    fn find(&self, key: &String) -> (at: Option<usize>)
        ensures
            match at {
                Some(i) => i < self.entries@.len() && self.entries@[i as int].0@ == key@,
                None => !has_key(self.entries@, key@),
            },
    {
        let mut i: usize = 0;
        while i < self.entries.len()
            invariant
                i <= self.entries@.len(),
                forall|j: int| 0 <= j < i ==> self.entries@[j].0@ != key@,
            decreases self.entries@.len() - i,
        {
            if self.entries[i].0 == *key {
                return Some(i);
            }
            i += 1;
        }
        None
    }

    /// Whether the map holds `key`.
    pub fn contains_key(&self, key: &str) -> (found: bool)
        ensures
            found == self@.contains_key(key@),
    {
        let owned = key.to_owned();
        self.find(&owned).is_some()
    }

    /// The value stored under `key`, if the map holds it.
    pub fn get(&self, key: &str) -> (value: Option<&V>)
        ensures
            match value {
                Some(v) => self@.contains_key(key@) && *v == self@[key@],
                None => !self@.contains_key(key@),
            },
    {
        let owned = key.to_owned();
        match self.find(&owned) {
            Some(i) => {
                proof {
                    use_type_invariant(self);
                    lemma_entries_map_index(self.entries@, i as int);
                }
                Some(&self.entries[i].1)
            },
            None => None,
        }
    }

    /// Stores `value` under `key`. A value already stored under `key` is
    /// replaced, in its place among the entries: the last write wins. A new
    /// key goes to the end of the entries.
    pub fn insert(&mut self, key: String, value: V)
        ensures
            final(self)@ == old(self)@.insert(key@, value),
            final(self).spec_entries() == if has_key(old(self).spec_entries(), key@) {
                old(self).spec_entries().update(
                    position_of(old(self).spec_entries(), key@),
                    (key, value),
                )
            } else {
                old(self).spec_entries().push((key, value))
            },
    {
        proof {
            use_type_invariant(&*self);
        }
        let found = self.find(&key);
        proof {
            if let Some(i) = found {
                let at = position_of(self.entries@, key@);
                if at < i {
                    assert(self.entries@[at].0@ != self.entries@[i as int].0@);
                } else if i < at {
                    assert(self.entries@[i as int].0@ != self.entries@[at].0@);
                }
            }
        }
        let mut entries: Vec<(String, V)> = Vec::new();
        core::mem::swap(&mut self.entries, &mut entries);
        match found {
            Some(i) => {
                proof {
                    lemma_entries_map_update(entries@, i as int, key, value);
                }
                entries.set(i, (key, value));
            },
            None => {
                proof {
                    lemma_entries_map_push(entries@, key, value);
                }
                entries.push((key, value));
            },
        }
        self.entries = entries;
    }

    /// The entries of the map, in the order in which their keys were first
    /// inserted.
    pub fn entries(&self) -> (entries: &Vec<(String, V)>)
        ensures
            entries@ == self.spec_entries(),
            keys_distinct(entries@),
            self@ == entries_map(entries@),
            self@.dom().finite(),
    {
        proof {
            use_type_invariant(self);
            lemma_entries_map_len(self.entries@);
        }
        &self.entries
    }

    /// Gives up the map for its entries.
    pub fn into_entries(self) -> (entries: Vec<(String, V)>)
        ensures
            entries@ == self.spec_entries(),
            keys_distinct(entries@),
            self@ == entries_map(entries@),
    {
        proof {
            use_type_invariant(&self);
        }
        self.entries
    }
}

impl<V: Clone> Clone for TextMap<V> {
    fn clone(&self) -> (copy: Self)
        ensures
            copy.spec_entries().len() == self.spec_entries().len(),
            forall|i: int|
                0 <= i < self.spec_entries().len() ==> copy.spec_entries()[i].0@
                    == self.spec_entries()[i].0@,
    {
        proof {
            use_type_invariant(self);
        }
        let mut entries: Vec<(String, V)> = Vec::new();
        let mut i: usize = 0;
        while i < self.entries.len()
            invariant
                i <= self.entries@.len(),
                entries@.len() == i,
                forall|j: int| 0 <= j < i ==> entries@[j].0@ == self.entries@[j].0@,
            decreases self.entries@.len() - i,
        {
            let key = self.entries[i].0.clone();
            let value = self.entries[i].1.clone();
            entries.push((key, value));
            i += 1;
        }
        TextMap { entries }
    }
}

} // verus!
