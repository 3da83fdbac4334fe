//! Tables keyed by strings, walked in the order of their keys.

use vstd::prelude::*;

use crate::text::{
    ascending, before, lemma_precedes_irreflexive, lemma_precedes_transitive, precedes, same,
};

verus! {

/// A table from strings to values, which is kept in the order of its keys.
#[derive(Debug)]
pub struct Table<V> {
    entries: Vec<(String, V)>,
}

/// The keys of entries.
pub closed spec fn keys_of<V>(entries: Seq<(String, V)>) -> Seq<Seq<char>> {
    entries.map_values(|entry: (String, V)| entry.0@)
}

impl<V> View for Table<V> {
    type V = Map<Seq<char>, V>;

    closed spec fn view(&self) -> Map<Seq<char>, V> {
        Map::new(
            |key: Seq<char>| self.keys().contains(key),
            |key: Seq<char>| self.entries@[self.keys().index_of(key)].1,
        )
    }
}

impl<V> Table<V> {
    #[verifier::type_invariant]
    spec fn in_order(self) -> bool {
        ascending(keys_of(self.entries@))
    }

    /// The keys, in the order in which the table is walked.
    pub closed spec fn keys(self) -> Seq<Seq<char>> {
        keys_of(self.entries@)
    }

    /// What the walk and the contents of a table have to do with each other: the keys come in
    /// ascending order, and they are those of the contents.
    pub open spec fn walks_contents(self) -> bool {
        &&& ascending(self.keys())
        &&& forall|key: Seq<char>| #[trigger] self@.contains_key(key) <==> self.keys().contains(key)
    }

    /// An empty table.
    pub fn new() -> (table: Self)
        ensures
            table@ == Map::<Seq<char>, V>::empty(),
            table.keys() == Seq::<Seq<char>>::empty(),
    {
        let table = Table { entries: Vec::new() };
        assert(table.keys() =~= Seq::<Seq<char>>::empty());
        assert(table@ =~= Map::<Seq<char>, V>::empty());
        table
    }

    /// The number of entries.
    pub fn len(&self) -> (n: usize)
        ensures
            n == self.keys().len(),
            self.walks_contents(),
    {
        proof {
            use_type_invariant(&*self);
        }
        self.entries.len()
    }

    /// The key at a place of the walk.
    pub fn key_at(&self, i: usize) -> (key: &String)
        requires
            i < self.keys().len(),
        ensures
            key@ == self.keys()[i as int],
            self.keys().len() <= usize::MAX,
    {
        assert(self.keys().len() == self.entries.len());
        &self.entries[i].0
    }

    /// The value at a place of the walk.
    pub fn value_at(&self, i: usize) -> (value: &V)
        requires
            i < self.keys().len(),
        ensures
            self@.contains_key(self.keys()[i as int]),
            *value == self@[self.keys()[i as int]],
    {
        proof {
            use_type_invariant(&*self);
            self.lemma_value_at(i as int);
        }
        &self.entries[i].1
    }

    /// The place of a key, or the place where it would go.
    fn place(&self, key: &str) -> (found: (usize, bool))
        ensures
            found.0 <= self.entries@.len(),
            found.1 == self.keys().contains(key@),
            found.1 ==> found.0 < self.entries@.len() && self.keys()[found.0 as int] == key@,
            forall|j: int| 0 <= j < found.0 ==> precedes(#[trigger] self.keys()[j], key@),
            !found.1 ==> forall|j: int|
                found.0 <= j < self.keys().len() ==> precedes(key@, #[trigger] self.keys()[j]),
    {
        proof {
            use_type_invariant(&*self);
        }
        let mut i: usize = 0;
        while i < self.entries.len() && before(self.entries[i].0.as_str(), key)
            invariant
                i <= self.entries@.len(),
                forall|j: int| 0 <= j < i ==> precedes(#[trigger] self.keys()[j], key@),
            decreases self.entries@.len() - i,
        {
            assert(self.keys()[i as int] == self.entries@[i as int].0@);
            i += 1;
        }
        proof {
            lemma_precedes_irreflexive(key@);
        }
        if i < self.entries.len() && same(self.entries[i].0.as_str(), key) {
            assert(self.keys()[i as int] == key@);
            (i, true)
        } else {
            proof {
                if i < self.entries@.len() {
                    let next = self.keys()[i as int];
                    assert(next == self.entries@[i as int].0@);
                    assert(precedes(key@, next));
                    assert forall|j: int| i <= j < self.keys().len() implies precedes(
                        key@,
                        #[trigger] self.keys()[j],
                    ) by {
                        if j > i {
                            lemma_precedes_transitive(key@, next, self.keys()[j]);
                        }
                    }
                }
                if self.keys().contains(key@) {
                    let j = choose|j: int| 0 <= j < self.keys().len() && self.keys()[j] == key@;
                    assert(precedes(key@, key@));
                }
            }
            (i, false)
        }
    }

    /// The value of a key.
    pub fn get(&self, key: &str) -> (value: Option<&V>)
        ensures
            match value {
                Some(v) => self@.contains_key(key@) && *v == self@[key@],
                None => !self@.contains_key(key@),
            },
            self.walks_contents(),
    {
        proof {
            use_type_invariant(&*self);
        }
        let (i, found) = self.place(key);
        if found {
            Some(self.value_at(i))
        } else {
            None
        }
    }

    /// Whether a key has a value.
    pub fn contains_key(&self, key: &str) -> (found: bool)
        ensures
            found == self@.contains_key(key@),
    {
        self.place(key).1
    }

    /// Gives a key a value, in place of the one it had.
    pub fn insert(&mut self, key: String, value: V)
        ensures
            final(self)@ == old(self)@.insert(key@, value),
            final(self).walks_contents(),
    {
        proof {
            use_type_invariant(&*self);
        }
        let (i, found) = self.place(key.as_str());
        let mut entries: Vec<(String, V)> = Vec::new();
        std::mem::swap(&mut entries, &mut self.entries);
        let ghost old_entries = entries@;
        if found {
            entries.remove(i);
        }
        let ghost mid = entries@;
        entries.insert(i, (key, value));
        proof {
            lemma_insert_in_order(old_entries, mid, entries@, i as int, found, key, value);
        }
        self.entries = entries;
        proof {
            lemma_insert_contents(*old(self), *self, i as int, found, key, value);
        }
    }

    /// Takes a key out of the table.
    pub fn remove(&mut self, key: &str)
        ensures
            final(self)@ == old(self)@.remove(key@),
    {
        proof {
            use_type_invariant(&*self);
        }
        let (i, found) = self.place(key);
        if found {
            let mut entries: Vec<(String, V)> = Vec::new();
            std::mem::swap(&mut entries, &mut self.entries);
            let ghost old_entries = entries@;
            entries.remove(i);
            proof {
                lemma_remove_in_order(old_entries, i as int);
                assert(entries@ =~= old_entries.remove(i as int));
            }
            self.entries = entries;
            proof {
                lemma_remove_contents(*old(self), *self, i as int, key@);
            }
        } else {
            assert(self@.remove(key@) =~= self@);
        }
    }

    /// The contents at the key of a place are the value at that place.
    proof fn lemma_value_at(self, i: int)
        requires
            self.in_order(),
            0 <= i < self.entries@.len(),
        ensures
            self.keys()[i] == self.entries@[i].0@,
            self.keys().index_of(self.keys()[i]) == i,
            self@.contains_key(self.keys()[i]),
            self@[self.keys()[i]] == self.entries@[i].1,
    {
        let key = self.keys()[i];
        let j = self.keys().index_of(key);
        assert(self.keys().contains(key));
        lemma_precedes_irreflexive(key);
        if j < i {
            assert(precedes(self.keys()[j], self.keys()[i]));
        } else if i < j {
            assert(precedes(self.keys()[i], self.keys()[j]));
        }
    }
}

/// Putting an entry at its place keeps the order.
proof fn lemma_insert_in_order<V>(
    old_entries: Seq<(String, V)>,
    mid: Seq<(String, V)>,
    new_entries: Seq<(String, V)>,
    i: int,
    found: bool,
    key: String,
    value: V,
)
    requires
        ascending(keys_of(old_entries)),
        0 <= i <= old_entries.len(),
        found ==> i < old_entries.len() && keys_of(old_entries)[i] == key@ && mid
            == old_entries.remove(i),
        !found ==> mid == old_entries,
        !found ==> forall|j: int|
            i <= j < old_entries.len() ==> precedes(key@, #[trigger] keys_of(old_entries)[j]),
        forall|j: int| 0 <= j < i ==> precedes(#[trigger] keys_of(old_entries)[j], key@),
        new_entries == mid.insert(i, (key, value)),
    ensures
        ascending(keys_of(new_entries)),
{
    let keys = keys_of(new_entries);
    let olds = keys_of(old_entries);
    assert forall|a: int, b: int| 0 <= a < b < keys.len() implies precedes(
        #[trigger] keys[a],
        #[trigger] keys[b],
    ) by {
        let shift: int = if found { 0 } else { 1 };
        if a < i {
            assert(keys[a] == olds[a]);
        } else if a > i {
            assert(keys[a] == olds[a - shift]);
        }
        if b < i {
            assert(keys[b] == olds[b]);
        } else if b > i {
            assert(keys[b] == olds[b - shift]);
        }
    }
}

/// What the contents are after an entry was put at its place.
proof fn lemma_insert_contents<V>(
    old_table: Table<V>,
    new_table: Table<V>,
    i: int,
    found: bool,
    key: String,
    value: V,
)
    requires
        old_table.in_order(),
        new_table.in_order(),
        0 <= i <= old_table.entries@.len(),
        found == old_table.keys().contains(key@),
        found ==> i < old_table.entries@.len() && old_table.keys()[i] == key@
            && new_table.entries@ == old_table.entries@.remove(i).insert(i, (key, value)),
        !found ==> new_table.entries@ == old_table.entries@.insert(i, (key, value)),
    ensures
        new_table@ == old_table@.insert(key@, value),
{
    let shift: int = if found { 0 } else { 1 };
    let n = old_table.entries@.len();
    new_table.lemma_value_at(i);
    assert forall|k: Seq<char>| #[trigger] new_table@.contains_key(k) == old_table@.insert(
        key@,
        value,
    ).contains_key(k) by {
        if new_table.keys().contains(k) {
            let j = choose|j: int| 0 <= j < new_table.keys().len() && new_table.keys()[j] == k;
            if j < i {
                assert(old_table.keys()[j] == k);
            } else if j > i {
                assert(old_table.keys()[j - shift] == k);
            }
        }
        if old_table.keys().contains(k) && k != key@ {
            let j = choose|j: int| 0 <= j < old_table.keys().len() && old_table.keys()[j] == k;
            if j < i {
                assert(new_table.keys()[j] == k);
            } else {
                assert(new_table.keys()[j + shift] == k);
            }
        }
        if k == key@ {
            assert(new_table.keys()[i] == k);
        }
    }
    assert forall|k: Seq<char>| #[trigger] new_table@.contains_key(k) implies new_table@[k]
        == old_table@.insert(key@, value)[k] by {
        let j = choose|j: int| 0 <= j < new_table.keys().len() && new_table.keys()[j] == k;
        new_table.lemma_value_at(j);
        if j < i {
            old_table.lemma_value_at(j);
            lemma_precedes_irreflexive(k);
            assert(precedes(new_table.keys()[j], new_table.keys()[i]));
        } else if j > i {
            old_table.lemma_value_at(j - shift);
            lemma_precedes_irreflexive(k);
            assert(precedes(new_table.keys()[i], new_table.keys()[j]));
        }
    }
    assert(new_table@ =~= old_table@.insert(key@, value));
}

/// Taking an entry out keeps the order.
proof fn lemma_remove_in_order<V>(entries: Seq<(String, V)>, i: int)
    requires
        ascending(keys_of(entries)),
        0 <= i < entries.len(),
    ensures
        ascending(keys_of(entries.remove(i))),
{
    let keys = keys_of(entries.remove(i));
    let olds = keys_of(entries);
    assert forall|a: int, b: int| 0 <= a < b < keys.len() implies precedes(
        #[trigger] keys[a],
        #[trigger] keys[b],
    ) by {
        let x = if a < i { a } else { a + 1 };
        let y = if b < i { b } else { b + 1 };
        assert(keys[a] == olds[x]);
        assert(keys[b] == olds[y]);
    }
}

/// What the contents are after an entry was taken out.
proof fn lemma_remove_contents<V>(old_table: Table<V>, new_table: Table<V>, i: int, key: Seq<char>)
    requires
        old_table.in_order(),
        new_table.in_order(),
        0 <= i < old_table.entries@.len(),
        old_table.keys()[i] == key,
        new_table.entries@ == old_table.entries@.remove(i),
    ensures
        new_table@ == old_table@.remove(key),
{
    lemma_precedes_irreflexive(key);
    assert forall|k: Seq<char>| #[trigger] new_table@.contains_key(k) == old_table@.remove(
        key,
    ).contains_key(k) by {
        if new_table.keys().contains(k) {
            let j = choose|j: int| 0 <= j < new_table.keys().len() && new_table.keys()[j] == k;
            let x = if j < i { j } else { j + 1 };
            assert(old_table.keys()[x] == k);
            if x < i {
                assert(precedes(old_table.keys()[x], old_table.keys()[i]));
            } else {
                assert(precedes(old_table.keys()[i], old_table.keys()[x]));
            }
        }
        if old_table.keys().contains(k) && k != key {
            let j = choose|j: int| 0 <= j < old_table.keys().len() && old_table.keys()[j] == k;
            let x = if j < i { j } else { j - 1 };
            assert(new_table.keys()[x] == k);
        }
    }
    assert forall|k: Seq<char>| #[trigger] new_table@.contains_key(k) implies new_table@[k]
        == old_table@.remove(key)[k] by {
        let j = choose|j: int| 0 <= j < new_table.keys().len() && new_table.keys()[j] == k;
        let x = if j < i { j } else { j + 1 };
        new_table.lemma_value_at(j);
        old_table.lemma_value_at(x);
    }
    assert(new_table@ =~= old_table@.remove(key));
}

} // verus!
