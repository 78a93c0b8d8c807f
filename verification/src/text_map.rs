//! An ordered map keyed by text.

use crate::text::{
    lemma_text_less_irreflexive, lemma_text_less_transitive, text_less, text_order, TextOrder,
};
use vstd::prelude::*;
use vstd::seq_lib::seq_to_set_is_finite;

verus! {

/// A map from text to values, kept as a vector in ascending key order.
#[derive(Debug, PartialEq, Eq)]
pub struct TextMap<V> {
    entries: Vec<(String, V)>,
}

/// Keys ascend strictly, so that none occurs twice.
pub open spec fn ascending<V>(entries: Seq<(Seq<char>, V)>) -> bool {
    forall|i: int, j: int|
        #![trigger entries[i], entries[j]]
        0 <= i < j < entries.len() ==> text_less(entries[i].0, entries[j].0)
}

/// Position `i` of `entries` holds `key`.
pub open spec fn holds_at<V>(entries: Seq<(Seq<char>, V)>, key: Seq<char>, i: int) -> bool {
    0 <= i < entries.len() && entries[i].0 == key
}

/// The map that a list of entries stands for.
pub open spec fn entries_map<V>(entries: Seq<(Seq<char>, V)>) -> Map<Seq<char>, V> {
    Map::new(
        |key: Seq<char>| exists|i: int| holds_at(entries, key, i),
        |key: Seq<char>| entries[choose|i: int| holds_at(entries, key, i)].1,
    )
}

impl<V> TextMap<V> {
    /// The entries in ascending key order.
    pub closed spec fn ordered(&self) -> Seq<(Seq<char>, V)> {
        self.entries@.map_values(|entry: (String, V)| (entry.0@, entry.1))
    }

    #[verifier::type_invariant]
    spec fn well_formed(self) -> bool {
        ascending(self.ordered())
    }
}

impl<V> View for TextMap<V> {
    type V = Map<Seq<char>, V>;

    open spec fn view(&self) -> Map<Seq<char>, V> {
        entries_map(self.ordered())
    }
}

/// In ascending entries a key has one position, and the map holds the value found there.
pub proof fn lemma_position<V>(entries: Seq<(Seq<char>, V)>, i: int)
    requires
        ascending(entries),
        0 <= i < entries.len(),
    ensures
        entries_map(entries).contains_key(entries[i].0),
        entries_map(entries)[entries[i].0] == entries[i].1,
{
    let key = entries[i].0;
    assert(holds_at(entries, key, i));
    let j = choose|j: int| holds_at(entries, key, j);
    lemma_text_less_irreflexive(key);
    assert(i == j);
}

/// A key that stands strictly between two neighbouring places is not in the map.
proof fn lemma_absent<V>(entries: Seq<(Seq<char>, V)>, key: Seq<char>, i: int)
    requires
        0 <= i <= entries.len(),
        forall|j: int| 0 <= j < i ==> text_less((#[trigger] entries[j]).0, key),
        forall|j: int| i <= j < entries.len() ==> text_less(key, (#[trigger] entries[j]).0),
    ensures
        !entries_map(entries).contains_key(key),
{
    lemma_text_less_irreflexive(key);
}

/// Inserting a pair at the place of its key inserts it into the map.
proof fn lemma_insert<V>(entries: Seq<(Seq<char>, V)>, key: Seq<char>, value: V, i: int)
    requires
        ascending(entries),
        0 <= i <= entries.len(),
        forall|j: int| 0 <= j < i ==> text_less((#[trigger] entries[j]).0, key),
        forall|j: int| i <= j < entries.len() ==> text_less(key, (#[trigger] entries[j]).0),
    ensures
        ascending(entries.insert(i, (key, value))),
        entries_map(entries.insert(i, (key, value))) == entries_map(entries).insert(key, value),
{
    let grown = entries.insert(i, (key, value));
    assert forall|a: int, b: int|
        #![trigger grown[a], grown[b]]
        0 <= a < b < grown.len() implies text_less(grown[a].0, grown[b].0) by {
        let p = if a < i { a } else { a - 1 };
        let q = if b < i { b } else { b - 1 };
        if a != i {
            assert(grown[a] == entries[p]);
        }
        if b != i {
            assert(grown[b] == entries[q]);
        }
    }
    lemma_position(grown, i);
    assert forall|k: Seq<char>| entries_map(grown).contains_key(k) == entries_map(entries).insert(
        key,
        value,
    ).contains_key(k) by {
        if entries_map(grown).contains_key(k) && k != key {
            let a = choose|a: int| holds_at(grown, k, a);
            assert(a != i);
            assert(holds_at(entries, k, if a < i { a } else { a - 1 }));
        }
        if entries_map(entries).contains_key(k) {
            let a = choose|a: int| holds_at(entries, k, a);
            assert(holds_at(grown, k, if a < i { a } else { a + 1 }));
        }
    }
    assert forall|k: Seq<char>| entries_map(entries).insert(key, value).contains_key(k) implies
        entries_map(grown)[k] == entries_map(entries).insert(key, value)[k] by {
        if k != key {
            let a = choose|a: int| holds_at(entries, k, a);
            let b = if a < i { a } else { a + 1 };
            assert(grown[b] == entries[a]);
            lemma_position(entries, a);
            lemma_position(grown, b);
        }
    }
    assert(entries_map(grown) =~= entries_map(entries).insert(key, value));
}

/// Replacing the value at a key's place replaces it in the map.
proof fn lemma_update<V>(entries: Seq<(Seq<char>, V)>, value: V, i: int)
    requires
        ascending(entries),
        0 <= i < entries.len(),
    ensures
        ascending(entries.update(i, (entries[i].0, value))),
        entries_map(entries.update(i, (entries[i].0, value))) == entries_map(entries).insert(
            entries[i].0,
            value,
        ),
{
    let key = entries[i].0;
    let changed = entries.update(i, (key, value));
    assert forall|a: int, b: int|
        #![trigger changed[a], changed[b]]
        0 <= a < b < changed.len() implies text_less(changed[a].0, changed[b].0) by {
        assert(text_less(entries[a].0, entries[b].0));
    }
    lemma_position(changed, i);
    assert forall|k: Seq<char>| entries_map(changed).contains_key(k) == entries_map(entries).insert(
        key,
        value,
    ).contains_key(k) by {
        if entries_map(changed).contains_key(k) {
            let a = choose|a: int| holds_at(changed, k, a);
            assert(holds_at(entries, k, a));
        }
        if entries_map(entries).contains_key(k) {
            let a = choose|a: int| holds_at(entries, k, a);
            assert(holds_at(changed, k, a));
        }
    }
    assert forall|k: Seq<char>| entries_map(entries).insert(key, value).contains_key(k) implies
        entries_map(changed)[k] == entries_map(entries).insert(key, value)[k] by {
        if k != key {
            let a = choose|a: int| holds_at(entries, k, a);
            lemma_position(entries, a);
            lemma_position(changed, a);
        }
    }
    assert(entries_map(changed) =~= entries_map(entries).insert(key, value));
}

/// Removing the entry at a key's place removes the key from the map.
proof fn lemma_remove<V>(entries: Seq<(Seq<char>, V)>, i: int)
    requires
        ascending(entries),
        0 <= i < entries.len(),
    ensures
        ascending(entries.remove(i)),
        entries_map(entries.remove(i)) == entries_map(entries).remove(entries[i].0),
{
    let key = entries[i].0;
    let shrunk = entries.remove(i);
    assert forall|a: int, b: int|
        #![trigger shrunk[a], shrunk[b]]
        0 <= a < b < shrunk.len() implies text_less(shrunk[a].0, shrunk[b].0) by {
        let p = if a < i { a } else { a + 1 };
        let q = if b < i { b } else { b + 1 };
        assert(text_less(entries[p].0, entries[q].0));
    }
    assert forall|k: Seq<char>| entries_map(shrunk).contains_key(k) == entries_map(entries).remove(
        key,
    ).contains_key(k) by {
        if entries_map(shrunk).contains_key(k) {
            let a = choose|a: int| holds_at(shrunk, k, a);
            let b = if a < i { a } else { a + 1 };
            assert(holds_at(entries, k, b));
            lemma_text_less_irreflexive(key);
            assert(entries[b] == shrunk[a]);
            assert(entries[i].0 == key);
        }
        if entries_map(entries).contains_key(k) && k != key {
            let a = choose|a: int| holds_at(entries, k, a);
            assert(holds_at(shrunk, k, if a < i { a } else { a - 1 }));
        }
    }
    assert forall|k: Seq<char>| entries_map(entries).remove(key).contains_key(k) implies
        entries_map(shrunk)[k] == entries_map(entries)[k] by {
        let a = choose|a: int| holds_at(entries, k, a);
        let b = if a < i { a } else { a - 1 };
        assert(shrunk[b] == entries[a]);
        lemma_position(entries, a);
        lemma_position(shrunk, b);
    }
    assert(entries_map(shrunk) =~= entries_map(entries).remove(key));
}

/// Ascending entries have as many members as the map they stand for.
proof fn lemma_len<V>(entries: Seq<(Seq<char>, V)>)
    requires
        ascending(entries),
    ensures
        entries_map(entries).dom().finite(),
        entries_map(entries).len() == entries.len(),
{
    let keys = entries.map_values(|entry: (Seq<char>, V)| entry.0);
    assert(keys.no_duplicates()) by {
        assert forall|i: int, j: int|
            0 <= i < keys.len() && 0 <= j < keys.len() && i != j implies keys[i] != keys[j] by {
            lemma_text_less_irreflexive(keys[i]);
            assert(keys[i] == entries[i].0 && keys[j] == entries[j].0);
            if i < j {
                assert(text_less(entries[i].0, entries[j].0));
            } else {
                assert(text_less(entries[j].0, entries[i].0));
            }
        }
    }
    keys.unique_seq_to_set();
    assert forall|k: Seq<char>| entries_map(entries).dom().contains(k) == keys.to_set().contains(
        k,
    ) by {
        if entries_map(entries).contains_key(k) {
            let i = choose|i: int| holds_at(entries, k, i);
            assert(keys[i] == k);
        }
        if keys.to_set().contains(k) {
            let i = choose|i: int| 0 <= i < keys.len() && keys[i] == k;
            assert(holds_at(entries, k, i));
        }
    }
    assert(entries_map(entries).dom() =~= keys.to_set());
    seq_to_set_is_finite(keys);
}

/// `keys` are the texts of a set, each once, in ascending order.
pub open spec fn ascending_keys(keys: Seq<Seq<char>>, set: Set<Seq<char>>) -> bool {
    &&& forall|i: int, j: int|
        #![trigger keys[i], keys[j]]
        0 <= i < j < keys.len() ==> text_less(keys[i], keys[j])
    &&& keys.to_set() == set
}

/// The keys of entries, in their order.
pub open spec fn ordered_keys<V>(entries: Seq<(Seq<char>, V)>) -> Seq<Seq<char>> {
    entries.map_values(|entry: (Seq<char>, V)| entry.0)
}

/// The keys of ascending entries are those of their map.
pub proof fn lemma_ordered_keys<V>(entries: Seq<(Seq<char>, V)>)
    requires
        ascending(entries),
    ensures
        ascending_keys(ordered_keys(entries), entries_map(entries).dom()),
{
    let keys = ordered_keys(entries);
    assert forall|i: int, j: int|
        #![trigger keys[i], keys[j]]
        0 <= i < j < keys.len() implies text_less(keys[i], keys[j]) by {
        assert(text_less(entries[i].0, entries[j].0));
    }
    assert forall|key: Seq<char>| keys.to_set().contains(key) == entries_map(entries).contains_key(
        key,
    ) by {
        if keys.to_set().contains(key) {
            let i = choose|i: int| 0 <= i < keys.len() && keys[i] == key;
            assert(holds_at(entries, key, i));
        }
        if entries_map(entries).contains_key(key) {
            let i = choose|i: int| holds_at(entries, key, i);
            assert(keys[i] == key);
        }
    }
    assert(keys.to_set() =~= entries_map(entries).dom());
}

/// There is one ascending order only in which the texts of a set can stand.
pub proof fn law_ascending_order_is_unique(
    a: Seq<Seq<char>>,
    b: Seq<Seq<char>>,
    set: Set<Seq<char>>,
)
    requires
        ascending_keys(a, set),
        ascending_keys(b, set),
    ensures
        a == b,
    decreases a.len(),
{
    if a.len() == 0 || b.len() == 0 {
        if a.len() > 0 {
            assert(a.to_set().contains(a[0]));
            assert(b.to_set().contains(a[0]));
        }
        if b.len() > 0 {
            assert(b.to_set().contains(b[0]));
            assert(a.to_set().contains(b[0]));
        }
        assert(a =~= b);
    } else {
        let x = a.last();
        let y = b.last();
        assert(a.to_set().contains(x) && b.to_set().contains(y));
        assert(b.to_set().contains(x) && a.to_set().contains(y));
        let i = b.index_of(x);
        let j = a.index_of(y);
        if x != y {
            assert(text_less(b[i], b[b.len() - 1]));
            assert(text_less(a[j], a[a.len() - 1]));
            lemma_text_less_transitive(x, y, x);
            lemma_text_less_irreflexive(x);
        }
        lemma_without_last(a, set);
        lemma_without_last(b, set);
        law_ascending_order_is_unique(a.drop_last(), b.drop_last(), set.remove(x));
        assert(a =~= a.drop_last().push(x));
        assert(b =~= b.drop_last().push(x));
    }
}

proof fn lemma_without_last(keys: Seq<Seq<char>>, set: Set<Seq<char>>)
    requires
        ascending_keys(keys, set),
        keys.len() > 0,
    ensures
        ascending_keys(keys.drop_last(), set.remove(keys.last())),
{
    let rest = keys.drop_last();
    assert forall|i: int, j: int|
        #![trigger rest[i], rest[j]]
        0 <= i < j < rest.len() implies text_less(rest[i], rest[j]) by {
        assert(rest[i] == keys[i] && rest[j] == keys[j]);
    }
    assert forall|key: Seq<char>| rest.to_set().contains(key) == set.remove(keys.last()).contains(
        key,
    ) by {
        if rest.to_set().contains(key) {
            let i = rest.index_of(key);
            assert(keys[i] == key);
            assert(keys.to_set().contains(key));
            assert(text_less(keys[i], keys[keys.len() - 1]));
            lemma_text_less_irreflexive(key);
        }
        if set.contains(key) && key != keys.last() {
            assert(keys.to_set().contains(key));
            let i = keys.index_of(key);
            assert(rest[i] == key);
        }
    }
    assert(rest.to_set() =~= set.remove(keys.last()));
}

impl<V> TextMap<V> {
    /// An empty map.
    pub fn new() -> (map: Self)
        ensures
            map@ == Map::<Seq<char>, V>::empty(),
            map.ordered() == Seq::<(Seq<char>, V)>::empty(),
    {
        let map = TextMap { entries: Vec::new() };
        assert(map.ordered() =~= Seq::empty());
        assert(map@ =~= Map::empty());
        map
    }

    /// Where `key` stands (`Ok`), or where it would be inserted (`Err`).
    fn locate(&self, key: &str) -> (place: Result<usize, usize>)
        ensures
            match place {
                Ok(i) => i < self.entries.len() && self.ordered()[i as int].0 == key@,
                Err(i) => {
                    &&& i <= self.entries.len()
                    &&& forall|j: int|
                        0 <= j < i ==> text_less((#[trigger] self.ordered()[j]).0, key@)
                    &&& forall|j: int|
                        i <= j < self.entries.len() ==> text_less(
                            key@,
                            (#[trigger] self.ordered()[j]).0,
                        )
                },
            },
    {
        proof {
            use_type_invariant(self);
        }
        let mut low: usize = 0;
        let mut high: usize = self.entries.len();
        while low < high
            invariant
                low <= high <= self.entries.len(),
                ascending(self.ordered()),
                forall|j: int| 0 <= j < low ==> text_less((#[trigger] self.ordered()[j]).0, key@),
                forall|j: int|
                    high <= j < self.entries.len() ==> text_less(
                        key@,
                        (#[trigger] self.ordered()[j]).0,
                    ),
            decreases high - low,
        {
            let middle: usize = low + (high - low) / 2;
            let order = text_order(self.entries[middle].0.as_str(), key);
            let ghost seen = self.ordered()[middle as int].0;
            match order {
                TextOrder::Same => {
                    return Ok(middle);
                },
                TextOrder::Less => {
                    assert forall|j: int| 0 <= j < middle + 1 implies text_less(
                        (#[trigger] self.ordered()[j]).0,
                        key@,
                    ) by {
                        if j < middle {
                            lemma_text_less_transitive(self.ordered()[j].0, seen, key@);
                        }
                    }
                    low = middle + 1;
                },
                TextOrder::Greater => {
                    assert forall|j: int| middle <= j < self.entries.len() implies text_less(
                        key@,
                        (#[trigger] self.ordered()[j]).0,
                    ) by {
                        if middle < j {
                            lemma_text_less_transitive(key@, seen, self.ordered()[j].0);
                        }
                    }
                    high = middle;
                },
            }
        }
        Err(low)
    }

    /// The number of keys. The entries ascend.
    pub fn len(&self) -> (len: usize)
        ensures
            len == self@.len(),
            len == self.ordered().len(),
            self@.dom().finite(),
            ascending(self.ordered()),
    {
        proof {
            use_type_invariant(self);
            lemma_len(self.ordered());
        }
        self.entries.len()
    }

    /// Whether the map has no key.
    pub fn is_empty(&self) -> (empty: bool)
        ensures
            empty == (self@ == Map::<Seq<char>, V>::empty()),
            empty == (self.ordered().len() == 0),
    {
        let ghost entries = self.ordered();
        if self.entries.len() == 0 {
            assert(self@ =~= Map::empty());
            true
        } else {
            assert(holds_at(entries, entries[0].0, 0));
            assert(self@.contains_key(entries[0].0));
            false
        }
    }

    /// The keys, in ascending order.
    pub fn keys(&self) -> (keys: Vec<String>)
        ensures
            ascending_keys(keys.deep_view(), self@.dom()),
    {
        proof {
            use_type_invariant(self);
            lemma_ordered_keys(self.ordered());
        }
        let mut keys: Vec<String> = Vec::new();
        for i in 0..self.entries.len()
            invariant
                keys@.len() == i,
                forall|j: int|
                    0 <= j < i ==> (#[trigger] keys@[j])@ == self.ordered()[j].0,
        {
            keys.push(self.entries[i].0.clone());
        }
        assert(keys.deep_view() =~= ordered_keys(self.ordered()));
        keys
    }

    /// The key at position `i` of the ascending order.
    pub fn key_at(&self, i: usize) -> (key: &String)
        requires
            i < self.ordered().len(),
        ensures
            key@ == self.ordered()[i as int].0,
    {
        &self.entries[i].0
    }

    /// The value at position `i` of the ascending order.
    pub fn value_at(&self, i: usize) -> (value: &V)
        requires
            i < self.ordered().len(),
        ensures
            *value == self.ordered()[i as int].1,
            self@.contains_key(self.ordered()[i as int].0),
            self@[self.ordered()[i as int].0] == *value,
    {
        proof {
            use_type_invariant(self);
            lemma_position(self.ordered(), i as int);
        }
        &self.entries[i].1
    }

    /// The value of `key`.
    pub fn get(&self, key: &str) -> (value: Option<&V>)
        ensures
            value is Some == self@.contains_key(key@),
            value is Some ==> *value->Some_0 == self@[key@],
    {
        proof {
            use_type_invariant(self);
        }
        let ghost entries = self.ordered();
        match self.locate(key) {
            Ok(i) => {
                proof {
                    lemma_position(entries, i as int);
                }
                Some(&self.entries[i].1)
            },
            Err(i) => {
                proof {
                    lemma_absent(entries, key@, i as int);
                }
                None
            },
        }
    }

    /// Whether `key` has a value.
    pub fn contains_key(&self, key: &str) -> (found: bool)
        ensures
            found == self@.contains_key(key@),
    {
        self.get(key).is_some()
    }

    /// Sets the value of `key`, and hands back the value it replaces.
    pub fn insert(&mut self, key: String, value: V) -> (replaced: Option<V>)
        ensures
            final(self)@ == old(self)@.insert(key@, value),
            replaced is Some == old(self)@.contains_key(key@),
            replaced is Some ==> replaced->Some_0 == old(self)@[key@],
    {
        proof {
            use_type_invariant(&*self);
        }
        let place = self.locate(key.as_str());
        let ghost before = self.ordered();
        let mut entries: Vec<(String, V)> = Vec::new();
        std::mem::swap(&mut entries, &mut self.entries);
        let replaced = match place {
            Ok(i) => {
                proof {
                    lemma_update(before, value, i as int);
                    lemma_position(before, i as int);
                }
                let (kept, old_value) = entries.remove(i);
                entries.insert(i, (kept, value));
                assert(entries@.map_values(|entry: (String, V)| (entry.0@, entry.1))
                    =~= before.update(i as int, (key@, value)));
                Some(old_value)
            },
            Err(i) => {
                proof {
                    lemma_absent(before, key@, i as int);
                    lemma_insert(before, key@, value, i as int);
                }
                let ghost pair = (key, value);
                entries.insert(i, (key, value));
                assert(entries@.map_values(|entry: (String, V)| (entry.0@, entry.1))
                    =~= before.insert(i as int, (pair.0@, pair.1)));
                None
            },
        };
        self.entries = entries;
        replaced
    }

    /// Removes `key`, and hands back its value.
    pub fn remove(&mut self, key: &str) -> (removed: Option<V>)
        ensures
            final(self)@ == old(self)@.remove(key@),
            removed is Some == old(self)@.contains_key(key@),
            removed is Some ==> removed->Some_0 == old(self)@[key@],
    {
        proof {
            use_type_invariant(&*self);
        }
        let place = self.locate(key);
        let ghost before = self.ordered();
        match place {
            Ok(i) => {
                let mut entries: Vec<(String, V)> = Vec::new();
                std::mem::swap(&mut entries, &mut self.entries);
                proof {
                    lemma_remove(before, i as int);
                    lemma_position(before, i as int);
                }
                let (_, value) = entries.remove(i);
                assert(entries@.map_values(|entry: (String, V)| (entry.0@, entry.1))
                    =~= before.remove(i as int));
                self.entries = entries;
                Some(value)
            },
            Err(i) => {
                proof {
                    lemma_absent(before, key@, i as int);
                }
                assert(self@ =~= old(self)@.remove(key@));
                None
            },
        }
    }

    /// Sets every pair of `other`, whose values win.
    pub fn extend(&mut self, other: TextMap<V>)
        ensures
            final(self)@ == old(self)@.union_prefer_right(other@),
    {
        proof {
            use_type_invariant(&other);
        }
        let ghost pairs = other.ordered();
        let ghost start = self@;
        let mut rest = other.entries;
        assert(self@ =~= start.union_prefer_right(entries_map(pairs.skip(pairs.len() as int))));
        while rest.len() > 0
            invariant
                ascending(pairs),
                rest@.len() <= pairs.len(),
                rest@.map_values(|entry: (String, V)| (entry.0@, entry.1)) == pairs.take(
                    rest@.len() as int,
                ),
                self@ == start.union_prefer_right(entries_map(pairs.skip(rest@.len() as int))),
            decreases rest@.len(),
        {
            let ghost n = rest@.len() as int;
            let ghost held = rest@.map_values(|entry: (String, V)| (entry.0@, entry.1));
            assert(held[n - 1] == pairs[n - 1]);
            let last = rest.pop();
            if let Some((key, value)) = last {
                proof {
                    let tail = pairs.skip(n);
                    assert(pairs.skip(n - 1) =~= tail.insert(0, pairs[n - 1]));
                    assert forall|j: int| 0 <= j < tail.len() implies text_less(
                        key@,
                        (#[trigger] tail[j]).0,
                    ) by {
                        assert(tail[j] == pairs[n + j]);
                    }
                    assert(ascending(tail)) by {
                        assert forall|i: int, j: int|
                            #![trigger tail[i], tail[j]]
                            0 <= i < j < tail.len() implies text_less(tail[i].0, tail[j].0) by {
                            assert(tail[i] == pairs[n + i] && tail[j] == pairs[n + j]);
                        }
                    }
                    lemma_insert(tail, key@, value, 0);
                    assert(start.union_prefer_right(entries_map(tail)).insert(key@, value)
                        =~= start.union_prefer_right(entries_map(tail).insert(key@, value)));
                }
                self.insert(key, value);
            }
            assert(rest@.map_values(|entry: (String, V)| (entry.0@, entry.1)) =~= pairs.take(
                rest@.len() as int,
            ));
        }
        assert(pairs.skip(0) =~= pairs);
    }

    /// Drops every key.
    pub fn clear(&mut self)
        ensures
            final(self)@ == Map::<Seq<char>, V>::empty(),
    {
        self.entries = Vec::new();
        assert(self.ordered() =~= Seq::empty());
        assert(self@ =~= Map::empty());
    }
}

impl<V: Clone> Clone for TextMap<V> {
    fn clone(&self) -> (map: Self)
        ensures
            map@.dom() == self@.dom(),
            map.ordered().len() == self.ordered().len(),
            forall|i: int|
                0 <= i < self.ordered().len() ==> {
                    &&& (#[trigger] map.ordered()[i]).0 == self.ordered()[i].0
                    &&& cloned(self.ordered()[i].1, map.ordered()[i].1)
                },
    {
        proof {
            use_type_invariant(self);
        }
        let mut entries: Vec<(String, V)> = Vec::new();
        for i in 0..self.entries.len()
            invariant
                entries@.len() == i,
                forall|j: int|
                    0 <= j < i ==> {
                        &&& (#[trigger] entries@[j]).0 == self.entries@[j].0
                        &&& cloned(self.entries@[j].1, entries@[j].1)
                    },
        {
            let (key, value) = &self.entries[i];
            entries.push((key.clone(), value.clone()));
        }
        let ghost pairs = entries@.map_values(|entry: (String, V)| (entry.0@, entry.1));
        assert forall|i: int, j: int|
            #![trigger pairs[i], pairs[j]]
            0 <= i < j < pairs.len() implies text_less(pairs[i].0, pairs[j].0) by {
            assert(text_less(self.ordered()[i].0, self.ordered()[j].0));
        }
        let map = TextMap { entries };
        proof {
            lemma_ordered_keys(self.ordered());
            lemma_ordered_keys(map.ordered());
            assert(ordered_keys(map.ordered()) =~= ordered_keys(self.ordered()));
        }
        map
    }
}

/// A map gives back what was last put under a key, and nothing else changes.
pub proof fn law_map_gives_back_what_was_put(
    map: &mut TextMap<u64>,
    key: String,
    value: u64,
    replaced: Option<u64>,
    after: TextMap<u64>,
    asked: &str,
    found: Option<&u64>,
)
    requires
        call_ensures(TextMap::<u64>::insert, (map, key, value), replaced),
        after@ == final(map)@,
        call_ensures(TextMap::<u64>::get, (&after, asked), found),
    ensures
        asked@ == key@ ==> found == Some(&value),
        asked@ != key@ ==> (found is Some <==> old(map)@.contains_key(asked@)),
        asked@ != key@ && found is Some ==> *found->Some_0 == old(map)@[asked@],
        replaced is Some <==> old(map)@.contains_key(key@),
        replaced is Some ==> replaced->Some_0 == old(map)@[key@],
{
}

/// A key that is taken out is not there any more; all others stay.
pub proof fn law_map_forgets_what_was_taken_out(
    map: &mut TextMap<u64>,
    key: &str,
    removed: Option<u64>,
    other: Seq<char>,
)
    requires
        call_ensures(TextMap::<u64>::remove, (map, key), removed),
    ensures
        !final(map)@.contains_key(key@),
        other != key@ ==> final(map)@.contains_key(other) == old(map)@.contains_key(other),
        other != key@ && old(map)@.contains_key(other) ==> final(map)@[other] == old(map)@[other],
        removed is Some <==> old(map)@.contains_key(key@),
        removed is Some ==> removed->Some_0 == old(map)@[key@],
{
}

/// A map that is extended by another holds the keys of both, and where both have one the value of
/// the other.
pub proof fn law_extended_map_prefers_the_other(
    map: &mut TextMap<u64>,
    other: TextMap<u64>,
    key: Seq<char>,
)
    requires
        call_ensures(TextMap::<u64>::extend, (map, other), ()),
    ensures
        final(map)@.contains_key(key) <==> old(map)@.contains_key(key) || other@.contains_key(key),
        other@.contains_key(key) ==> final(map)@[key] == other@[key],
        !other@.contains_key(key) && old(map)@.contains_key(key) ==> final(map)@[key] == old(
            map,
        )@[key],
{
}

/// The keys of a map are listed in ascending order, each once and none left out, with the values
/// that they have.
pub proof fn law_map_lists_its_keys_in_order(
    map: TextMap<u64>,
    keys: Vec<String>,
    key: &str,
    found: bool,
    i: int,
    j: int,
)
    requires
        call_ensures(TextMap::<u64>::keys, (&map,), keys),
        call_ensures(TextMap::<u64>::contains_key, (&map, key), found),
    ensures
        found <==> map@.contains_key(key@),
        found <==> keys.deep_view().contains(key@),
        0 <= i < j < keys@.len() ==> text_less(keys@[i]@, keys@[j]@),
{
    let all = keys.deep_view();
    assert(all.len() == keys@.len());
    if 0 <= i < j < keys@.len() {
        assert(all[i] == keys@[i]@ && all[j] == keys@[j]@);
    }
    assert(all.to_set().contains(key@) == map@.dom().contains(key@));
}

} // verus!
