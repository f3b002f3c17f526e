//! Maps from keys to lists without repetition, kept in insertion order.
//! The subscription registry is made of four of them.

use std::collections::HashMap;
use std::hash::Hash;
use vstd::prelude::*;
use vstd::std_specs::hash::*;

verus! {

broadcast use vstd::std_specs::hash::group_hash_axioms;

/// A value that can be told apart from another of its type.
pub trait Key: Sized + Copy {
    fn same(&self, other: &Self) -> (r: bool)
        ensures
            r == (*self == *other),
    ;
}

impl Key for u64 {
    fn same(&self, other: &Self) -> (r: bool) {
        *self == *other
    }
}

impl Key for u128 {
    fn same(&self, other: &Self) -> (r: bool) {
        *self == *other
    }
}

/// `list` with `item` at its end, unless `item` is in it already.
pub open spec fn with_item<V>(list: Seq<V>, item: V) -> Seq<V> {
    if list.contains(item) {
        list
    } else {
        list.push(item)
    }
}

/// `list` without `item`; the items that stay keep their order.
pub open spec fn without_item<V>(list: Seq<V>, item: V) -> Seq<V> {
    if list.contains(item) {
        list.remove(list.index_of(item))
    } else {
        list
    }
}

/// Adding an item keeps a list free of repetition and adds nothing else.
pub proof fn lemma_with_item<V>(list: Seq<V>, item: V)
    requires
        list.no_duplicates(),
    ensures
        with_item(list, item).no_duplicates(),
        forall|x: V| #[trigger] with_item(list, item).contains(x) <==> (list.contains(x) || x == item),
{
    let r = with_item(list, item);
    if !list.contains(item) {
        assert(r[list.len() as int] == item);
        assert forall|x: V| #[trigger] r.contains(x) implies (list.contains(x) || x == item) by {
            let i = choose|i: int| 0 <= i < r.len() && r[i] == x;
            if i < list.len() {
                assert(list[i] == x);
            }
        }
        assert forall|x: V| (list.contains(x) || x == item) implies #[trigger] r.contains(x) by {
            if list.contains(x) {
                let i = choose|i: int| 0 <= i < list.len() && list[i] == x;
                assert(r[i] == x);
            }
        }
    }
}

/// Taking an item out keeps a list free of repetition and takes out
/// nothing else.
pub proof fn lemma_without_item<V>(list: Seq<V>, item: V)
    requires
        list.no_duplicates(),
    ensures
        without_item(list, item).no_duplicates(),
        forall|x: V|
            #[trigger] without_item(list, item).contains(x) <==> (list.contains(x) && x != item),
{
    let r = without_item(list, item);
    if list.contains(item) {
        let k = list.index_of(item);
        list.remove_ensures(k);
        assert forall|x: V| #[trigger] r.contains(x) implies (list.contains(x) && x != item) by {
            let i = choose|i: int| 0 <= i < r.len() && r[i] == x;
            if i < k {
                assert(list[i] == x);
            } else {
                assert(list[i + 1] == x);
            }
        }
        assert forall|x: V| (list.contains(x) && x != item) implies #[trigger] r.contains(x) by {
            let i = choose|i: int| 0 <= i < list.len() && list[i] == x;
            if i < k {
                assert(r[i] == x);
            } else {
                assert(r[i - 1] == x);
            }
        }
    }
}

/// The list at position `at` without its item at position `pos` is the list
/// without that item.
proof fn lemma_remove_at<V>(list: Seq<V>, pos: int)
    requires
        list.no_duplicates(),
        0 <= pos < list.len(),
    ensures
        list.remove(pos) == without_item(list, list[pos]),
{
    assert(list.contains(list[pos]));
}

/// Where `item` stands in the list.
fn find_item<V: Key>(items: &Vec<V>, item: &V) -> (found: Option<usize>)
    ensures
        match found {
            Some(i) => i < items.len() && items[i as int] == *item,
            None => !items@.contains(*item),
        },
{
    let mut i: usize = 0;
    while i < items.len()
        invariant
            0 <= i <= items.len(),
            forall|j: int| 0 <= j < i ==> items[j] != *item,
        decreases items.len() - i,
    {
        if items[i].same(item) {
            return Some(i);
        }
        i = i + 1;
    }
    None
}

/// A copy of the list.
fn copy_of<V: Key>(source: &Vec<V>) -> (items: Vec<V>)
    ensures
        items@ == source@,
{
    let mut items: Vec<V> = Vec::new();
    let mut j: usize = 0;
    while j < source.len()
        invariant
            0 <= j <= source.len(),
            items@ == source@.subrange(0, j as int),
        decreases source.len() - j,
    {
        items.push(source[j]);
        assert(items@ == source@.subrange(0, j + 1));
        j = j + 1;
    }
    assert(items@ == source@);
    items
}

/// A map from keys to lists, for keys that are integers: the lists are
/// held in a hash map of the standard library. A key that was never given
/// a list maps to the empty list.
pub struct IdEdgeMap<K: Key + Eq + Hash, V: Key> {
    lists: HashMap<K, Vec<V>>,
}

impl<K: Key + Eq + Hash, V: Key> IdEdgeMap<K, V> {
    /// The hash map behaves as a map of its keys, and no list holds an
    /// item twice.
    pub closed spec fn wf(&self) -> bool {
        &&& obeys_key_model::<K>()
        &&& forall|key: K| #[trigger]
            self.lists@.contains_key(key) ==> self.lists@[key]@.no_duplicates()
    }

    /// Whether the map holds an entry for `key`, be its list empty or not.
    pub closed spec fn has_key(&self, key: K) -> bool {
        self.lists@.contains_key(key)
    }

    /// The list that `key` maps to.
    pub closed spec fn list(&self, key: K) -> Seq<V> {
        if self.lists@.contains_key(key) {
            self.lists@[key]@
        } else {
            Seq::empty()
        }
    }

    /// Whether `item` is in the list of `key`.
    pub open spec fn contains(&self, key: K, item: V) -> bool {
        self.list(key).contains(item)
    }

    /// In a well-formed map no list holds an item twice, and a key without
    /// an entry has the empty list.
    pub proof fn lemma_lists(&self, key: K)
        requires
            self.wf(),
        ensures
            self.list(key).no_duplicates(),
            !self.has_key(key) ==> self.list(key) == Seq::<V>::empty(),
    {
    }

    /// The empty map, for keys of which the hash map keeps track as a map
    /// does.
    pub fn new() -> (map: Self)
        requires
            obeys_key_model::<K>(),
        ensures
            map.wf(),
            forall|key: K| !map.has_key(key),
            forall|key: K| map.list(key) == Seq::<V>::empty(),
    {
        IdEdgeMap { lists: HashMap::new() }
    }

    /// Whether `key` has an entry.
    pub fn contains_key(&self, key: &K) -> (found: bool)
        requires
            self.wf(),
        ensures
            found == self.has_key(*key),
    {
        self.lists.contains_key(key)
    }

    /// A copy of the list of `key`.
    pub fn get(&self, key: &K) -> (items: Vec<V>)
        requires
            self.wf(),
        ensures
            items@ == self.list(*key),
    {
        match self.lists.get(key) {
            Some(source) => copy_of(source),
            None => Vec::new(),
        }
    }

    /// Puts `item` at the end of the list of `key`, unless it is there
    /// already, and gives `key` an entry.
    pub fn insert(&mut self, key: K, item: V)
        requires
            old(self).wf(),
        ensures
            final(self).wf(),
            final(self).list(key) == with_item(old(self).list(key), item),
            forall|other: K| other != key ==> final(self).list(other) == old(self).list(other),
            forall|other: K| final(self).has_key(other) == (old(self).has_key(other) || other == key),
    {
        let mut items = match self.lists.remove(&key) {
            Some(items) => items,
            None => Vec::new(),
        };
        assert(items@ == old(self).list(key));
        if find_item(&items, &item).is_none() {
            items.push(item);
        }
        proof {
            lemma_with_item(old(self).list(key), item);
        }
        self.lists.insert(key, items);
    }

    /// Takes `item` out of the list of `key`. The entry of `key` stays.
    pub fn remove(&mut self, key: &K, item: &V)
        requires
            old(self).wf(),
        ensures
            final(self).wf(),
            final(self).list(*key) == without_item(old(self).list(*key), *item),
            forall|other: K| other != *key ==> final(self).list(other) == old(self).list(other),
            forall|other: K| final(self).has_key(other) == old(self).has_key(other),
    {
        match self.lists.remove(key) {
            Some(found) => {
                let mut items = found;
                match find_item(&items, item) {
                    Some(j) => {
                        proof {
                            lemma_remove_at(items@, j as int);
                        }
                        items.remove(j);
                    },
                    None => {},
                }
                proof {
                    lemma_without_item(old(self).list(*key), *item);
                }
                self.lists.insert(*key, items);
            },
            None => {
                assert(self.lists@ == old(self).lists@);
            },
        }
    }

    /// Takes the entry of `key` out of the map, and returns its list.
    pub fn remove_key(&mut self, key: &K) -> (items: Vec<V>)
        requires
            old(self).wf(),
        ensures
            final(self).wf(),
            items@ == old(self).list(*key),
            final(self).list(*key) == Seq::<V>::empty(),
            forall|other: K| other != *key ==> final(self).list(other) == old(self).list(other),
            forall|other: K| final(self).has_key(other) == (old(self).has_key(other) && other != *key),
    {
        match self.lists.remove(key) {
            Some(items) => items,
            None => Vec::new(),
        }
    }
}

/// One key with the list that it maps to.
pub struct Bucket<K, V> {
    pub key: K,
    pub items: Vec<V>,
}

/// A map from keys to lists, for keys of any kind: the entries are held in
/// a list, in the order in which the keys came. A key that was never given
/// a list maps to the empty list.
pub struct EdgeMap<K: Key, V: Key> {
    buckets: Vec<Bucket<K, V>>,
}

impl<K: Key, V: Key> EdgeMap<K, V> {
    /// No key stands twice, and no list holds an item twice.
    pub closed spec fn wf(&self) -> bool {
        &&& forall|i: int, j: int|
            0 <= i < j < self.buckets.len() ==> (#[trigger] self.buckets[i]).key != (
            #[trigger] self.buckets[j]).key
        &&& forall|i: int|
            0 <= i < self.buckets.len() ==> (#[trigger] self.buckets[i]).items@.no_duplicates()
    }

    /// Whether the map holds an entry for `key`, be its list empty or not.
    pub closed spec fn has_key(&self, key: K) -> bool {
        exists|i: int| 0 <= i < self.buckets.len() && (#[trigger] self.buckets[i]).key == key
    }

    spec fn position(&self, key: K) -> int {
        choose|i: int| 0 <= i < self.buckets.len() && (#[trigger] self.buckets[i]).key == key
    }

    /// The list that `key` maps to.
    pub closed spec fn list(&self, key: K) -> Seq<V> {
        if self.has_key(key) {
            self.buckets[self.position(key)].items@
        } else {
            Seq::empty()
        }
    }

    /// Whether `item` is in the list of `key`.
    pub open spec fn contains(&self, key: K, item: V) -> bool {
        self.list(key).contains(item)
    }

    proof fn lemma_position(&self, i: int)
        requires
            self.wf(),
            0 <= i < self.buckets.len(),
        ensures
            self.has_key(self.buckets[i].key),
            self.position(self.buckets[i].key) == i,
            self.list(self.buckets[i].key) == self.buckets[i].items@,
    {
        let key = self.buckets[i].key;
        let p = self.position(key);
        assert(0 <= p < self.buckets.len() && self.buckets[p].key == key);
        if p < i {
            assert(self.buckets[p].key != self.buckets[i].key);
        } else if i < p {
            assert(self.buckets[i].key != self.buckets[p].key);
        }
    }

    /// In a well-formed map no list holds an item twice, and a key without
    /// an entry has the empty list.
    pub proof fn lemma_lists(&self, key: K)
        requires
            self.wf(),
        ensures
            self.list(key).no_duplicates(),
            !self.has_key(key) ==> self.list(key) == Seq::<V>::empty(),
    {
        if self.has_key(key) {
            let p = self.position(key);
            assert(0 <= p < self.buckets.len() && self.buckets[p].key == key);
        }
    }

    /// The empty map.
    pub fn new() -> (map: Self)
        ensures
            map.wf(),
            forall|key: K| !map.has_key(key),
            forall|key: K| map.list(key) == Seq::<V>::empty(),
    {
        EdgeMap { buckets: Vec::new() }
    }

    fn find(&self, key: &K) -> (found: Option<usize>)
        requires
            self.wf(),
        ensures
            match found {
                Some(i) => i < self.buckets.len() && self.buckets[i as int].key == *key,
                None => !self.has_key(*key),
            },
    {
        let mut i: usize = 0;
        while i < self.buckets.len()
            invariant
                0 <= i <= self.buckets.len(),
                forall|j: int| 0 <= j < i ==> (#[trigger] self.buckets[j]).key != *key,
            decreases self.buckets.len() - i,
        {
            if self.buckets[i].key.same(key) {
                return Some(i);
            }
            i = i + 1;
        }
        None
    }

    /// Whether `key` has an entry.
    pub fn contains_key(&self, key: &K) -> (found: bool)
        requires
            self.wf(),
        ensures
            found == self.has_key(*key),
    {
        self.find(key).is_some()
    }

    /// A copy of the list of `key`.
    pub fn get(&self, key: &K) -> (items: Vec<V>)
        requires
            self.wf(),
        ensures
            items@ == self.list(*key),
    {
        match self.find(key) {
            Some(i) => {
                proof {
                    self.lemma_position(i as int);
                }
                copy_of(&self.buckets[i].items)
            },
            None => Vec::new(),
        }
    }

    /// Puts `item` at the end of the list of `key`, unless it is there
    /// already, and gives `key` an entry.
    pub fn insert(&mut self, key: K, item: V)
        requires
            old(self).wf(),
        ensures
            final(self).wf(),
            final(self).list(key) == with_item(old(self).list(key), item),
            forall|other: K| other != key ==> final(self).list(other) == old(self).list(other),
            forall|other: K| final(self).has_key(other) == (old(self).has_key(other) || other == key),
    {
        match self.find(&key) {
            Some(i) => {
                proof {
                    self.lemma_position(i as int);
                }
                if find_item(&self.buckets[i].items, &item).is_none() {
                    proof {
                        lemma_with_item(self.buckets[i as int].items@, item);
                    }
                    self.buckets[i].items.push(item);
                }
                proof {
                    self.lemma_same_keys(old(self), i as int);
                }
            },
            None => {
                let mut items: Vec<V> = Vec::new();
                items.push(item);
                self.buckets.push(Bucket { key, items });
                proof {
                    let n = old(self).buckets.len() as int;
                    assert(self.buckets[n].items@ == seq![item]);
                    assert forall|i: int, j: int| 0 <= i < j < self.buckets.len() implies (
                    #[trigger] self.buckets[i]).key != (#[trigger] self.buckets[j]).key by {
                        if j == n {
                            assert(old(self).buckets[i].key != key);
                        } else {
                            assert(old(self).buckets[i].key != old(self).buckets[j].key);
                        }
                    }
                    assert forall|i: int| 0 <= i < self.buckets.len() implies (
                    #[trigger] self.buckets[i]).items@.no_duplicates() by {
                        if i < n {
                            assert(old(self).buckets[i].items@.no_duplicates());
                        }
                    }
                    self.lemma_position(n);
                    assert(old(self).list(key) == Seq::<V>::empty());
                    assert(with_item(Seq::<V>::empty(), item) == seq![item]);
                    assert forall|other: K| other != key implies self.list(other) == old(
                        self,
                    ).list(other) && self.has_key(other) == old(self).has_key(other) by {
                        if old(self).has_key(other) {
                            let p = old(self).position(other);
                            assert(self.buckets[p].key == other);
                            self.lemma_position(p);
                        } else if self.has_key(other) {
                            let p = self.position(other);
                            assert(old(self).buckets[p].key == other);
                        }
                    }
                }
            },
        }
    }

    /// The two maps hold the same keys at the same positions, and the same
    /// lists but at position `at`.
    proof fn lemma_same_keys(&self, before: &Self, at: int)
        requires
            before.wf(),
            self.wf(),
            0 <= at < before.buckets.len(),
            self.buckets.len() == before.buckets.len(),
            forall|i: int|
                0 <= i < self.buckets.len() ==> (#[trigger] self.buckets[i]).key
                    == before.buckets[i].key,
            forall|i: int|
                0 <= i < self.buckets.len() && i != at ==> (#[trigger] self.buckets[i]).items
                    == before.buckets[i].items,
        ensures
            self.list(before.buckets[at].key) == self.buckets[at].items@,
            forall|other: K|
                other != before.buckets[at].key ==> self.list(other) == before.list(other),
            forall|other: K| self.has_key(other) == before.has_key(other),
    {
        self.lemma_position(at);
        assert forall|other: K| self.has_key(other) == before.has_key(other) by {
            if before.has_key(other) {
                let p = before.position(other);
                assert(self.buckets[p].key == other);
            }
            if self.has_key(other) {
                let p = self.position(other);
                assert(before.buckets[p].key == other);
            }
        }
        assert forall|other: K| other != before.buckets[at].key implies self.list(other)
            == before.list(other) by {
            if before.has_key(other) {
                let p = before.position(other);
                assert(self.buckets[p].key == other);
                self.lemma_position(p);
            }
        }
    }

    /// Takes `item` out of the list of `key`, if it is there. The entry of
    /// `key` stays.
    pub fn remove(&mut self, key: &K, item: &V)
        requires
            old(self).wf(),
        ensures
            final(self).wf(),
            final(self).list(*key) == without_item(old(self).list(*key), *item),
            forall|other: K| other != *key ==> final(self).list(other) == old(self).list(other),
            forall|other: K| final(self).has_key(other) == old(self).has_key(other),
    {
        match self.find(key) {
            Some(i) => {
                proof {
                    self.lemma_position(i as int);
                }
                match find_item(&self.buckets[i].items, item) {
                    Some(j) => {
                        proof {
                            lemma_remove_at(self.buckets[i as int].items@, j as int);
                            lemma_without_item(self.buckets[i as int].items@, *item);
                        }
                        self.buckets[i].items.remove(j);
                    },
                    None => {},
                }
                proof {
                    self.lemma_same_keys(old(self), i as int);
                }
            },
            None => {
                proof {
                    old(self).lemma_lists(*key);
                }
            },
        }
    }

    /// Takes out the entry of `key` and returns the list that it held.
    pub fn remove_key(&mut self, key: &K) -> (items: Vec<V>)
        requires
            old(self).wf(),
        ensures
            final(self).wf(),
            items@ == old(self).list(*key),
            final(self).list(*key) == Seq::<V>::empty(),
            forall|other: K| other != *key ==> final(self).list(other) == old(self).list(other),
            forall|other: K| final(self).has_key(other) == (old(self).has_key(other) && other != *key),
    {
        match self.find(key) {
            Some(i) => {
                proof {
                    self.lemma_position(i as int);
                    old(self).buckets@.remove_ensures(i as int);
                }
                let bucket = self.buckets.remove(i);
                proof {
                    let gap = i as int;
                    assert forall|a: int, b: int| 0 <= a < b < self.buckets.len() implies (
                    #[trigger] self.buckets[a]).key != (#[trigger] self.buckets[b]).key by {
                        let a0 = if a < gap { a } else { a + 1 };
                        let b0 = if b < gap { b } else { b + 1 };
                        assert(old(self).buckets[a0].key != old(self).buckets[b0].key);
                    }
                    assert forall|a: int| 0 <= a < self.buckets.len() implies (
                    #[trigger] self.buckets[a]).items@.no_duplicates() by {
                        let a0 = if a < gap { a } else { a + 1 };
                        assert(old(self).buckets[a0].items@.no_duplicates());
                    }
                    assert(!self.has_key(*key)) by {
                        if self.has_key(*key) {
                            let p = self.position(*key);
                            let earlier = if p < gap { p } else { p + 1 };
                            assert(old(self).buckets[earlier].key == *key);
                            if earlier < gap {
                                assert(old(self).buckets[earlier].key != old(self).buckets[gap].key);
                            } else {
                                assert(old(self).buckets[gap].key != old(self).buckets[earlier].key);
                            }
                        }
                    }
                    assert forall|other: K| other != *key implies self.list(other) == old(
                        self,
                    ).list(other) && self.has_key(other) == old(self).has_key(other) by {
                        if old(self).has_key(other) {
                            let p = old(self).position(other);
                            let later = if p < gap { p } else { p - 1 };
                            assert(self.buckets[later].key == other);
                            self.lemma_position(later);
                        } else if self.has_key(other) {
                            let p = self.position(other);
                            let earlier = if p < gap { p } else { p + 1 };
                            assert(old(self).buckets[earlier].key == other);
                        }
                    }
                }
                bucket.items
            },
            None => Vec::new(),
        }
    }
}

} // verus!
