//! A map that keeps its keys in their order.
use crate::grouped_collections::grouped_collection::{
    add_to_group,
    increasing,
    lemma_lists_one_map,
    listed,
    listed_keys,
    lists,
    GroupedCollection,
};
use crate::grouped_collections::key::{GroupKey, KeyOrder};
use vstd::prelude::*;

verus! {

/// What a list of borrowed keys and items says: the model of each key with
/// its item.
pub open spec fn pair_models<K: GroupKey, T>(list: Seq<(&K, &T)>) -> Seq<(K::Model, T)> {
    Seq::new(list.len(), |i: int| (list[i].0.model(), *list[i].1))
}

/// The groups that a map from keys to vectors holds.
pub open spec fn group_views<M, V>(entries: Map<M, Vec<V>>) -> Map<M, Seq<V>> {
    Map::new(|m: M| entries.contains_key(m), |m: M| entries[m]@)
}

/// The models of a sequence of keys.
pub open spec fn models<K: GroupKey>(keys: Seq<K>) -> Seq<K::Model> {
    Seq::new(keys.len(), |i: int| keys[i].model())
}

/// A map from keys to items that holds its entries in the order of the keys.
#[derive(Debug)]
pub struct SortedMap<K: GroupKey, T> {
    keys: Vec<K>,
    items: Vec<T>,
}

impl<K: GroupKey, T> SortedMap<K, T> {
    /// Every key has its item, and the keys are increasing. This holds of
    /// every map that a program holds.
    #[verifier::type_invariant]
    pub closed spec fn wf(&self) -> bool {
        self.keys.len() == self.items.len() && increasing::<K>(models(self.keys@))
    }

    /// The entries of the map in the order of their keys.
    pub closed spec fn pairs(&self) -> Seq<(K::Model, T)> {
        Seq::new(self.keys.len() as nat, |i: int| (self.keys[i].model(), self.items[i]))
    }

    /// The map from each key to its item.
    pub closed spec fn entries(&self) -> Map<K::Model, T> {
        Map::new(
            |m: K::Model| exists|i: int| 0 <= i < self.keys.len() && self.keys[i].model() == m,
            |m: K::Model|
                self.items[choose|i: int| 0 <= i < self.keys.len() && self.keys[i].model() == m],
        )
    }

    /// The pairs of a map list its entries, each of them once, in the order
    /// of the keys.
    pub proof fn lemma_pairs(&self)
        requires
            self.wf(),
        ensures
            lists(self.pairs(), self.entries()),
            increasing::<K>(self.pairs().map_values(|p: (K::Model, T)| p.0)),
    {
        let keys = models(self.keys@);
        assert forall|i: int, j: int| 0 <= i < j < keys.len() implies keys[i] != keys[j] by {
            K::lemma_asymmetric(keys[i], keys[j]);
        }
        assert forall|i: int, j: int| 0 <= i < j < self.pairs().len() implies #[trigger] self.pairs()[i].0
            != #[trigger] self.pairs()[j].0 by {
            assert(keys[i] != keys[j]);
        }
        assert forall|i: int| 0 <= i < self.pairs().len() implies self.entries().contains_key(
            #[trigger] self.pairs()[i].0,
        ) && self.entries()[self.pairs()[i].0] == self.pairs()[i].1 by {
            let m = self.pairs()[i].0;
            assert(self.keys[i].model() == m);
            let c = choose|c: int| 0 <= c < self.keys.len() && self.keys[c].model() == m;
            assert(keys[c] == keys[i]);
        }
        assert forall|k: K::Model| #[trigger] self.entries().contains_key(k) implies exists|i: int|
            0 <= i < self.pairs().len() && #[trigger] self.pairs()[i].0 == k by {
            let c = choose|c: int| 0 <= c < self.keys.len() && self.keys[c].model() == k;
            assert(self.pairs()[c].0 == k);
        }
        let firsts = self.pairs().map_values(|p: (K::Model, T)| p.0);
        assert forall|i: int, j: int| 0 <= i < j < firsts.len() implies K::precedes(
            firsts[i],
            firsts[j],
        ) by {
            assert(firsts[i] == keys[i] && firsts[j] == keys[j]);
        }
    }

    /// Makes an empty map.
    pub fn new() -> (map: Self)
        ensures
            map.entries() == Map::<K::Model, T>::empty(),
            map.pairs().len() == 0,
    {
        let map = SortedMap { keys: Vec::new(), items: Vec::new() };
        assert(map.entries() =~= Map::<K::Model, T>::empty());
        map
    }

    /// The number of entries.
    pub fn len(&self) -> (n: usize)
        ensures
            n == self.pairs().len(),
    {
        self.keys.len()
    }

    /// Searches the keys for `key`: where it is found, returns its place;
    /// where it is not, the place at which it would stand.
    fn position(&self, key: &K) -> (r: (bool, usize))
        ensures
            r.1 <= self.keys.len(),
            r.0 ==> r.1 < self.keys.len() && self.keys[r.1 as int].model() == key.model(),
            !r.0 ==> forall|i: int|
                0 <= i < r.1 ==> K::precedes(#[trigger] self.keys[i].model(), key.model()),
            !r.0 ==> forall|i: int|
                r.1 <= i < self.keys.len() ==> K::precedes(
                    key.model(),
                    #[trigger] self.keys[i].model(),
                ),
    {
        proof {
            use_type_invariant(self);
        }
        let ghost ms = models(self.keys@);
        let mut lo: usize = 0;
        let mut hi: usize = self.keys.len();
        while lo < hi
            invariant
                lo <= hi <= self.keys.len(),
                ms == models(self.keys@),
                increasing::<K>(ms),
                forall|i: int| 0 <= i < lo ==> K::precedes(#[trigger] ms[i], key.model()),
                forall|i: int|
                    hi <= i < self.keys.len() ==> K::precedes(key.model(), #[trigger] ms[i]),
            decreases hi - lo,
        {
            let mid = lo + (hi - lo) / 2;
            match self.keys[mid].compare(key) {
                KeyOrder::Equal => {
                    return (true, mid);
                },
                KeyOrder::Less => {
                    assert forall|i: int| 0 <= i < mid + 1 implies K::precedes(
                        #[trigger] ms[i],
                        key.model(),
                    ) by {
                        if i < mid {
                            K::lemma_transitive(ms[i], ms[mid as int], key.model());
                        }
                    }
                    lo = mid + 1;
                },
                KeyOrder::Greater => {
                    assert forall|i: int| mid <= i < self.keys.len() implies K::precedes(
                        key.model(),
                        #[trigger] ms[i],
                    ) by {
                        if mid < i {
                            K::lemma_transitive(key.model(), ms[mid as int], ms[i]);
                        }
                    }
                    hi = mid;
                },
            }
        }
        assert forall|i: int| 0 <= i < lo implies K::precedes(
            #[trigger] self.keys[i].model(),
            key.model(),
        ) by {
            assert(ms[i] == self.keys[i].model());
        }
        assert forall|i: int| lo <= i < self.keys.len() implies K::precedes(
            key.model(),
            #[trigger] self.keys[i].model(),
        ) by {
            assert(ms[i] == self.keys[i].model());
        }
        (false, lo)
    }

    /// Where `position` does not find a key, the map has no entry for it.
    proof fn lemma_absent(&self, m: K::Model, p: int)
        requires
            self.wf(),
            0 <= p <= self.keys.len(),
            forall|i: int| 0 <= i < p ==> K::precedes(#[trigger] self.keys[i].model(), m),
            forall|i: int|
                p <= i < self.keys.len() ==> K::precedes(m, #[trigger] self.keys[i].model()),
        ensures
            !self.entries().contains_key(m),
    {
        if self.entries().contains_key(m) {
            let c = choose|c: int| 0 <= c < self.keys.len() && self.keys[c].model() == m;
            K::lemma_asymmetric(self.keys[c].model(), m);
        }
    }

    /// The item at a place is the item of the key at that place.
    proof fn lemma_present(&self, i: int)
        requires
            self.wf(),
            0 <= i < self.keys.len(),
        ensures
            self.entries().contains_key(self.keys[i].model()),
            self.entries()[self.keys[i].model()] == self.items[i],
    {
        self.lemma_pairs();
        assert(self.pairs()[i].0 == self.keys[i].model());
    }

    /// Returns the item of `key`, if the map has one.
    pub fn get(&self, key: &K) -> (item: Option<&T>)
        ensures
            match item {
                Some(t) => self.entries().contains_key(key.model()) && *t
                    == self.entries()[key.model()],
                None => !self.entries().contains_key(key.model()),
            },
    {
        proof {
            use_type_invariant(self);
        }
        let (found, p) = self.position(key);
        if found {
            proof {
                self.lemma_present(p as int);
            }
            Some(&self.items[p])
        } else {
            proof {
                self.lemma_absent(key.model(), p as int);
            }
            None
        }
    }

    /// Sets the item of `key`, in place of the one that the map had for it.
    pub fn insert(&mut self, key: K, item: T)
        ensures
            final(self).entries() == old(self).entries().insert(key.model(), item),
    {
        proof {
            use_type_invariant(&*self);
            self.lemma_pairs();
        }
        let ghost before = *self;
        let ghost target = self.entries().insert(key.model(), item);
        let (found, p) = self.position(&key);
        let mut taken = SortedMap::new();
        std::mem::swap(self, &mut taken);
        let SortedMap { mut keys, mut items } = taken;
        let ghost old_keys = keys@;
        let ghost old_items = items@;
        if found {
            items.set(p, item);
        } else {
            keys.insert(p, key);
            items.insert(p, item);
            assert forall|i: int, j: int| 0 <= i < j < keys.len() implies K::precedes(
                #[trigger] models(keys@)[i],
                #[trigger] models(keys@)[j],
            ) by {
                let a = if i < p { i } else { i - 1 };
                let b = if j < p { j } else { j - 1 };
                if i != p && j != p {
                    assert(models(old_keys)[a] == old_keys[a].model());
                    assert(models(old_keys)[b] == old_keys[b].model());
                    assert(K::precedes(models(old_keys)[a], models(old_keys)[b]));
                } else if i == p {
                    assert(K::precedes(key.model(), old_keys[b].model()));
                } else {
                    assert(K::precedes(old_keys[a].model(), key.model()));
                }
            }
        }
        *self = SortedMap { keys, items };
        proof {
            self.lemma_pairs();
            let pairs = self.pairs();
            let was = before.pairs();
            assert forall|i: int| 0 <= i < pairs.len() implies target.contains_key(
                #[trigger] pairs[i].0,
            ) && target[pairs[i].0] == pairs[i].1 by {
                if i != p {
                    let a = if found || i < p { i } else { i - 1 };
                    assert(was[a].0 == pairs[i].0 && was[a].1 == pairs[i].1);
                    assert(before.entries().contains_key(was[a].0));
                    if found {
                        assert(was[p as int].0 == key.model());
                    } else {
                        K::lemma_asymmetric(was[a].0, key.model());
                    }
                } else if found {
                    assert(was[i].0 == key.model());
                }
            }
            assert forall|k: K::Model| #[trigger] target.contains_key(k) implies exists|i: int|
                0 <= i < pairs.len() && #[trigger] pairs[i].0 == k by {
                if k == key.model() {
                    if found {
                        assert(was[p as int].0 == key.model());
                    }
                    assert(pairs[p as int].0 == k);
                } else {
                    assert(before.entries().contains_key(k));
                    let a = choose|a: int| 0 <= a < was.len() && #[trigger] was[a].0 == k;
                    let i = if found || a < p { a } else { a + 1 };
                    assert(pairs[i].0 == k);
                }
            }
            lemma_lists_one_map(pairs, self.entries(), target);
        }
    }

    /// Returns every key with its item, each key once, in the order of the
    /// keys.
    pub fn iter(&self) -> (list: Vec<(&K, &T)>)
        ensures
            pair_models(list@) == self.pairs(),
            lists(self.pairs(), self.entries()),
            increasing::<K>(self.pairs().map_values(|p: (K::Model, T)| p.0)),
    {
        proof {
            use_type_invariant(self);
            self.lemma_pairs();
        }
        let mut list: Vec<(&K, &T)> = Vec::new();
        let mut i: usize = 0;
        while i < self.keys.len()
            invariant
                i <= self.keys.len(),
                self.keys.len() == self.items.len(),
                list.len() == i,
                forall|j: int|
                    0 <= j < i ==> (#[trigger] list[j]).0.model() == self.pairs()[j].0
                        && *list[j].1 == self.pairs()[j].1,
            decreases self.keys.len() - i,
        {
            list.push((&self.keys[i], &self.items[i]));
            i += 1;
        }
        assert(pair_models(list@) =~= self.pairs());
        list
    }
}

impl<K: GroupKey, T: Clone> Clone for SortedMap<K, T> {
    /// Returns a map with the same keys, in which the item of each key is a
    /// clone of the item that this map has for it.
    fn clone(&self) -> (copy: Self)
        ensures
            copy.entries().dom() =~= self.entries().dom(),
            forall|k: K::Model| #[trigger]
                copy.entries().contains_key(k) ==> cloned::<T>(
                    self.entries()[k],
                    copy.entries()[k],
                ),
    {
        proof {
            use_type_invariant(self);
            self.lemma_pairs();
        }
        let mut keys: Vec<K> = Vec::new();
        let mut items: Vec<T> = Vec::new();
        let mut i: usize = 0;
        while i < self.keys.len()
            invariant
                i <= self.keys.len(),
                self.keys.len() == self.items.len(),
                keys.len() == i,
                items.len() == i,
                forall|j: int| 0 <= j < i ==> (#[trigger] keys[j]).model() == self.keys[j].model(),
                forall|j: int| 0 <= j < i ==> cloned::<T>(self.items[j], #[trigger] items[j]),
            decreases self.keys.len() - i,
        {
            keys.push(self.keys[i].duplicate());
            items.push(self.items[i].clone());
            i += 1;
        }
        assert(models(keys@) =~= models(self.keys@));
        let copy = SortedMap { keys, items };
        proof {
            copy.lemma_pairs();
            let new = copy.pairs();
            let was = self.pairs();
            assert forall|k: K::Model| copy.entries().contains_key(k) implies self.entries().contains_key(
                k,
            ) && cloned::<T>(self.entries()[k], copy.entries()[k]) by {
                let j = choose|j: int| 0 <= j < new.len() && (#[trigger] new[j]).0 == k;
                assert(was[j].0 == k);
                assert(self.entries().contains_key(was[j].0));
                assert(copy.entries()[new[j].0] == new[j].1);
            }
            assert forall|k: K::Model| self.entries().contains_key(k) implies copy.entries().contains_key(
                k,
            ) by {
                let j = choose|j: int| 0 <= j < was.len() && (#[trigger] was[j]).0 == k;
                assert(new[j].0 == k);
                assert(copy.entries().contains_key(new[j].0));
            }
        }
        copy
    }
}

impl<K: GroupKey, V> SortedMap<K, Vec<V>> {
    /// The pairs of the map, each item by its values.
    pub closed spec fn group_pairs(&self) -> Seq<(K::Model, Seq<V>)> {
        Seq::new(self.keys.len() as nat, |i: int| (self.keys[i].model(), self.items[i]@))
    }

    proof fn lemma_group_pairs(&self)
        requires
            self.wf(),
        ensures
            lists(self.group_pairs(), group_views(self.entries())),
    {
        self.lemma_pairs();
        let pairs = self.pairs();
        let views = self.group_pairs();
        let map = group_views(self.entries());
        assert forall|i: int| 0 <= i < views.len() implies map.contains_key(#[trigger] views[i].0)
            && map[views[i].0] == views[i].1 by {
            assert(pairs[i].0 == views[i].0);
        }
        assert forall|i: int, j: int| 0 <= i < j < views.len() implies #[trigger] views[i].0
            != #[trigger] views[j].0 by {
            assert(pairs[i].0 != pairs[j].0);
        }
        assert forall|k: K::Model| #[trigger] map.contains_key(k) implies exists|i: int|
            0 <= i < views.len() && #[trigger] views[i].0 == k by {
            assert(self.entries().contains_key(k));
            let i = choose|i: int| 0 <= i < pairs.len() && #[trigger] pairs[i].0 == k;
            assert(views[i].0 == k);
        }
    }
}

impl<K: GroupKey, V> GroupedCollection<K, V> for SortedMap<K, Vec<V>> {
    open spec fn groups(&self) -> Map<K::Model, Seq<V>> {
        group_views(self.entries())
    }

    open spec fn listing(&self) -> Seq<(K::Model, Seq<V>)> {
        self.group_pairs()
    }

    open spec fn keeps_order() -> bool {
        true
    }

    fn add(&mut self, key: K, value: V) {
        proof {
            use_type_invariant(&*self);
            self.lemma_group_pairs();
        }
        let ghost before = *self;
        let ghost target = add_to_group(self.groups(), key.model(), value);
        let (found, p) = self.position(&key);
        let mut taken = SortedMap::new();
        std::mem::swap(self, &mut taken);
        let SortedMap { mut keys, mut items } = taken;
        let ghost old_keys = keys@;
        let ghost old_items = items@;
        if found {
            items[p].push(value);
        } else {
            let mut group = Vec::new();
            group.push(value);
            keys.insert(p, key);
            items.insert(p, group);
            assert forall|i: int, j: int| 0 <= i < j < keys.len() implies K::precedes(
                #[trigger] models(keys@)[i],
                #[trigger] models(keys@)[j],
            ) by {
                let a = if i < p { i } else { i - 1 };
                let b = if j < p { j } else { j - 1 };
                if i != p && j != p {
                    assert(models(old_keys)[a] == old_keys[a].model());
                    assert(models(old_keys)[b] == old_keys[b].model());
                    assert(K::precedes(models(old_keys)[a], models(old_keys)[b]));
                } else if i == p {
                    assert(K::precedes(key.model(), old_keys[b].model()));
                } else {
                    assert(K::precedes(old_keys[a].model(), key.model()));
                }
            }
        }
        *self = SortedMap { keys, items };
        proof {
            self.lemma_group_pairs();
            let pairs = self.group_pairs();
            let was = before.group_pairs();
            if found {
                assert(was[p as int].0 == key.model());
                assert(before.groups().contains_key(was[p as int].0));
            } else {
                before.lemma_absent(key.model(), p as int);
            }
            assert forall|i: int| 0 <= i < pairs.len() implies target.contains_key(
                #[trigger] pairs[i].0,
            ) && target[pairs[i].0] == pairs[i].1 by {
                if i != p {
                    let a = if found || i < p { i } else { i - 1 };
                    assert(was[a].0 == pairs[i].0 && was[a].1 == pairs[i].1);
                    assert(before.groups().contains_key(was[a].0));
                    if !found {
                        K::lemma_asymmetric(was[a].0, key.model());
                    }
                } else if found {
                    assert(pairs[i].1 =~= was[i].1.push(value));
                } else {
                    assert(pairs[i].1 =~= seq![value]);
                }
            }
            assert forall|k: K::Model| #[trigger] target.contains_key(k) implies exists|i: int|
                0 <= i < pairs.len() && #[trigger] pairs[i].0 == k by {
                if k == key.model() {
                    assert(pairs[p as int].0 == k);
                } else {
                    assert(before.groups().contains_key(k));
                    let a = choose|a: int| 0 <= a < was.len() && #[trigger] was[a].0 == k;
                    let i = if found || a < p { a } else { a + 1 };
                    assert(pairs[i].0 == k);
                }
            }
            lemma_lists_one_map(pairs, self.groups(), target);
        }
    }

    fn get(&self, key: &K) -> (group: Option<&Vec<V>>) {
        SortedMap::get(self, key)
    }

    fn iter(&self) -> (pairs: Vec<(&K, &Vec<V>)>) {
        let pairs = SortedMap::iter(self);
        proof {
            use_type_invariant(self);
            self.lemma_group_pairs();
            self.lemma_pairs();
            assert forall|i: int| 0 <= i < pairs.len() implies listed(pairs@)[i]
                == self.group_pairs()[i] by {
                assert(pair_models(pairs@)[i] == self.pairs()[i]);
            }
            assert(listed(pairs@) =~= self.group_pairs());
            let keys = self.pairs().map_values(|p: (K::Model, Vec<V>)| p.0);
            assert forall|i: int| 0 <= i < pairs.len() implies listed_keys(pairs@)[i]
                == keys[i] by {
                assert(pair_models(pairs@)[i] == self.pairs()[i]);
            }
            assert(listed_keys(pairs@) =~= keys);
        }
        pairs
    }
}

} // verus!
