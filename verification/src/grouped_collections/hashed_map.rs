//! A map that finds its keys by their hash.
use crate::grouped_collections::grouped_collection::{
    add_to_group,
    listed,
    lists,
    GroupedCollection,
};
use crate::grouped_collections::key::GroupKey;
use crate::grouped_collections::sorted_map::{group_views, pair_models, SortedMap};
use vstd::prelude::*;

verus! {

/// The number of slots of a map that holds an entry.
pub const SLOTS: usize = 1024;

/// The slot of a key in a table of `count` slots.
pub open spec fn slot_of<K: GroupKey>(m: K::Model, count: int) -> int {
    (K::hash_of(m) as int) % count
}

/// The pairs of the first `count` slots, slot by slot.
pub open spec fn slot_pairs<K: GroupKey, T>(slots: Seq<SortedMap<K, T>>, count: int) -> Seq<
    (K::Model, T),
>
    decreases count,
{
    if count <= 0 {
        Seq::empty()
    } else {
        slot_pairs(slots, count - 1) + slots[count - 1].pairs()
    }
}

/// A map from keys to items that holds each entry in the slot that the hash
/// of its key names. It yields its entries slot by slot, which is no order of
/// the keys.
#[derive(Debug)]
pub struct HashedMap<K: GroupKey, T> {
    slots: Vec<SortedMap<K, T>>,
}

impl<K: GroupKey, T> HashedMap<K, T> {
    /// A map has no slot until it gets an entry, and from then on each entry
    /// is in the slot of its key. This holds of every map that a program
    /// holds.
    #[verifier::type_invariant]
    pub closed spec fn wf(&self) -> bool {
        forall|s: int, m: K::Model|
            0 <= s < self.slots.len() && #[trigger] self.slots[s].entries().contains_key(m)
                ==> slot_of::<K>(m, self.slots.len() as int) == s
    }

    /// The map from each key to its item.
    pub closed spec fn entries(&self) -> Map<K::Model, T> {
        Map::new(
            |m: K::Model|
                self.slots.len() > 0 && self.slots[slot_of::<K>(
                    m,
                    self.slots.len() as int,
                )].entries().contains_key(m),
            |m: K::Model| self.slots[slot_of::<K>(m, self.slots.len() as int)].entries()[m],
        )
    }

    /// Makes an empty map.
    pub fn new() -> (map: Self)
        ensures
            map.entries() == Map::<K::Model, T>::empty(),
    {
        let map = HashedMap { slots: Vec::new() };
        assert(map.entries() =~= Map::<K::Model, T>::empty());
        map
    }

    /// The slot of `key` in a table of `count` slots.
    fn slot(key: &K, count: usize) -> (s: usize)
        requires
            count > 0,
        ensures
            s == slot_of::<K>(key.model(), count as int),
            s < count,
    {
        (key.hash() % (count as u64)) as usize
    }

    /// Makes the slots of a map that gets its first entry.
    fn fresh_slots() -> (slots: Vec<SortedMap<K, T>>)
        ensures
            slots.len() == SLOTS,
            forall|s: int|
                0 <= s < slots.len() ==> (#[trigger] slots[s]).entries() == Map::<
                    K::Model,
                    T,
                >::empty(),
    {
        let mut slots: Vec<SortedMap<K, T>> = Vec::new();
        while slots.len() < SLOTS
            invariant
                slots.len() <= SLOTS,
                forall|s: int|
                    0 <= s < slots.len() ==> (#[trigger] slots[s]).entries() == Map::<
                        K::Model,
                        T,
                    >::empty(),
            decreases SLOTS - slots.len(),
        {
            slots.push(SortedMap::new());
        }
        slots
    }

    /// Returns the item of `key`, if the map has one.
    pub fn get(&self, key: &K) -> (item: Option<&T>)
        ensures
            match item {
                Some(t) => self.entries().contains_key(key.model()) && *t
                    == self.entries()[key.model()],
                None => !self.entries().contains_key(key.model()),
            },
    {
        if self.slots.len() == 0 {
            None
        } else {
            let s = Self::slot(key, self.slots.len());
            self.slots[s].get(key)
        }
    }

    /// Sets the item of `key`, in place of the one that the map had for it.
    pub fn insert(&mut self, key: K, item: T)
        ensures
            final(self).entries() == old(self).entries().insert(key.model(), item),
    {
        proof {
            use_type_invariant(&*self);
        }
        let ghost before = *self;
        let mut taken = HashedMap::new();
        std::mem::swap(self, &mut taken);
        let HashedMap { mut slots } = taken;
        if slots.len() == 0 {
            slots = Self::fresh_slots();
        }
        let ghost mid = slots@;
        let s = Self::slot(&key, slots.len());
        slots[s].insert(key, item);
        assert(forall|t: int| 0 <= t < slots.len() && t != s ==> slots[t] == mid[t]);
        *self = HashedMap { slots };
        assert(self.entries() =~= before.entries().insert(key.model(), item));
    }

    /// The entries of the map in the order of the slots, and in each slot in
    /// the order of the keys.
    pub closed spec fn pairs(&self) -> Seq<(K::Model, T)> {
        slot_pairs(self.slots@, self.slots.len() as int)
    }

    /// Returns every key with its item, each key once, slot by slot.
    pub fn iter(&self) -> (list: Vec<(&K, &T)>)
        ensures
            pair_models(list@) == self.pairs(),
            lists(self.pairs(), self.entries()),
    {
        proof {
            use_type_invariant(self);
        }
        let mut list: Vec<(&K, &T)> = Vec::new();
        let mut s: usize = 0;
        let ghost count = self.slots.len() as int;
        while s < self.slots.len()
            invariant
                s <= self.slots.len(),
                count == self.slots.len(),
                self.wf(),
                pair_models(list@) == slot_pairs(self.slots@, s as int),
                forall|j: int|
                    0 <= j < list.len() ==> {
                        let p = #[trigger] pair_models(list@)[j];
                        self.entries().contains_key(p.0) && self.entries()[p.0] == p.1
                            && slot_of::<K>(p.0, count) < s
                    },
                forall|i: int, j: int|
                    0 <= i < j < list.len() ==> (#[trigger] pair_models(list@)[i]).0
                        != (#[trigger] pair_models(list@)[j]).0,
                forall|m: K::Model|
                    #[trigger] self.entries().contains_key(m) && slot_of::<K>(m, count) < s
                        ==> exists|j: int|
                        0 <= j < list.len() && (#[trigger] pair_models(list@)[j]).0 == m,
            decreases self.slots.len() - s,
        {
            let ghost before = list@;
            let mut part = self.slots[s].iter();
            let ghost added = part@;
            let ghost bucket = self.slots[s as int];
            list.append(&mut part);
            proof {
                let now = pair_models(list@);
                let was = pair_models(before);
                let new = pair_models(added);
                assert(new == bucket.pairs());
                assert(now =~= was + new);
                assert forall|j: int| 0 <= j < list.len() implies {
                    let p = #[trigger] now[j];
                    self.entries().contains_key(p.0) && self.entries()[p.0] == p.1 && slot_of::<K>(
                        p.0,
                        count,
                    ) < s + 1
                } by {
                    if j < before.len() {
                        assert(now[j] == was[j]);
                    } else {
                        assert(now[j] == new[j - before.len()]);
                        assert(bucket.entries().contains_key(new[j - before.len()].0));
                    }
                }
                assert forall|i: int, j: int| 0 <= i < j < list.len() implies (#[trigger] now[i]).0
                    != (#[trigger] now[j]).0 by {
                    if j < before.len() {
                        assert(now[i] == was[i] && now[j] == was[j]);
                    } else if i < before.len() {
                        assert(now[i] == was[i]);
                        assert(now[j] == new[j - before.len()]);
                        assert(bucket.entries().contains_key(new[j - before.len()].0));
                    } else {
                        assert(now[i] == new[i - before.len()]);
                        assert(now[j] == new[j - before.len()]);
                    }
                }
                assert forall|m: K::Model| #[trigger]
                    self.entries().contains_key(m) && slot_of::<K>(m, count) < s
                        + 1 implies exists|j: int|
                    0 <= j < list.len() && (#[trigger] now[j]).0 == m by {
                    if slot_of::<K>(m, count) < s {
                        let j = choose|j: int| 0 <= j < before.len() && (#[trigger] was[j]).0 == m;
                        assert(now[j] == was[j]);
                    } else {
                        assert(bucket.entries().contains_key(m));
                        let j = choose|j: int| 0 <= j < new.len() && (#[trigger] new[j]).0 == m;
                        assert(now[j + before.len()] == new[j]);
                    }
                }
            }
            s += 1;
        }
        proof {
            let now = pair_models(list@);
            assert forall|k: K::Model| #[trigger] self.entries().contains_key(k) implies exists|
                i: int,
            |
                0 <= i < now.len() && (#[trigger] now[i]).0 == k by {
                assert(slot_of::<K>(k, count) < count);
            }
        }
        list
    }
}

impl<K: GroupKey, T: Clone> Clone for HashedMap<K, T> {
    /// Returns a map with the same keys, in which the item of each key is a
    /// clone of the item that this map has for it.
    fn clone(&self) -> (copy: Self)
        ensures
            copy.entries().dom() =~= self.entries().dom(),
            forall|k: K::Model| #[trigger]
                copy.entries().contains_key(k) ==> cloned::<T>(
                    self.entries()[k],
                    copy.entries()[k],
                ),
    {
        proof {
            use_type_invariant(self);
        }
        let mut slots: Vec<SortedMap<K, T>> = Vec::new();
        let mut s: usize = 0;
        while s < self.slots.len()
            invariant
                s <= self.slots.len(),
                slots.len() == s,
                forall|t: int|
                    0 <= t < s ==> (#[trigger] slots[t]).entries().dom()
                        =~= self.slots[t].entries().dom(),
                forall|t: int, k: K::Model|
                    0 <= t < s && #[trigger] slots[t].entries().contains_key(k) ==> cloned::<T>(
                        self.slots[t].entries()[k],
                        slots[t].entries()[k],
                    ),
            decreases self.slots.len() - s,
        {
            slots.push(self.slots[s].clone());
            s += 1;
        }
        assert forall|t: int, m: K::Model|
            0 <= t < slots.len() && #[trigger] slots[t].entries().contains_key(
                m,
            ) implies slot_of::<K>(m, slots.len() as int) == t by {
            assert(self.slots[t].entries().dom().contains(m));
            assert(self.slots[t].entries().contains_key(m));
        }
        let copy = HashedMap { slots };
        assert forall|k: K::Model| copy.entries().contains_key(k) <==> self.entries().contains_key(
            k,
        ) by {
            if self.slots.len() > 0 {
                let t = slot_of::<K>(k, self.slots.len() as int);
                assert(copy.slots[t].entries().dom() =~= self.slots[t].entries().dom());
                assert(copy.slots[t].entries().dom().contains(k) <==> self.slots[t].entries().dom().contains(k));
            }
        }
        copy
    }
}

impl<K: GroupKey, V> GroupedCollection<K, V> for HashedMap<K, Vec<V>> {
    open spec fn groups(&self) -> Map<K::Model, Seq<V>> {
        group_views(self.entries())
    }

    open spec fn listing(&self) -> Seq<(K::Model, Seq<V>)> {
        Seq::new(self.pairs().len(), |i: int| (self.pairs()[i].0, self.pairs()[i].1@))
    }

    open spec fn keeps_order() -> bool {
        false
    }

    fn add(&mut self, key: K, value: V) {
        proof {
            use_type_invariant(&*self);
        }
        let ghost before = *self;
        let mut taken = HashedMap::new();
        std::mem::swap(self, &mut taken);
        let HashedMap { mut slots } = taken;
        if slots.len() == 0 {
            slots = Self::fresh_slots();
        }
        let ghost mid = slots@;
        let s = Self::slot(&key, slots.len());
        slots[s].add(key, value);
        proof {
            let count = slots.len() as int;
            let was = mid[s as int];
            let now = slots[s as int];
            assert(now.groups() == add_to_group(was.groups(), key.model(), value));
            assert forall|t: int, m: K::Model|
                0 <= t < slots.len() && #[trigger] slots[t].entries().contains_key(
                    m,
                ) implies slot_of::<K>(m, count) == t by {
                if t == s {
                    assert(now.groups().contains_key(m));
                    if m != key.model() {
                        assert(was.groups().contains_key(m));
                        assert(mid[t].entries().contains_key(m));
                    }
                } else {
                    assert(slots[t] == mid[t]);
                    assert(mid[t].entries().contains_key(m));
                }
            }
        }
        *self = HashedMap { slots };
        proof {
            let count = self.slots.len() as int;
            let was = mid[s as int];
            let now = self.slots[s as int];
            let target = add_to_group(before.groups(), key.model(), value);
            assert forall|m: K::Model| self.groups().contains_key(m) <==> target.contains_key(
                m,
            ) by {
                let t = slot_of::<K>(m, count);
                if t == s {
                    assert(now.groups().contains_key(m) <==> now.entries().contains_key(m));
                    assert(was.groups().contains_key(m) <==> was.entries().contains_key(m));
                } else {
                    assert(self.slots[t] == mid[t]);
                }
            }
            assert forall|m: K::Model| self.groups().contains_key(m) implies self.groups()[m]
                == target[m] by {
                let t = slot_of::<K>(m, count);
                if t == s {
                    assert(now.groups().contains_key(m));
                    assert(now.groups()[m] == now.entries()[m]@);
                    if m != key.model() {
                        assert(was.groups().contains_key(m));
                        assert(was.groups()[m] == was.entries()[m]@);
                    } else if was.groups().contains_key(m) {
                        assert(was.groups()[m] == was.entries()[m]@);
                    }
                } else {
                    assert(self.slots[t] == mid[t]);
                }
            }
            assert(self.groups() =~= target);
        }
    }

    fn get(&self, key: &K) -> (group: Option<&Vec<V>>) {
        HashedMap::get(self, key)
    }

    fn iter(&self) -> (pairs: Vec<(&K, &Vec<V>)>) {
        let pairs = HashedMap::iter(self);
        proof {
            let items = pair_models(pairs@);
            let views = listed(pairs@);
            assert forall|i: int| 0 <= i < views.len() implies views[i] == self.listing()[i] by {
                assert(items[i] == self.pairs()[i]);
            }
            assert(views =~= self.listing());
            assert forall|i: int| 0 <= i < views.len() implies self.groups().contains_key(
                #[trigger] views[i].0,
            ) && self.groups()[views[i].0] == views[i].1 by {
                assert(items[i].0 == views[i].0);
            }
            assert forall|i: int, j: int| 0 <= i < j < views.len() implies #[trigger] views[i].0
                != #[trigger] views[j].0 by {
                assert(items[i].0 != items[j].0);
            }
            assert forall|k: K::Model| #[trigger] self.groups().contains_key(k) implies exists|
                i: int,
            |
                0 <= i < views.len() && #[trigger] views[i].0 == k by {
                assert(self.entries().contains_key(k));
                let i = choose|i: int| 0 <= i < items.len() && #[trigger] items[i].0 == k;
                assert(views[i].0 == k);
            }
        }
        pairs
    }
}

} // verus!
