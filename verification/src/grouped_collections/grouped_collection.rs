//! The interface of a collection of groups.
use crate::grouped_collections::key::GroupKey;
use vstd::prelude::*;

verus! {

/// Whether each key of `keys` comes before all that follow it.
pub open spec fn increasing<K: GroupKey>(keys: Seq<K::Model>) -> bool {
    forall|i: int, j: int| 0 <= i < j < keys.len() ==> K::precedes(keys[i], keys[j])
}

/// Whether `pairs` lists the entries of `map`, each of them once.
pub open spec fn lists<M, T>(pairs: Seq<(M, T)>, map: Map<M, T>) -> bool {
    &&& forall|i: int|
        0 <= i < pairs.len() ==> map.contains_key(#[trigger] pairs[i].0) && map[pairs[i].0]
            == pairs[i].1
    &&& forall|i: int, j: int|
        0 <= i < j < pairs.len() ==> #[trigger] pairs[i].0 != #[trigger] pairs[j].0
    &&& forall|k: M| #[trigger]
        map.contains_key(k) ==> exists|i: int| 0 <= i < pairs.len() && #[trigger] pairs[i].0 == k
}

/// A list of pairs lists one map only.
pub proof fn lemma_lists_one_map<M, T>(pairs: Seq<(M, T)>, a: Map<M, T>, b: Map<M, T>)
    requires
        lists(pairs, a),
        lists(pairs, b),
    ensures
        a == b,
{
    assert forall|k: M| a.contains_key(k) implies b.contains_key(k) && a[k] == b[k] by {
        let i = choose|i: int| 0 <= i < pairs.len() && #[trigger] pairs[i].0 == k;
        assert(b.contains_key(pairs[i].0));
    }
    assert forall|k: M| b.contains_key(k) implies a.contains_key(k) by {
        let i = choose|i: int| 0 <= i < pairs.len() && #[trigger] pairs[i].0 == k;
        assert(a.contains_key(pairs[i].0));
    }
    assert(a =~= b);
}

/// The groups after `value` has been added under `key`: at the end of the
/// group of `key` where there is one, else as the only value of a new group.
pub open spec fn add_to_group<M, V>(groups: Map<M, Seq<V>>, key: M, value: V) -> Map<M, Seq<V>> {
    if groups.contains_key(key) {
        groups.insert(key, groups[key].push(value))
    } else {
        groups.insert(key, seq![value])
    }
}

/// What a list of borrowed keys and groups says: the model of each key with
/// the values of its group.
pub open spec fn listed<Key: GroupKey, Value>(pairs: Seq<(&Key, &Vec<Value>)>) -> Seq<
    (Key::Model, Seq<Value>),
> {
    Seq::new(pairs.len(), |i: int| (pairs[i].0.model(), pairs[i].1@))
}

/// The keys of a list of keys and groups.
pub open spec fn listed_keys<Key: GroupKey, Value>(pairs: Seq<(&Key, &Vec<Value>)>) -> Seq<
    Key::Model,
> {
    Seq::new(pairs.len(), |i: int| pairs[i].0.model())
}

/// A collection that maps each key to the list of the values grouped under it.
pub trait GroupedCollection<Key: GroupKey, Value> {
    /// The groups: each key with its values, in the order in which they were
    /// added.
    spec fn groups(&self) -> Map<Key::Model, Seq<Value>>;

    /// The groups in the order in which `iter` yields them.
    spec fn listing(&self) -> Seq<(Key::Model, Seq<Value>)>;

    /// Whether `iter` yields the groups in the order of their keys.
    spec fn keeps_order() -> bool;

    /// Adds `value` to the group of `key`, and makes the group where the
    /// collection has none for `key`.
    fn add(&mut self, key: Key, value: Value)
        ensures
            final(self).groups() == add_to_group(old(self).groups(), key.model(), value),
    ;

    /// Returns the group of `key`, if there is one.
    fn get(&self, key: &Key) -> (group: Option<&Vec<Value>>)
        ensures
            match group {
                Some(values) => self.groups().contains_key(key.model()) && values@
                    == self.groups()[key.model()],
                None => !self.groups().contains_key(key.model()),
            },
    ;

    /// Returns every key with its group, each key once.
    fn iter(&self) -> (pairs: Vec<(&Key, &Vec<Value>)>)
        ensures
            listed(pairs@) == self.listing(),
            lists(self.listing(), self.groups()),
            Self::keeps_order() ==> increasing::<Key>(listed_keys(pairs@)),
    ;
}

} // verus!
