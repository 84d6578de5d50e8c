//! What a collection holds after a sequence of values has been added to it.
use crate::grouped_collections::grouped_collection::add_to_group;
use vstd::prelude::*;

verus! {

/// The groups after each of `values` has been added under the key that `keys`
/// has for it, in turn.
pub open spec fn add_all<M, V>(groups: Map<M, Seq<V>>, keys: Seq<M>, values: Seq<V>) -> Map<
    M,
    Seq<V>,
>
    recommends
        keys.len() == values.len(),
    decreases keys.len(),
{
    if keys.len() == 0 {
        groups
    } else {
        add_to_group(
            add_all(groups, keys.drop_last(), values.drop_last()),
            keys.last(),
            values.last(),
        )
    }
}

/// The places of `keys` that hold `key`, in rising order.
pub open spec fn places_of<M>(keys: Seq<M>, key: M) -> Seq<int>
    decreases keys.len(),
{
    if keys.len() == 0 {
        Seq::empty()
    } else if keys.last() == key {
        places_of(keys.drop_last(), key).push(keys.len() - 1)
    } else {
        places_of(keys.drop_last(), key)
    }
}

/// The values that were added under `key`, in the order in which they were
/// added.
pub open spec fn added_under<M, V>(keys: Seq<M>, values: Seq<V>, key: M) -> Seq<V>
    recommends
        keys.len() == values.len(),
{
    places_of(keys, key).map_values(|i: int| values[i])
}

/// The places of a key are the places that hold it.
pub proof fn lemma_places_of<M>(keys: Seq<M>, key: M)
    ensures
        forall|p: int|
            0 <= p < places_of(keys, key).len() ==> 0 <= (#[trigger] places_of(keys, key)[p])
                < keys.len() && keys[places_of(keys, key)[p]] == key,
        forall|i: int|
            0 <= i < keys.len() && #[trigger] keys[i] == key ==> places_of(keys, key).contains(i),
        forall|i: int| places_of(keys, key).contains(i) <==> 0 <= i < keys.len() && keys[i] == key,
        places_of(keys, key).len() > 0 <==> keys.contains(key),
    decreases keys.len(),
{
    let all = places_of(keys, key);
    if keys.len() > 0 {
        let front = keys.drop_last();
        lemma_places_of(front, key);
        let rest = places_of(front, key);
        assert forall|p: int| 0 <= p < all.len() implies 0 <= (#[trigger] all[p]) < keys.len()
            && keys[all[p]] == key by {
            if p < rest.len() {
                assert(all[p] == rest[p]);
                assert(front[rest[p]] == key);
            }
        }
        assert forall|i: int| 0 <= i < keys.len() && #[trigger] keys[i] == key implies all.contains(
            i,
        ) by {
            if i < keys.len() - 1 {
                assert(front[i] == key);
                assert(rest.contains(i));
                let p = choose|p: int| 0 <= p < rest.len() && rest[p] == i;
                assert(all[p] == i);
            } else {
                assert(all[all.len() - 1] == i);
            }
        }
    }
    assert forall|i: int| all.contains(i) implies 0 <= i < keys.len() && keys[i] == key by {
        let p = choose|p: int| 0 <= p < all.len() && all[p] == i;
        assert(0 <= all[p] < keys.len());
    }
    if all.len() > 0 {
        assert(keys[all[0]] == key);
    }
    if keys.contains(key) {
        let i = choose|i: int| 0 <= i < keys.len() && keys[i] == key;
        assert(all.contains(i));
    }
}

/// After values have been added to a collection, the group of a key holds
/// what it held before and then the values added under that key, in the order
/// in which they were added; and the collection has a group for a key where it
/// had one before or a value was added under that key.
pub proof fn lemma_add_all<M, V>(groups: Map<M, Seq<V>>, keys: Seq<M>, values: Seq<V>, key: M)
    requires
        keys.len() == values.len(),
    ensures
        add_all(groups, keys, values).contains_key(key) <==> groups.contains_key(key)
            || keys.contains(key),
        add_all(groups, keys, values).contains_key(key) ==> add_all(groups, keys, values)[key] == (
        if groups.contains_key(key) {
            groups[key] + added_under(keys, values, key)
        } else {
            added_under(keys, values, key)
        }),
    decreases keys.len(),
{
    if keys.len() == 0 {
        assert(!keys.contains(key));
        assert(added_under(keys, values, key) =~= Seq::<V>::empty());
        if groups.contains_key(key) {
            assert(groups[key] + added_under(keys, values, key) =~= groups[key]);
        }
    } else {
        let front = keys.drop_last();
        let front_values = values.drop_last();
        lemma_add_all(groups, front, front_values, key);
        lemma_places_of(keys, key);
        lemma_places_of(front, key);
        let before = add_all(groups, front, front_values);
        let was = added_under(front, front_values, key);
        let now = added_under(keys, values, key);
        if keys.last() == key {
            assert(now =~= was.push(values.last())) by {
                let places = places_of(front, key);
                assert forall|p: int| 0 <= p < places.len() implies front_values[places[p]]
                    == values[places[p]] by {
                    assert(0 <= places[p] < front.len());
                }
            }
            assert(keys[keys.len() - 1] == key);
            if groups.contains_key(key) {
                assert(groups[key] + now =~= (groups[key] + was).push(values.last()));
            } else if !front.contains(key) {
                assert(was.len() == 0);
                assert(now =~= seq![values.last()]);
            }
        } else {
            assert(now =~= was) by {
                let places = places_of(front, key);
                assert forall|p: int| 0 <= p < places.len() implies front_values[places[p]]
                    == values[places[p]] by {
                    assert(0 <= places[p] < front.len());
                }
            }
            if keys.contains(key) {
                let i = choose|i: int| 0 <= i < keys.len() && keys[i] == key;
                assert(front[i] == key);
            }
            if front.contains(key) {
                let i = choose|i: int| 0 <= i < front.len() && front[i] == key;
                assert(keys[i] == key);
            }
        }
    }
}

/// Round trip: after values have been added to an empty collection, it has a
/// group for exactly the keys that were used, and the group of each key holds
/// exactly the values added under it, in the order in which they were added.
pub proof fn lemma_round_trip<M, V>(keys: Seq<M>, values: Seq<V>, key: M)
    requires
        keys.len() == values.len(),
    ensures
        add_all(Map::<M, Seq<V>>::empty(), keys, values).contains_key(key) <==> keys.contains(key),
        keys.contains(key) ==> add_all(Map::<M, Seq<V>>::empty(), keys, values)[key]
            == added_under(keys, values, key),
{
    lemma_add_all(Map::<M, Seq<V>>::empty(), keys, values, key);
}

/// Two values land in the same group exactly where their keys are equal: a
/// group takes in the values at the places of its key, and two places are
/// among the places of one key exactly where they hold equal keys.
pub proof fn lemma_same_group<M>(keys: Seq<M>, i: int, j: int)
    requires
        0 <= i < keys.len(),
        0 <= j < keys.len(),
    ensures
        (exists|key: M| #[trigger]
            places_of(keys, key).contains(i) && places_of(keys, key).contains(j)) <==> keys[i]
            == keys[j],
{
    lemma_places_of(keys, keys[i]);
    if keys[i] == keys[j] {
        assert(places_of(keys, keys[i]).contains(i) && places_of(keys, keys[i]).contains(j));
    }
    if exists|key: M| #[trigger]
        places_of(keys, key).contains(i) && places_of(keys, key).contains(j) {
        let key = choose|key: M| #[trigger]
            places_of(keys, key).contains(i) && places_of(keys, key).contains(j);
        lemma_places_of(keys, key);
    }
}

} // verus!
