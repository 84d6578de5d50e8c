use groupby::grouped_collections::grouped_collection::GroupedCollection;
use groupby::grouped_collections::hashed_map::HashedMap;
use groupby::grouped_collections::key::{GroupKey, KeyOrder};
use groupby::grouped_collections::sorted_map::SortedMap;

#[derive(Clone, Debug, Eq, PartialEq)]
enum Animal {
    Beaver,
    Cat,
    Horse,
    Donkey,
}
use Animal::{Beaver, Cat, Donkey, Horse};

#[derive(Clone, Debug, Eq, Hash, Ord, PartialEq, PartialOrd)]
enum Foot {
    Claw,  // Pairs with Beaver, Cat
    Hoof,  // Pairs with Horse, Donkey
    Talon, // Does not pair (empty group)
}
use Foot::{Claw, Hoof, Talon};

impl Foot {
    fn number(&self) -> u64 {
        match self {
            Claw => 0,
            Hoof => 1,
            Talon => 2,
        }
    }
}

impl GroupKey for Foot {
    type Model = Foot;

    fn model(&self) -> Foot {
        self.clone()
    }

    fn precedes(a: Foot, b: Foot) -> bool {
        a < b
    }

    fn hash_of(a: Foot) -> u64 {
        a.number() * 0x9e37_79b9_7f4a_7c15
    }

    fn lemma_asymmetric(_a: Foot, _b: Foot) {}

    fn lemma_transitive(_a: Foot, _b: Foot, _c: Foot) {}

    fn lemma_total(_a: Foot, _b: Foot) {}

    fn compare(&self, other: &Self) -> KeyOrder {
        if self < other {
            KeyOrder::Less
        } else if self > other {
            KeyOrder::Greater
        } else {
            KeyOrder::Equal
        }
    }

    fn hash(&self) -> u64 {
        self.number() * 0x9e37_79b9_7f4a_7c15
    }

    fn duplicate(&self) -> Self {
        self.clone()
    }
}

fn verify_grouped_collection<Groups>(mut map: Groups)
where
    Groups: GroupedCollection<Foot, Animal> + Clone,
{
    let claw_pairs = [(Claw, Beaver), (Claw, Cat), (Claw, Beaver)];
    let hoof_pairs = [(Hoof, Horse), (Hoof, Donkey)];

    // Run the checks against an owned map as well as a reference and a box.
    let refmap: &mut Groups = &mut map.clone();
    let mut boxmap: Box<Groups> = Box::new(map.clone());

    for (k, v) in &claw_pairs {
        map.add(k.clone(), v.clone());
        refmap.add(k.clone(), v.clone());
        boxmap.add(k.clone(), v.clone());
    }
    for (k, v) in &hoof_pairs {
        map.add(k.clone(), v.clone());
        refmap.add(k.clone(), v.clone());
        boxmap.add(k.clone(), v.clone());
    }

    let claws = claw_pairs
        .iter()
        .map(|(_, v)| v.clone())
        .collect::<Vec<Animal>>();

    let hooves = hoof_pairs
        .iter()
        .map(|(_, v)| v.clone())
        .collect::<Vec<Animal>>();

    // Check get()
    assert_eq!(map.get(&Claw), Some(&claws));
    assert_eq!(map.get(&Hoof), Some(&hooves));
    assert_eq!(map.get(&Talon), None);

    assert_eq!(refmap.get(&Claw), Some(&claws));
    assert_eq!(refmap.get(&Claw), Some(&claws));
    assert_eq!(refmap.get(&Claw), Some(&claws));

    assert_eq!(boxmap.get(&Hoof), Some(&hooves));
    assert_eq!(boxmap.get(&Talon), None);
    assert_eq!(boxmap.get(&Hoof), Some(&hooves));

    // Check iter()
    let pairs = map.iter();
    assert!(pairs.contains(&(&Claw, &vec![Beaver, Cat, Beaver])));
    assert!(pairs.contains(&(&Hoof, &vec![Horse, Donkey])));
    assert_eq!(pairs.len(), 2);

    let pairs = refmap.iter();
    assert!(pairs.contains(&(&Claw, &vec![Beaver, Cat, Beaver])));
    assert!(pairs.contains(&(&Hoof, &vec![Horse, Donkey])));

    let pairs = boxmap.iter();
    assert!(pairs.contains(&(&Claw, &vec![Beaver, Cat, Beaver])));
    assert!(pairs.contains(&(&Hoof, &vec![Horse, Donkey])));

    // add() after get().
    map.add(Claw, Beaver);
    refmap.add(Claw, Beaver);
    boxmap.add(Claw, Beaver);
    assert_eq!(map.get(&Claw), Some(&vec![Beaver, Cat, Beaver, Beaver]));
}

#[test]
fn grouped_collection_add_get_iter() {
    verify_grouped_collection(SortedMap::new());
    verify_grouped_collection(HashedMap::new());
}

#[test]
fn btree_map_add_get_iter() {
    verify_grouped_collection(SortedMap::new());
}

#[test]
fn hash_map_add_get_iter() {
    verify_grouped_collection(HashedMap::new());
}
