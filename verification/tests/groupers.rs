use groupby::command_line::options::{CaptureGroup, GroupingSpecifier};
use groupby::grouped_collections::grouped_collection::GroupedCollection;
use groupby::grouped_collections::hashed_map::HashedMap;
use groupby::grouped_collections::sorted_map::SortedMap;
use groupby::groupers::string::{Groupers, Runner};
use groupby::matchers::string::Counter;
use regex::Regex;

fn strings(values: &[&str]) -> Vec<String> {
    values.iter().map(|s| s.to_string()).collect()
}

// Verifies that Runner actually uses a given GroupingSpecifier properly.
fn matches(spec: GroupingSpecifier, value: &str, expected_key: &str) {
    let mut map = SortedMap::new();
    let mut runner = Runner::new(&mut map, &spec);
    runner.run(value.to_string());
    drop(runner);
    assert_eq!(
        map.iter(),
        vec![(&expected_key.to_string(), &vec![value.to_string()])]
    );
}

#[test]
fn matches_first_chars() {
    matches(GroupingSpecifier::FirstChars(1), "abc", "a");
}

#[test]
fn matches_last_chars() {
    matches(GroupingSpecifier::LastChars(1), "abc", "c");
}

#[test]
fn matches_regex() {
    matches(
        GroupingSpecifier::Regex(Regex::new("b").unwrap(), CaptureGroup::Number(0)),
        "abc",
        "b",
    );
    matches(
        GroupingSpecifier::Regex(Regex::new("a(b)(c)").unwrap(), CaptureGroup::Number(2)),
        "abc",
        "c",
    );
    // No match: the key is empty.
    matches(
        GroupingSpecifier::Regex(Regex::new("z").unwrap(), CaptureGroup::Number(0)),
        "abc",
        "",
    );
}

#[test]
fn matches_file_extension() {
    matches(GroupingSpecifier::FileExtension, "abc.txt", "txt");
    matches(GroupingSpecifier::FileExtension, "abc", "");
}

#[test]
fn matches_counter() {
    // Each runner numbers its tokens from 0.
    matches(GroupingSpecifier::Counter, "abc", "0");
    matches(GroupingSpecifier::Counter, "abc", "0");

    let spec = GroupingSpecifier::Counter;
    let mut map = SortedMap::new();
    let mut runner = Runner::new(&mut map, &spec);
    runner.run("abc".to_string());
    runner.run("abc".to_string());
    runner.run("abc".to_string());
    drop(runner);
    assert_eq!(
        map.iter(),
        vec![
            (&"0".to_string(), &strings(&["abc"])),
            (&"1".to_string(), &strings(&["abc"])),
            (&"2".to_string(), &strings(&["abc"])),
        ]
    );
}

#[test]
fn runner_fills_the_collection_it_is_bound_to() {
    let mut map = SortedMap::new();
    let spec = GroupingSpecifier::FirstChars(2);
    let mut runner = Runner::new(&mut map, &spec);

    runner.run("Hi there".to_string());
    drop(runner); // Runner stores &mut map and is meant for batch insertions

    assert_eq!(map.get(&"Hi".to_string()), Some(&vec!["Hi there".to_string()]));
}

#[test]
fn groups_by_first_chars() {
    let values = strings(&["Alphabet", "Alps", "Alpine", "Equine", "Equator", "Equivalence"]);

    let mut map = SortedMap::new();
    for value in values {
        map.group_by_first_chars(value, 3);
    }

    let expected_alps = strings(&["Alphabet", "Alps", "Alpine"]);
    assert_eq!(map.get(&"Alp".to_string()).unwrap(), &expected_alps);

    let expected_equs = strings(&["Equine", "Equator", "Equivalence"]);
    assert_eq!(map.get(&"Equ".to_string()).unwrap(), &expected_equs);

    let expected = strings(&["kaledonia"]);
    let mut map = HashedMap::new();
    map.group_by_first_chars(expected[0].clone(), 4);
    assert_eq!(Some(&expected), map.get(&"kale".to_string()));
}

#[test]
fn groups_by_last_chars() {
    let expected = strings(&["Sally"]);
    let mut map = SortedMap::new();
    map.group_by_last_chars(expected[0].clone(), 4);

    assert_eq!(Some(&expected), map.get(&"ally".to_string()));
}

#[test]
fn groups_by_regex() {
    let expected = strings(&["Nineteen99"]);
    let regex = Regex::new(r"\d+").unwrap();
    let mut map = HashedMap::new();
    map.group_by_regex(expected[0].clone(), &regex, &CaptureGroup::Number(0));
    map.group_by_regex("None".to_string(), &regex, &CaptureGroup::Number(0));

    assert_eq!(Some(&expected), map.get(&"99".to_string()));
    assert_eq!(Some(&strings(&["None"])), map.get(&"".to_string()));
}

#[test]
fn groups_by_file_extension() {
    let expected_gz = strings(&["foo.tar.gz", "bar.gz"]);
    let expected_none = strings(&["my_file", ".zshrc"]);

    let mut map = SortedMap::new();
    for s in &expected_gz {
        map.group_by_file_extension(s.clone());
    }
    for s in &expected_none {
        map.group_by_file_extension(s.clone());
    }

    assert_eq!(Some(&expected_gz), map.get(&"gz".to_string()));
    assert_eq!(Some(&expected_none), map.get(&"".to_string()));
}

#[test]
fn groups_by_counter() {
    let values = strings(&["Zeroth", "First", "Second"]);
    let mut counter = Counter::new();
    let mut map = SortedMap::new();
    for v in &values {
        map.group_by_counter(v.clone(), &mut counter);
    }

    for (i, v) in values.iter().enumerate() {
        assert_eq!(&vec![v.clone()], map.get(&i.to_string()).unwrap());
    }
}

#[test]
fn tokens_share_a_group_where_their_keys_are_equal() {
    let tokens = ["apple", "avocado", "banana", "apricot", "blueberry", "cherry", "apple"];
    let mut sorted = SortedMap::new();
    let mut hashed = HashedMap::new();
    for t in tokens {
        sorted.group_by_first_chars(t.to_string(), 1);
        hashed.group_by_first_chars(t.to_string(), 1);
    }
    assert_eq!(
        sorted.iter(),
        vec![
            (&"a".to_string(), &strings(&["apple", "avocado", "apricot", "apple"])),
            (&"b".to_string(), &strings(&["banana", "blueberry"])),
            (&"c".to_string(), &strings(&["cherry"])),
        ]
    );
    let mut listed = hashed.iter();
    listed.sort();
    assert_eq!(listed, sorted.iter());
    assert_eq!(hashed.get(&"d".to_string()), None);
}

#[test]
fn sorted_map_yields_keys_in_order() {
    let mut map: SortedMap<String, Vec<String>> = SortedMap::new();
    for value in ["hello", "there", "friend", "", "z", "a", "Z", "é", "ab", "b"] {
        map.add(value.to_string(), value.to_string());
    }
    let keys: Vec<&String> = map.iter().into_iter().map(|(k, _)| k).collect();
    let mut sorted = keys.clone();
    sorted.sort();
    assert_eq!(keys, sorted);
    assert_eq!(keys.len(), 10);
    assert_eq!(map.len(), 10);
}

#[test]
fn hashed_map_holds_many_keys() {
    let mut map: HashedMap<String, Vec<usize>> = HashedMap::new();
    assert!(map.iter().is_empty());
    for i in 0..1000usize {
        map.add((i % 300).to_string(), i);
    }
    let listed = map.iter();
    assert_eq!(listed.len(), 300);
    for (key, values) in listed {
        let k: usize = key.parse().unwrap();
        let expected: Vec<usize> = (0..1000).filter(|i| i % 300 == k).collect();
        assert_eq!(values, &expected);
        assert_eq!(map.get(key), Some(&expected));
    }
    assert_eq!(map.get(&"300".to_string()), None);
    let copy = map.clone();
    assert_eq!(copy.iter(), map.iter());
}
