use groupby::command_line::command_runner::report::Report;
use groupby::grouped_collections::hashed_map::HashedMap;
use groupby::grouped_collections::sorted_map::SortedMap;
use std::ops::DerefMut;
use std::sync::{Arc, Mutex};

fn works<R: Report<String, Vec<u8>>>(map: &mut R) {
    let results = "cat nap sofa sun warm smile";
    let key = "cat".to_string();
    map.report(key.clone(), results.as_bytes().to_vec());
    assert_eq!(results.as_bytes(), Report::get(map, &key).unwrap());
}

#[test]
fn report_works() {
    works(&mut SortedMap::new());
    works(&mut HashedMap::new());
}

#[test]
fn command_report_works() {
    works(&mut SortedMap::new());
    let arc = Arc::new(Mutex::new(SortedMap::new()));
    works(arc.lock().unwrap().deref_mut());
}

#[test]
fn report_works_with_mutex() {
    let mutex = Mutex::new(SortedMap::new());
    works(mutex.lock().unwrap().deref_mut());
}

#[test]
fn report_works_with_arc_mutex() {
    let arc = Arc::new(Mutex::new(SortedMap::new()));
    works(arc.lock().unwrap().deref_mut());
}

#[test]
fn report_overwrites_an_earlier_report() {
    let mut map: SortedMap<String, Vec<u8>> = SortedMap::new();
    map.report("cat".to_string(), b"nap".to_vec());
    map.report("dog".to_string(), b"walk".to_vec());
    map.report("cat".to_string(), b"sofa".to_vec());
    assert_eq!(Report::get(&map, &"cat".to_string()), Some(&b"sofa".to_vec()));
    assert_eq!(Report::get(&map, &"dog".to_string()), Some(&b"walk".to_vec()));
    assert_eq!(Report::get(&map, &"cow".to_string()), None);
    assert_eq!(map.len(), 2);
}

#[test]
fn reports_in_any_order_leave_the_same_report() {
    let pairs = [("b", "2"), ("a", "1"), ("c", "3")];
    let mut forward: SortedMap<String, Vec<u8>> = SortedMap::new();
    for (k, v) in pairs.iter() {
        forward.report(k.to_string(), v.as_bytes().to_vec());
    }
    let mut backward: SortedMap<String, Vec<u8>> = SortedMap::new();
    for (k, v) in pairs.iter().rev() {
        backward.report(k.to_string(), v.as_bytes().to_vec());
    }
    let left: Vec<(String, Vec<u8>)> =
        forward.iter().into_iter().map(|(k, v)| (k.clone(), v.clone())).collect();
    let right: Vec<(String, Vec<u8>)> =
        backward.iter().into_iter().map(|(k, v)| (k.clone(), v.clone())).collect();
    assert_eq!(left, right);
    assert_eq!(
        left,
        vec![
            ("a".to_string(), b"1".to_vec()),
            ("b".to_string(), b"2".to_vec()),
            ("c".to_string(), b"3".to_vec()),
        ]
    );
}
