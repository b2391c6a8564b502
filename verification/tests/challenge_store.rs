use star_haven_platform::challenges::{IdMap, NameMap};

#[test]
fn name_map_insert_and_remove() {
    let mut m: NameMap<u32> = NameMap::new();
    assert_eq!(m.insert(String::from("alice"), 1), None);
    assert_eq!(m.insert(String::from("bob"), 2), None);
    // a second start for the same key overwrites and reports the loser
    assert_eq!(m.insert(String::from("alice"), 3), Some(1));
    // take-and-delete: the first remove wins, every later one gets nothing
    assert_eq!(m.remove(&String::from("alice")), Some(3));
    assert_eq!(m.remove(&String::from("alice")), None);
    assert_eq!(m.remove(&String::from("bob")), Some(2));
    assert_eq!(m.remove(&String::from("missing")), None);
}

#[test]
fn id_map_insert_and_remove() {
    let mut m: IdMap<&'static str> = IdMap::new();
    assert_eq!(m.insert(7, "a"), None);
    assert_eq!(m.insert(9, "b"), None);
    assert_eq!(m.insert(7, "c"), Some("a"));
    assert_eq!(m.remove(7), Some("c"));
    assert_eq!(m.remove(7), None);
    assert_eq!(m.remove(9), Some("b"));
    assert_eq!(m.remove(9), None);
}

#[test]
fn removing_one_key_leaves_the_others() {
    let mut m: IdMap<u32> = IdMap::new();
    m.insert(1, 10);
    m.insert(2, 20);
    m.insert(3, 30);
    assert_eq!(m.remove(2), Some(20));
    assert_eq!(m.remove(1), Some(10));
    assert_eq!(m.remove(3), Some(30));
}
