use pacdef::package_map::{insert_recording, NameSet, PackageMap};

fn keys_of(map: &PackageMap<u32>) -> Vec<String> {
    (0..map.len()).map(|i| map.key(i).clone()).collect()
}

fn names_in(set: &NameSet) -> Vec<String> {
    (0..set.len()).map(|i| set.name(i).clone()).collect()
}

#[test]
fn new_map_is_empty() {
    let map: PackageMap<u32> = PackageMap::new();
    assert!(map.is_empty());
    assert_eq!(map.len(), 0);
    assert!(!map.contains_key("gcc"));
    assert_eq!(map.get("gcc"), None);
}

#[test]
fn map_walks_in_the_order_of_names() {
    let mut map: PackageMap<u32> = PackageMap::new();
    for (i, name) in ["make", "gcc", "zsh", "bash", "gcc-libs"].iter().enumerate() {
        assert_eq!(map.insert(name.to_string(), i as u32), None);
    }
    assert_eq!(keys_of(&map), vec!["bash", "gcc", "gcc-libs", "make", "zsh"]);
    assert_eq!(*map.value(0), 3);
    assert_eq!(*map.value(1), 1);
    assert_eq!(map.get("zsh"), Some(&2));
    assert_eq!(map.get("vim"), None);
    assert!(!map.is_empty());
}

#[test]
fn second_insert_for_a_name_wins() {
    let mut map: PackageMap<u32> = PackageMap::new();
    assert_eq!(map.insert("gcc".to_string(), 1), None);
    assert_eq!(map.insert("gcc".to_string(), 2), Some(1));
    assert_eq!(map.len(), 1);
    assert_eq!(map.get("gcc"), Some(&2));
}

#[test]
fn remove_hands_back_what_was_held() {
    let mut map: PackageMap<u32> = PackageMap::new();
    map.insert("a".to_string(), 1);
    map.insert("b".to_string(), 2);
    map.insert("c".to_string(), 3);
    assert_eq!(map.remove("b"), Some(2));
    assert_eq!(map.remove("b"), None);
    assert_eq!(map.remove("x"), None);
    assert_eq!(keys_of(&map), vec!["a", "c"]);
    assert_eq!(map.remove("a"), Some(1));
    assert_eq!(map.remove("c"), Some(3));
    assert!(map.is_empty());
}

#[test]
fn map_agrees_with_a_tree_map() {
    let mut map: PackageMap<u32> = PackageMap::new();
    let mut model = std::collections::BTreeMap::new();
    let names = ["d", "b", "a", "c", "b", "e", "aa", "", "d", "ab"];
    for (i, name) in names.iter().enumerate() {
        assert_eq!(map.insert(name.to_string(), i as u32), model.insert(name.to_string(), i as u32));
    }
    for name in ["b", "zz", "", "d"] {
        assert_eq!(map.remove(name), model.remove(name));
    }
    let expected: Vec<String> = model.keys().cloned().collect();
    assert_eq!(keys_of(&map), expected);
    for (i, value) in model.values().enumerate() {
        assert_eq!(map.value(i), value);
    }
}

#[test]
fn name_set_holds_each_name_once() {
    let mut set = NameSet::new();
    assert!(set.is_empty());
    assert!(set.insert("make".to_string()));
    assert!(set.insert("gcc".to_string()));
    assert!(!set.insert("make".to_string()));
    assert_eq!(names_in(&set), vec!["gcc", "make"]);
    assert!(set.contains("gcc"));
    assert!(!set.contains("vim"));
    assert!(set.remove("gcc"));
    assert!(!set.remove("gcc"));
    assert_eq!(names_in(&set), vec!["make"]);
}

#[test]
fn name_set_from_names_sorts_and_drops_repeats() {
    let names: Vec<String> = ["b", "a", "b", "c", "a"].iter().map(|s| s.to_string()).collect();
    let set = NameSet::from_names(&names);
    assert_eq!(names_in(&set), vec!["a", "b", "c"]);
    assert!(NameSet::from_names(&Vec::new()).is_empty());
}

#[test]
fn later_declaration_wins_and_is_recorded_once() {
    let mut map: PackageMap<u32> = PackageMap::new();
    let mut overwritten = Vec::new();
    insert_recording(&mut map, "gcc".to_string(), 1, &mut overwritten);
    assert!(overwritten.is_empty());
    insert_recording(&mut map, "gcc".to_string(), 2, &mut overwritten);
    assert_eq!(overwritten, vec!["gcc"]);
    insert_recording(&mut map, "make".to_string(), 3, &mut overwritten);
    assert_eq!(overwritten, vec!["gcc"]);
    assert_eq!(map.get("gcc"), Some(&2));
    assert_eq!(map.get("make"), Some(&3));
}
