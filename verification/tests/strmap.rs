use cargo_watch::strmap::StrMap;

#[test]
fn strmap_starts_empty() {
    let map: StrMap<u32> = StrMap::new();
    assert_eq!(map.len(), 0);
    assert_eq!(map.get("a"), None);
    assert!(!map.contains_key("a"));
}

#[test]
fn strmap_finds_what_was_inserted() {
    let mut map: StrMap<u32> = StrMap::new();
    map.insert("a".to_string(), 1);
    map.insert("b".to_string(), 2);
    map.insert("".to_string(), 3);
    assert_eq!(map.len(), 3);
    assert_eq!(map.get("a"), Some(&1));
    assert_eq!(map.get("b"), Some(&2));
    assert_eq!(map.get(""), Some(&3));
    assert_eq!(map.get("ab"), None);
    assert!(map.contains_key("b"));
    assert!(!map.contains_key("B"));
}

#[test]
fn strmap_replaces_in_place() {
    let mut map: StrMap<u32> = StrMap::new();
    map.insert("a".to_string(), 1);
    map.insert("b".to_string(), 2);
    map.insert("a".to_string(), 10);
    assert_eq!(map.len(), 2);
    assert_eq!(map.get("a"), Some(&10));
    assert_eq!(map.key_at(0), "a");
    assert_eq!(map.key_at(1), "b");
    assert_eq!(*map.value_at(0), 10);
    assert_eq!(*map.value_at(1), 2);
}

#[test]
fn strmap_keeps_insertion_order() {
    let mut map: StrMap<u32> = StrMap::new();
    for (i, key) in ["z", "y", "x", "w"].iter().enumerate() {
        map.insert(key.to_string(), i as u32);
    }
    let keys: Vec<String> = (0..map.len()).map(|i| map.key_at(i).clone()).collect();
    assert_eq!(keys, vec!["z", "y", "x", "w"]);
    let values: Vec<u32> = (0..map.len()).map(|i| *map.value_at(i)).collect();
    assert_eq!(values, vec![0, 1, 2, 3]);
}

#[test]
fn strmap_clone_is_equal_and_apart() {
    let mut map: StrMap<u32> = StrMap::new();
    map.insert("a".to_string(), 1);
    map.insert("b".to_string(), 2);
    let mut copy = map.clone();
    assert_eq!(copy.len(), 2);
    assert_eq!(copy.get("a"), Some(&1));
    assert_eq!(copy.get("b"), Some(&2));
    copy.insert("a".to_string(), 5);
    assert_eq!(map.get("a"), Some(&1));
    assert_eq!(copy.get("a"), Some(&5));
}
