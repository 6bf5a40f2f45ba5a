use mcp_proxy::names::NameMap;

#[test]
fn name_map_starts_empty() {
    let map: NameMap<u32> = NameMap::new();
    assert_eq!(map.len(), 0);
    assert!(!map.contains("a"));
    assert!(map.get("a").is_none());
}

#[test]
fn name_map_insert_then_get() {
    let mut map: NameMap<u32> = NameMap::new();
    assert_eq!(map.insert("a".to_string(), 1), None);
    assert_eq!(map.insert("b".to_string(), 2), None);
    assert_eq!(map.len(), 2);
    assert_eq!(map.get("a"), Some(&1));
    assert_eq!(map.get("b"), Some(&2));
    assert_eq!(map.get("c"), None);
    assert!(map.contains("a"));
    assert!(!map.contains("c"));
}

#[test]
fn name_map_insert_replaces_and_hands_back_the_old_value() {
    let mut map: NameMap<u32> = NameMap::new();
    map.insert("a".to_string(), 1);
    map.insert("b".to_string(), 2);
    assert_eq!(map.insert("a".to_string(), 3), Some(1));
    assert_eq!(map.len(), 2);
    assert_eq!(map.get("a"), Some(&3));
    // the name that was inserted last stands last
    assert_eq!(map.name_at(0), "b");
    assert_eq!(map.name_at(1), "a");
    assert_eq!(*map.value_at(0), 2);
    assert_eq!(*map.value_at(1), 3);
}

#[test]
fn name_map_remove_hands_back_the_value() {
    let mut map: NameMap<u32> = NameMap::new();
    map.insert("a".to_string(), 1);
    map.insert("b".to_string(), 2);
    map.insert("c".to_string(), 3);
    assert_eq!(map.remove("b"), Some(2));
    assert_eq!(map.remove("b"), None);
    assert_eq!(map.len(), 2);
    assert_eq!(map.name_at(0), "a");
    assert_eq!(map.name_at(1), "c");
    assert!(map.get("b").is_none());
}

#[test]
fn name_map_names_are_told_apart_by_every_character() {
    let mut map: NameMap<u32> = NameMap::new();
    map.insert("t1".to_string(), 1);
    map.insert("t10".to_string(), 10);
    map.insert("".to_string(), 0);
    assert_eq!(map.get("t1"), Some(&1));
    assert_eq!(map.get("t10"), Some(&10));
    assert_eq!(map.get(""), Some(&0));
    assert_eq!(map.get("t"), None);
}

#[test]
fn name_map_clear_empties_it() {
    let mut map: NameMap<u32> = NameMap::new();
    map.insert("a".to_string(), 1);
    map.clear();
    assert_eq!(map.len(), 0);
    assert!(map.get("a").is_none());
}

#[test]
fn name_map_duplicate_keeps_names_values_and_order() {
    let mut map: NameMap<String> = NameMap::new();
    map.insert("x".to_string(), "1".to_string());
    map.insert("y".to_string(), "2".to_string());
    let mut copy = map.duplicate();
    assert_eq!(copy.len(), 2);
    assert_eq!(copy.name_at(0), "x");
    assert_eq!(copy.value_at(1), "2");
    copy.insert("x".to_string(), "9".to_string());
    assert_eq!(map.get("x").map(|s| s.as_str()), Some("1"));
}
