use sessionly::string_map::StringMap;

#[test]
fn a_new_map_is_empty() {
    let map: StringMap<String> = StringMap::new();
    assert_eq!(map.len(), 0);
    assert!(map.is_empty());
    assert_eq!(map.get("a"), None);
    assert!(!map.contains_key("a"));
}

#[test]
fn insert_adds_and_replaces() {
    let mut map: StringMap<String> = StringMap::new();
    map.insert("a".to_string(), "1".to_string());
    map.insert("b".to_string(), "2".to_string());
    map.insert("a".to_string(), "3".to_string());
    assert_eq!(map.len(), 2);
    assert!(!map.is_empty());
    assert_eq!(map.get("a"), Some(&"3".to_string()));
    assert_eq!(map.get("b"), Some(&"2".to_string()));
    assert!(map.contains_key("b"));
    assert!(!map.contains_key("c"));
}

#[test]
fn entries_keep_their_order_of_arrival() {
    let mut map: StringMap<String> = StringMap::new();
    map.insert("z".to_string(), "1".to_string());
    map.insert("a".to_string(), "2".to_string());
    map.insert("z".to_string(), "3".to_string());
    map.insert("m".to_string(), "4".to_string());
    assert_eq!(map.len(), 3);
    assert_eq!(map.key_at(0), "z");
    assert_eq!(map.value_at(0), "3");
    assert_eq!(map.key_at(1), "a");
    assert_eq!(map.value_at(1), "2");
    assert_eq!(map.key_at(2), "m");
    assert_eq!(map.value_at(2), "4");
}

#[test]
fn clone_keeps_keys_and_values() {
    let mut map: StringMap<String> = StringMap::new();
    map.insert("a".to_string(), "1".to_string());
    map.insert("b".to_string(), "2".to_string());
    let copy = map.clone();
    assert_eq!(copy.len(), 2);
    assert_eq!(copy.key_at(0), "a");
    assert_eq!(copy.get("a"), Some(&"1".to_string()));
    assert_eq!(copy.get("b"), Some(&"2".to_string()));
}

#[test]
fn into_entries_hands_out_keys_and_values_in_order() {
    let mut map: StringMap<String> = StringMap::new();
    map.insert("z".to_string(), "1".to_string());
    map.insert("a".to_string(), "2".to_string());
    map.insert("z".to_string(), "3".to_string());
    assert_eq!(
        map.into_entries(),
        vec![("z".to_string(), "3".to_string()), ("a".to_string(), "2".to_string())]
    );
    let empty: StringMap<String> = StringMap::new();
    assert!(empty.into_entries().is_empty());
}
