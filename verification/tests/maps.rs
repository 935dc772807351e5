use oracle_monitor::table::TextMap;

#[test]
fn map_keeps_the_order_of_its_keys() {
    let mut map: TextMap<u64> = TextMap::new();
    assert_eq!(map.len(), 0);
    map.insert(String::from("c"), 3);
    map.insert(String::from("a"), 1);
    map.insert(String::from("b"), 2);
    assert_eq!(map.len(), 3);
    assert_eq!(map.key_list(), vec!["a", "b", "c"]);
    assert_eq!(map.entry(0), ("a", &1));
    assert_eq!(map.entry(2), ("c", &3));
}

#[test]
fn map_replaces_a_value() {
    let mut map: TextMap<u64> = TextMap::new();
    map.insert(String::from("a"), 1);
    map.insert(String::from("b"), 2);
    map.insert(String::from("a"), 7);
    assert_eq!(map.len(), 2);
    assert_eq!(map.get("a"), Some(&7));
    assert_eq!(map.get("b"), Some(&2));
    assert_eq!(map.get("c"), None);
    assert!(map.contains_key("b"));
    assert!(!map.contains_key(""));
}

#[test]
fn map_agrees_with_the_standard_library() {
    let mut map: TextMap<u64> = TextMap::new();
    let mut expected = std::collections::BTreeMap::new();
    let mut n: u64 = 12345;
    for i in 0..500u64 {
        n = n.wrapping_mul(6364136223846793005).wrapping_add(1442695040888963407);
        let key = format!("{:x}", (n >> 40) % 200);
        map.insert(key.clone(), i);
        expected.insert(key, i);
    }
    assert_eq!(map.len(), expected.len());
    let copy = map.clone();
    for (i, (key, value)) in expected.iter().enumerate() {
        assert_eq!(map.entry(i), (key.as_str(), value));
        assert_eq!(copy.get(key), Some(value));
    }
}
