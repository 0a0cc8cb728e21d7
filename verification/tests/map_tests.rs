use upenn_curf_scraper::str_map::StrMap;

#[test]
fn insert_then_get() {
    let mut m: StrMap<u32> = StrMap::new();
    assert_eq!(m.len(), 0);
    assert!(m.get("a").is_none());
    m.insert("a".to_string(), 1);
    m.insert("b".to_string(), 2);
    assert_eq!(m.get("a"), Some(&1));
    assert_eq!(m.get("b"), Some(&2));
    assert!(m.contains_key("b"));
    assert!(!m.contains_key("c"));
    assert_eq!(m.len(), 2);
}

#[test]
fn insert_replaces_value_of_same_key() {
    let mut m: StrMap<u32> = StrMap::new();
    m.insert("id".to_string(), 1);
    m.insert("other".to_string(), 5);
    m.insert("id".to_string(), 7);
    assert_eq!(m.get("id"), Some(&7));
    assert_eq!(m.get("other"), Some(&5));
    assert_eq!(m.len(), 2);
    let keys: Vec<String> = m.into_entries().into_iter().map(|(k, _)| k).collect();
    assert_eq!(keys, vec!["id".to_string(), "other".to_string()]);
}
