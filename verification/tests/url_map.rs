use playlist_covers::url_map::UrlMap;

#[test]
fn urls_have_one_value() {
    let mut m: UrlMap<u32> = UrlMap::new();
    assert_eq!(m.len(), 0);
    m.insert("a".to_string(), 1);
    m.insert("b".to_string(), 2);
    m.insert("a".to_string(), 3);
    assert_eq!(m.len(), 2);
    assert!(m.contains("a") && m.contains("b") && !m.contains("c"));
    assert_eq!(m.get("a"), Some(&3));
    assert_eq!(m.get("c"), None);
    if let Some(v) = m.get_mut("b") {
        *v += 10;
    }
    assert!(m.get_mut("c").is_none());
    assert_eq!(m.remove("b"), Some(12));
    assert_eq!(m.remove("b"), None);
    assert_eq!(m.len(), 1);
    m.clear();
    assert_eq!(m.len(), 0);
    assert!(!m.contains("a"));
}
