use cubil::slug_map::SlugMap;

#[test]
fn first_insert_wins() {
    let mut m: SlugMap<u32> = SlugMap::new();
    assert!(m.get("a").is_none());
    m.insert_if_absent("a".to_string(), 1);
    m.insert_if_absent("b".to_string(), 2);
    m.insert_if_absent("a".to_string(), 3);
    assert_eq!(m.get("a"), Some(&1));
    assert_eq!(m.get("b"), Some(&2));
    assert_eq!(m.get("c"), None);
}
