use hyprsupreme_core::name_map::NameMap;

fn map_of(pairs: &[(&str, &str)]) -> NameMap<String> {
    let mut map = NameMap::new();
    for (k, v) in pairs {
        map.insert(k.to_string(), v.to_string());
    }
    map
}

#[test]
fn new_map_is_empty() {
    let map: NameMap<String> = NameMap::new();
    assert_eq!(map.len(), 0);
    assert!(!map.contains_key("a"));
    assert!(map.get("a").is_none());
    assert!(map.keys().is_empty());
}

#[test]
fn insert_keeps_first_position_and_replaces_value() {
    let mut map = map_of(&[("a", "1"), ("b", "2")]);
    map.insert("a".to_string(), "3".to_string());
    assert_eq!(map.len(), 2);
    assert_eq!(map.keys(), vec!["a".to_string(), "b".to_string()]);
    assert_eq!(map.get("a"), Some(&"3".to_string()));
    assert_eq!(map.get("b"), Some(&"2".to_string()));
    assert_eq!(map.position("b"), Some(1));
    assert_eq!(map.position("c"), None);
    assert_eq!(map.name_at(1), "b");
    assert_eq!(map.item_at(0), "3");
}

#[test]
fn remove_returns_value_and_keeps_order() {
    let mut map = map_of(&[("a", "1"), ("b", "2"), ("c", "3")]);
    assert_eq!(map.remove("b"), Some("2".to_string()));
    assert_eq!(map.remove("b"), None);
    assert_eq!(map.keys(), vec!["a".to_string(), "c".to_string()]);
    assert_eq!(map.len(), 2);
}

#[test]
fn absorb_keeping_existing_only_fills_gaps() {
    let mut map = map_of(&[("a", "1"), ("b", "2")]);
    map.absorb(map_of(&[("b", "20"), ("c", "30")]), true);
    assert_eq!(map.get("a"), Some(&"1".to_string()));
    assert_eq!(map.get("b"), Some(&"2".to_string()));
    assert_eq!(map.get("c"), Some(&"30".to_string()));
    assert_eq!(map.keys(), vec!["a".to_string(), "b".to_string(), "c".to_string()]);
}

#[test]
fn absorb_replacing_lets_the_other_win() {
    let mut map = map_of(&[("a", "1"), ("b", "2")]);
    map.absorb(map_of(&[("b", "20"), ("c", "30")]), false);
    assert_eq!(map.get("a"), Some(&"1".to_string()));
    assert_eq!(map.get("b"), Some(&"20".to_string()));
    assert_eq!(map.get("c"), Some(&"30".to_string()));
    assert_eq!(map.len(), 3);
}

#[test]
fn duplicate_and_clone_copy_every_entry() {
    let map = map_of(&[("a", "1"), ("b", "2")]);
    let copy = map.duplicate();
    let clone = map.clone();
    assert_eq!(copy.keys(), map.keys());
    assert_eq!(clone.keys(), map.keys());
    assert_eq!(copy.get("b"), Some(&"2".to_string()));
    assert_eq!(clone.get("a"), Some(&"1".to_string()));
    let entries = map.into_entries();
    assert_eq!(entries, vec![("a".to_string(), "1".to_string()), ("b".to_string(), "2".to_string())]);
}

#[test]
fn names_are_compared_by_their_characters() {
    let mut map = map_of(&[("é", "1"), ("e", "2")]);
    assert_eq!(map.len(), 2);
    map.insert("é".to_string(), "3".to_string());
    assert_eq!(map.len(), 2);
    assert_eq!(map.get("é"), Some(&"3".to_string()));
    assert_eq!(map.get("e"), Some(&"2".to_string()));
}
