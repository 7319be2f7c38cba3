use std::collections::BTreeMap;

use pwned_passwords_downloader_rs::string_map::{StringMap, StringSet};

#[test]
fn map_follows_std() {
    let mut map: StringMap<String> = StringMap::new();
    let mut expected: BTreeMap<String, String> = BTreeMap::new();
    assert!(map.is_empty());

    let keys = ["B", "A", "", "AB", "\u{E9}", "\u{10FFFF}", "a", "A", "ABC"];
    for (i, key) in keys.iter().enumerate() {
        map.insert(key.to_string(), i.to_string());
        expected.insert(key.to_string(), i.to_string());
    }
    map.remove("AB");
    expected.remove("AB");
    map.remove("missing");

    assert_eq!(map.len(), expected.len());
    let listed: Vec<(String, String)> = expected.into_iter().collect();
    assert_eq!(*map.entries(), listed);
    assert_eq!(map.get("A").map(String::as_str), Some("7"));
    assert_eq!(map.get("AB"), None);
    assert_eq!(map.get("Z"), None);
}

#[test]
fn later_entries_win() {
    let entries = vec![
        ("K".to_string(), "old".to_string()),
        ("J".to_string(), "other".to_string()),
        ("K".to_string(), "new".to_string()),
    ];
    let map = StringMap::from_entries(&entries);
    assert_eq!(map.len(), 2);
    assert_eq!(map.get("K").map(String::as_str), Some("new"));
    assert_eq!(map.get("J").map(String::as_str), Some("other"));
}

#[test]
fn same_map_has_same_entries() {
    let mut forward: StringMap<u64> = StringMap::new();
    let mut backward: StringMap<u64> = StringMap::new();
    for i in 0..50u64 {
        forward.insert(format!("{i:05X}"), i);
        backward.insert(format!("{:05X}", 49 - i), 49 - i);
    }
    assert_eq!(forward.entries(), backward.entries());
}

#[test]
fn set_holds_each_text_once() {
    let mut set = StringSet::new();
    assert!(set.is_empty());
    set.insert("B".to_string());
    set.insert("A".to_string());
    set.insert("B".to_string());
    assert!(set.contains("A"));
    assert!(set.contains("B"));
    assert!(!set.contains("C"));
    assert_eq!(
        *set.members(),
        vec![("A".to_string(), ()), ("B".to_string(), ())]
    );
}
