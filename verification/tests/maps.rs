//! Tests for the string-keyed mapping and the model helpers.

use tagging_operator::kvmap::{KeyValue, KvMap};
use tagging_operator::model::contains_name;

fn get<'a>(m: &'a KvMap, k: &str) -> Option<&'a String> {
    m.get(&k.to_string())
}

#[test]
fn kvmap_insert_get_remove() {
    let mut m = KvMap::new();
    assert_eq!(m.len(), 0);
    m.insert("a".to_string(), "1".to_string());
    m.insert("b".to_string(), "2".to_string());
    assert_eq!(m.len(), 2);
    assert_eq!(get(&m, "a").map(String::as_str), Some("1"));
    assert_eq!(get(&m, "b").map(String::as_str), Some("2"));
    assert_eq!(get(&m, "c"), None);
    m.remove(&"a".to_string());
    assert_eq!(m.len(), 1);
    assert_eq!(get(&m, "a"), None);
    m.remove(&"missing".to_string());
    assert_eq!(m.len(), 1);
}

#[test]
fn kvmap_insert_overwrites_in_place() {
    let mut m = KvMap::new();
    m.insert("a".to_string(), "1".to_string());
    m.insert("a".to_string(), "2".to_string());
    assert_eq!(m.len(), 1);
    assert_eq!(get(&m, "a").map(String::as_str), Some("2"));
}

#[test]
fn kvmap_contains_key() {
    let mut m = KvMap::new();
    m.insert("a".to_string(), "1".to_string());
    assert!(m.contains_key(&"a".to_string()));
    assert!(!m.contains_key(&"b".to_string()));
}

#[test]
fn kvmap_entries_keep_insertion_order() {
    let mut m = KvMap::new();
    m.insert("x".to_string(), "1".to_string());
    m.insert("y".to_string(), "2".to_string());
    m.insert("x".to_string(), "3".to_string());
    let entries: &Vec<KeyValue> = m.entries();
    let listed: Vec<(&str, &str)> =
        entries.iter().map(|e| (e.key.as_str(), e.value.as_str())).collect();
    assert_eq!(listed, vec![("x", "3"), ("y", "2")]);
}

#[test]
fn kvmap_clone_is_equal_and_independent() {
    let mut m = KvMap::new();
    m.insert("a".to_string(), "1".to_string());
    let c = m.clone();
    m.insert("a".to_string(), "changed".to_string());
    assert_eq!(get(&c, "a").map(String::as_str), Some("1"));
    assert_eq!(get(&m, "a").map(String::as_str), Some("changed"));
}

#[test]
fn contains_name_finds_exact_names() {
    let list = vec!["ns1".to_string(), "ns2".to_string()];
    assert!(contains_name(&list, &"ns1".to_string()));
    assert!(contains_name(&list, &"ns2".to_string()));
    assert!(!contains_name(&list, &"ns3".to_string()));
    assert!(!contains_name(&Vec::new(), &"ns1".to_string()));
}
