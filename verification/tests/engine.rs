//! Scenario tests for the diff/apply engine and ownership tracking.

use tagging_operator::kvmap::{KeyValue, KvMap};
use tagging_operator::model::{NamespaceView, TagSpec};
use tagging_operator::tags::{
    apply_tagged_true_annotation, apply_tags, check_for_tagged_annotation, delete_tags,
    delete_tagged_true_annotation, get_all_tagged_true_annotations, sentinel_key, sentinel_value,
};

fn kv(k: &str, v: &str) -> KeyValue {
    KeyValue { key: k.to_string(), value: v.to_string() }
}

fn map_from(pairs: &[(&str, &str)]) -> KvMap {
    let mut m = KvMap::new();
    for (k, v) in pairs {
        m.insert(k.to_string(), v.to_string());
    }
    m
}

fn ns(name: &str, labels: &[(&str, &str)], annotations: &[(&str, &str)]) -> NamespaceView {
    NamespaceView { name: name.to_string(), labels: map_from(labels), annotations: map_from(annotations) }
}

fn spec_of(labels: &[(&str, &str)], annotations: &[(&str, &str)], excl: &[&str]) -> TagSpec {
    TagSpec {
        labels: labels.iter().map(|(k, v)| kv(k, v)).collect(),
        annotations: annotations.iter().map(|(k, v)| kv(k, v)).collect(),
        excludelist: excl.iter().map(|s| s.to_string()).collect(),
    }
}

fn get<'a>(m: &'a KvMap, k: &str) -> Option<&'a String> {
    m.get(&k.to_string())
}

#[test]
fn scenario_a_fresh_namespace_gets_one_patch() {
    let ts = spec_of(&[("team", "x")], &[], &[]);
    let ns1 = ns("ns1", &[], &[]);
    let r = apply_tags(&ts, &ns1);
    assert!(r.needs_update);
    assert_eq!(get(&r.labels, "team").map(String::as_str), Some("x"));
    assert_eq!(r.labels.entries().len(), 1);
    assert_eq!(r.annotations.entries().len(), 0);
}

#[test]
fn scenario_b_already_labeled_issues_no_patch() {
    let ts = spec_of(&[("team", "x")], &[], &[]);
    let ns1 = ns("ns1", &[("team", "x")], &[]);
    let r = apply_tags(&ts, &ns1);
    assert!(!r.needs_update);
    assert_eq!(get(&r.labels, "team").map(String::as_str), Some("x"));
}

#[test]
fn scenario_c_excluded_namespace_keeps_foreign_labels() {
    let ts = spec_of(&[("team", "x")], &[], &["ns2"]);
    let ns2 = ns("ns2", &[("team", "x"), ("owner", "y")], &[]);
    let r = delete_tags(&ts, &ns2);
    assert!(r.needs_update);
    assert_eq!(get(&r.labels, "team"), None);
    assert_eq!(get(&r.labels, "owner").map(String::as_str), Some("y"));
    assert_eq!(r.label_nulls, vec!["team".to_string()]);
    assert!(r.annotation_nulls.is_empty());
}

#[test]
fn idempotency_second_apply_is_a_noop() {
    let ts = spec_of(&[("team", "x"), ("env", "prod")], &[("note", "n")], &[]);
    let ns1 = ns("ns1", &[("team", "old"), ("other", "keep")], &[]);
    let first = apply_tags(&ts, &ns1);
    assert!(first.needs_update);
    let after = NamespaceView {
        name: "ns1".to_string(),
        labels: first.labels,
        annotations: first.annotations,
    };
    let second = apply_tags(&ts, &after);
    assert!(!second.needs_update);
    assert_eq!(get(&second.labels, "team").map(String::as_str), Some("x"));
    assert_eq!(get(&second.labels, "env").map(String::as_str), Some("prod"));
    assert_eq!(get(&second.labels, "other").map(String::as_str), Some("keep"));
    assert_eq!(get(&second.annotations, "note").map(String::as_str), Some("n"));
}

#[test]
fn symmetry_apply_leaves_foreign_keys_alone() {
    let ts = spec_of(&[("team", "x")], &[], &[]);
    let ns1 = ns("ns1", &[("owner", "y")], &[("memo", "m")]);
    let r = apply_tags(&ts, &ns1);
    assert_eq!(get(&r.labels, "owner").map(String::as_str), Some("y"));
    assert_eq!(get(&r.annotations, "memo").map(String::as_str), Some("m"));
}

#[test]
fn symmetry_removal_keeps_keys_with_foreign_values() {
    let ts = spec_of(&[("team", "x")], &[("note", "n")], &["ns2"]);
    let ns2 = ns("ns2", &[("team", "z")], &[("note", "other")]);
    let r = delete_tags(&ts, &ns2);
    assert!(!r.needs_update);
    assert_eq!(get(&r.labels, "team").map(String::as_str), Some("z"));
    assert_eq!(get(&r.annotations, "note").map(String::as_str), Some("other"));
    assert!(r.label_nulls.is_empty());
    assert!(r.annotation_nulls.is_empty());
}

#[test]
fn exclusion_no_spec_pair_survives_removal() {
    let ts = spec_of(&[("team", "x"), ("env", "prod")], &[("note", "n")], &["ns2"]);
    let ns2 = ns("ns2", &[("team", "x"), ("env", "dev")], &[("note", "n")]);
    let r = delete_tags(&ts, &ns2);
    assert!(r.needs_update);
    assert_eq!(get(&r.labels, "team"), None);
    assert_eq!(get(&r.labels, "env").map(String::as_str), Some("dev"));
    assert_eq!(get(&r.annotations, "note"), None);
    let mut nulls = r.label_nulls.clone();
    nulls.sort();
    assert_eq!(nulls, vec!["team".to_string()]);
    assert_eq!(r.annotation_nulls, vec!["note".to_string()]);
}

#[test]
fn delete_tags_skips_namespace_not_on_exclude_list() {
    let ts = spec_of(&[("team", "x")], &[], &["other"]);
    let ns1 = ns("ns1", &[("team", "x")], &[]);
    let r = delete_tags(&ts, &ns1);
    assert!(!r.needs_update);
    assert_eq!(get(&r.labels, "team").map(String::as_str), Some("x"));
    assert!(r.label_nulls.is_empty());
}

#[test]
fn duplicate_spec_keys_last_write_wins() {
    let ts = spec_of(&[("k", "a"), ("k", "b")], &[], &[]);
    let ns1 = ns("ns1", &[], &[]);
    let r = apply_tags(&ts, &ns1);
    assert!(r.needs_update);
    assert_eq!(get(&r.labels, "k").map(String::as_str), Some("b"));
    assert_eq!(r.labels.entries().len(), 1);
}

#[test]
fn empty_spec_changes_nothing() {
    let ts = spec_of(&[], &[], &[]);
    let ns1 = ns("ns1", &[("team", "x")], &[("a", "b")]);
    let ra = apply_tags(&ts, &ns1);
    assert!(!ra.needs_update);
    let rd = delete_tags(&spec_of(&[], &[], &["ns1"]), &ns1);
    assert!(!rd.needs_update);
}

#[test]
fn check_for_tagged_annotation_goes_by_key_alone() {
    let tagged = map_from(&[("tagger.cncp.nl", "tagged")]);
    assert!(check_for_tagged_annotation(&tagged));
    let foreign_value = map_from(&[("tagger.cncp.nl", "unrelated")]);
    assert!(check_for_tagged_annotation(&foreign_value));
    let other = map_from(&[("some.other/key", "tagged")]);
    assert!(!check_for_tagged_annotation(&other));
    assert!(!check_for_tagged_annotation(&KvMap::new()));
}

#[test]
fn sentinel_is_added_only_when_missing() {
    let bare = ns("ns1", &[], &[]);
    let r = apply_tagged_true_annotation(&bare);
    assert!(r.needs_update);
    assert_eq!(get(&r.annotations, "tagger.cncp.nl").map(String::as_str), Some("tagged"));

    let already = ns("ns1", &[], &[("tagger.cncp.nl", "tagged")]);
    let r2 = apply_tagged_true_annotation(&already);
    assert!(!r2.needs_update);
    assert_eq!(get(&r2.annotations, "tagger.cncp.nl").map(String::as_str), Some("tagged"));
}

#[test]
fn sentinel_is_cleared_only_when_present() {
    let tagged = ns("ns2", &[], &[("tagger.cncp.nl", "tagged"), ("keep", "me")]);
    let r = delete_tagged_true_annotation(&tagged);
    assert!(r.needs_update);
    assert_eq!(get(&r.annotations, "tagger.cncp.nl"), None);
    assert_eq!(get(&r.annotations, "keep").map(String::as_str), Some("me"));

    let bare = ns("ns2", &[], &[]);
    let r2 = delete_tagged_true_annotation(&bare);
    assert!(!r2.needs_update);
}

#[test]
fn scan_lists_sentineled_namespaces_in_order() {
    let list = vec![
        ns("a", &[], &[("tagger.cncp.nl", "tagged")]),
        ns("b", &[], &[]),
        ns("c", &[], &[("tagger.cncp.nl", "x")]),
        ns("d", &[], &[("unrelated", "tagged")]),
    ];
    let tagged = get_all_tagged_true_annotations(&list);
    assert_eq!(tagged, vec!["a".to_string(), "c".to_string()]);
}

#[test]
fn scan_of_empty_listing_is_empty() {
    let tagged = get_all_tagged_true_annotations(&Vec::new());
    assert!(tagged.is_empty());
}

#[test]
fn sentinel_constants_match_the_annotation() {
    assert_eq!(sentinel_key(), "tagger.cncp.nl");
    assert_eq!(sentinel_value(), "tagged");
}

#[test]
fn conflicting_duplicate_keys_never_settle() {
    // Two pairs assigning different values to one key: the staged
    // value flips a->b within each run, so every run reports a
    // difference even though the final mapping no longer changes.
    // The idempotency law therefore asks for a conflict-free spec.
    let ts = spec_of(&[("k", "a"), ("k", "b")], &[], &[]);
    let ns1 = ns("ns1", &[("k", "b")], &[]);
    let first = apply_tags(&ts, &ns1);
    assert!(first.needs_update);
    assert_eq!(get(&first.labels, "k").map(String::as_str), Some("b"));
    let after = NamespaceView {
        name: "ns1".to_string(),
        labels: first.labels,
        annotations: first.annotations,
    };
    let second = apply_tags(&ts, &after);
    assert!(second.needs_update);
    assert_eq!(get(&second.labels, "k").map(String::as_str), Some("b"));
}
