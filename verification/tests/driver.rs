//! Tests for the pass state machine and the full-pass computation.

use tagging_operator::driver::{
    run_pass, step, DriverAction, PassEvent, PassState, REQUEUE_ERROR_SECS, REQUEUE_SUCCESS_SECS,
};
use tagging_operator::kvmap::{KeyValue, KvMap};
use tagging_operator::model::{status_or_default, NamespaceView, TagSpec, TagStatus};
use tagging_operator::tags::get_all_tagged_true_annotations;

fn kv(k: &str, v: &str) -> KeyValue {
    KeyValue { key: k.to_string(), value: v.to_string() }
}

fn map_from(pairs: &[(&str, &str)]) -> KvMap {
    let mut m = KvMap::new();
    for (k, v) in pairs {
        m.insert(k.to_string(), v.to_string());
    }
    m
}

fn ns(name: &str, labels: &[(&str, &str)], annotations: &[(&str, &str)]) -> NamespaceView {
    NamespaceView { name: name.to_string(), labels: map_from(labels), annotations: map_from(annotations) }
}

fn spec_of(labels: &[(&str, &str)], annotations: &[(&str, &str)], excl: &[&str]) -> TagSpec {
    TagSpec {
        labels: labels.iter().map(|(k, v)| kv(k, v)).collect(),
        annotations: annotations.iter().map(|(k, v)| kv(k, v)).collect(),
        excludelist: excl.iter().map(|s| s.to_string()).collect(),
    }
}

fn get<'a>(m: &'a KvMap, k: &str) -> Option<&'a String> {
    m.get(&k.to_string())
}

#[test]
fn scenario_d_missing_namespace_fails_fast() {
    let (state, actions) = step(PassState::Idle, PassEvent::Delivered { has_namespace: false });
    assert_eq!(state, PassState::Failed);
    assert_eq!(
        actions,
        vec![
            DriverAction::ReportFailure,
            DriverAction::Requeue { seconds: REQUEUE_ERROR_SECS },
        ]
    );
    assert_eq!(REQUEUE_ERROR_SECS, 5);
}

#[test]
fn scenario_e_failure_mid_pass_aborts_and_requeues() {
    let (s1, a1) = step(PassState::Idle, PassEvent::Delivered { has_namespace: true });
    assert_eq!(s1, PassState::Listing);
    assert_eq!(a1, vec![DriverAction::ListNamespaces]);

    let (s2, a2) = step(s1, PassEvent::Listed { total: 5 });
    assert_eq!(s2, PassState::Running { done: 0, total: 5 });
    assert_eq!(a2, vec![DriverAction::ProcessNamespace { index: 0 }]);

    let (s3, _) = step(s2, PassEvent::NamespaceDone);
    let (s4, a4) = step(s3, PassEvent::NamespaceDone);
    assert_eq!(s4, PassState::Running { done: 2, total: 5 });
    assert_eq!(a4, vec![DriverAction::ProcessNamespace { index: 2 }]);

    let (s5, a5) = step(s4, PassEvent::NamespaceFailed);
    assert_eq!(s5, PassState::Failed);
    assert_eq!(
        a5,
        vec![
            DriverAction::ReportFailure,
            DriverAction::Requeue { seconds: REQUEUE_ERROR_SECS },
        ]
    );
}

#[test]
fn scenario_e_next_pass_converges_all_namespaces() {
    let ts = spec_of(&[("team", "x")], &[], &[]);
    let names = ["n1", "n2", "n3", "n4", "n5"];
    let mut cluster: Vec<NamespaceView> = names.iter().map(|n| ns(n, &[], &[])).collect();

    // A first, interrupted pass already patched the first two
    // namespaces; its changes persist.
    let partial = run_pass(&ts, &cluster);
    cluster[0] = NamespaceView {
        name: "n1".to_string(),
        labels: partial.namespaces[0].labels.clone(),
        annotations: partial.namespaces[0].annotations.clone(),
    };
    cluster[1] = NamespaceView {
        name: "n2".to_string(),
        labels: partial.namespaces[1].labels.clone(),
        annotations: partial.namespaces[1].annotations.clone(),
    };

    // The retry re-scans from scratch and converges all five.
    let full = run_pass(&ts, &cluster);
    assert!(full.status.succeeded);
    let tagged = full.status.tagged.clone();
    assert_eq!(tagged, names.iter().map(|s| s.to_string()).collect::<Vec<_>>());
    for nsv in &full.namespaces {
        assert_eq!(get(&nsv.labels, "team").map(String::as_str), Some("x"));
        assert_eq!(get(&nsv.annotations, "tagger.cncp.nl").map(String::as_str), Some("tagged"));
    }
}

#[test]
fn full_pass_walks_to_success() {
    let (s1, _) = step(PassState::Idle, PassEvent::Delivered { has_namespace: true });
    let (s2, _) = step(s1, PassEvent::Listed { total: 1 });
    let (s3, a3) = step(s2, PassEvent::NamespaceDone);
    assert_eq!(s3, PassState::Scanning);
    assert_eq!(a3, vec![DriverAction::ScanSentinels]);
    let (s4, a4) = step(s3, PassEvent::Scanned);
    assert_eq!(s4, PassState::Reporting);
    assert_eq!(a4, vec![DriverAction::ReportSuccess]);
    let (s5, a5) = step(s4, PassEvent::StatusWritten);
    assert_eq!(s5, PassState::Succeeded);
    assert_eq!(a5, vec![DriverAction::Requeue { seconds: REQUEUE_SUCCESS_SECS }]);
    assert_eq!(REQUEUE_SUCCESS_SECS, 30);
}

#[test]
fn empty_listing_skips_straight_to_the_scan() {
    let (s1, _) = step(PassState::Idle, PassEvent::Delivered { has_namespace: true });
    let (s2, a2) = step(s1, PassEvent::Listed { total: 0 });
    assert_eq!(s2, PassState::Scanning);
    assert_eq!(a2, vec![DriverAction::ScanSentinels]);
}

#[test]
fn status_write_failure_still_reports_and_requeues() {
    let (s, a) = step(PassState::Reporting, PassEvent::StatusFailed);
    assert_eq!(s, PassState::Failed);
    assert_eq!(
        a,
        vec![
            DriverAction::ReportFailure,
            DriverAction::Requeue { seconds: REQUEUE_ERROR_SECS },
        ]
    );
}

#[test]
fn terminal_states_restart_on_delivery() {
    let (s1, _) = step(PassState::Succeeded, PassEvent::Delivered { has_namespace: true });
    assert_eq!(s1, PassState::Listing);
    let (s2, _) = step(PassState::Failed, PassEvent::Delivered { has_namespace: true });
    assert_eq!(s2, PassState::Listing);
}

#[test]
fn unrelated_event_leaves_the_state_alone() {
    let (s, a) = step(PassState::Idle, PassEvent::Scanned);
    assert_eq!(s, PassState::Idle);
    assert!(a.is_empty());
}

#[test]
fn sentinel_consistency_status_matches_rescan() {
    let ts = spec_of(&[("team", "x")], &[("note", "n")], &["skip"]);
    let cluster = vec![
        ns("a", &[], &[]),
        ns("skip", &[("team", "x")], &[("tagger.cncp.nl", "tagged")]),
        ns("b", &[("team", "old")], &[("tagger.cncp.nl", "tagged")]),
    ];
    let r = run_pass(&ts, &cluster);
    assert!(r.status.succeeded);
    let rescan = get_all_tagged_true_annotations(&r.namespaces);
    assert_eq!(r.status.tagged, rescan);
    assert_eq!(r.status.tagged, vec!["a".to_string(), "b".to_string()]);
}

#[test]
fn pass_clears_excluded_and_tags_the_rest() {
    let ts = spec_of(&[("team", "x")], &[], &["skip"]);
    let cluster = vec![
        ns("skip", &[("team", "x"), ("owner", "y")], &[("tagger.cncp.nl", "tagged")]),
        ns("plain", &[], &[]),
    ];
    let r = run_pass(&ts, &cluster);
    let skip = &r.namespaces[0];
    assert_eq!(get(&skip.labels, "team"), None);
    assert_eq!(get(&skip.labels, "owner").map(String::as_str), Some("y"));
    assert_eq!(get(&skip.annotations, "tagger.cncp.nl"), None);
    let plain = &r.namespaces[1];
    assert_eq!(get(&plain.labels, "team").map(String::as_str), Some("x"));
    assert_eq!(get(&plain.annotations, "tagger.cncp.nl").map(String::as_str), Some("tagged"));
}

#[test]
fn status_or_default_fills_the_gap() {
    let some = status_or_default(Some(TagStatus { succeeded: true, tagged: vec!["a".to_string()] }));
    assert!(some.succeeded);
    assert_eq!(some.tagged, vec!["a".to_string()]);
    let none = status_or_default(None);
    assert!(!none.succeeded);
    assert!(none.tagged.is_empty());
}
