//! Reconciliation driver: one pass as a state machine stepped by the
//! surrounding event loop, and the pure computation of a full pass
//! over a listed set of namespaces.

use vstd::prelude::*;

use crate::model::{NamespaceView, TagSpec, TagSpecModel, NamespaceModel, TagStatus};
use crate::tags::{
    apply_tags, check_for_tagged_annotation, delete_tags, get_all_tagged_true_annotations,
    merged, removal_result, sentinel_key, sentinel_value, spec_sentinel_key,
    spec_sentinel_value, spec_tagged_names,
};

verus! {

/// Seconds until the next pass after a successful one.
pub const REQUEUE_SUCCESS_SECS: u64 = 30;

/// Seconds until the retry after a failed one.
pub const REQUEUE_ERROR_SECS: u64 = 5;

/// Where a reconciliation pass stands.
#[derive(PartialEq, Eq, Structural, Clone, Copy, Debug)]
pub enum PassState {
    /// Waiting for the watch to deliver the resource or for the
    /// requeue timer to fire.
    Idle,
    /// Waiting for the namespace list.
    Listing,
    /// Per-namespace work: `done` of `total` listed namespaces are
    /// fully handled, the one at position `done` is being processed.
    Running { done: usize, total: usize },
    /// Waiting for the sentinel re-scan that rebuilds the tagged list.
    Scanning,
    /// Waiting for the status write.
    Reporting,
    /// The pass finished; the next one is scheduled.
    Succeeded,
    /// The pass aborted; a retry is scheduled.
    Failed,
}

impl PassState {
    /// In `Running`, the position being processed lies in the listing.
    pub open spec fn inv(self) -> bool {
        match self {
            PassState::Running { done, total } => done < total,
            _ => true,
        }
    }
}

/// What the surrounding event loop reports to the driver.
#[derive(PartialEq, Eq, Structural, Clone, Copy, Debug)]
pub enum PassEvent {
    /// The resource was delivered; whether it carries a namespace.
    Delivered { has_namespace: bool },
    /// The namespace list arrived with this many entries.
    Listed { total: usize },
    /// Listing the namespaces failed.
    ListFailed,
    /// The patches for the current namespace were applied or skipped.
    NamespaceDone,
    /// A patch for the current namespace failed.
    NamespaceFailed,
    /// The sentinel re-scan arrived.
    Scanned,
    /// The sentinel re-scan failed.
    ScanFailed,
    /// The status write went through.
    StatusWritten,
    /// The status write failed.
    StatusFailed,
}

/// What the surrounding event loop must do next.
#[derive(PartialEq, Eq, Structural, Clone, Copy, Debug)]
pub enum DriverAction {
    /// List all cluster namespaces.
    ListNamespaces,
    /// Run the per-namespace engine on the namespace at this position
    /// of the listing.
    ProcessNamespace { index: usize },
    /// Re-scan the namespaces for sentinel annotations.
    ScanSentinels,
    /// Write a success status carrying the re-scanned tagged list.
    ReportSuccess,
    /// Write a failure status, best effort: its own failure is only
    /// logged.
    ReportFailure,
    /// Schedule the next delivery this many seconds from now.
    Requeue { seconds: u64 },
}

/// The state after the event is handled. A delivery without a
/// namespace set fails the pass at once; any reported failure aborts
/// it; otherwise the pass walks the listing, re-scans, reports, and
/// finishes. An event that does not belong to the state leaves it
/// unchanged.
pub open spec fn spec_step_state(s: PassState, e: PassEvent) -> PassState {
    match (s, e) {
        (PassState::Idle, PassEvent::Delivered { has_namespace }) => if has_namespace {
            PassState::Listing
        } else {
            PassState::Failed
        },
        (PassState::Succeeded, PassEvent::Delivered { has_namespace }) => if has_namespace {
            PassState::Listing
        } else {
            PassState::Failed
        },
        (PassState::Failed, PassEvent::Delivered { has_namespace }) => if has_namespace {
            PassState::Listing
        } else {
            PassState::Failed
        },
        (PassState::Listing, PassEvent::Listed { total }) => if total == 0 {
            PassState::Scanning
        } else {
            PassState::Running { done: 0, total }
        },
        (PassState::Listing, PassEvent::ListFailed) => PassState::Failed,
        (PassState::Running { done, total }, PassEvent::NamespaceDone) => if done + 1 == total {
            PassState::Scanning
        } else {
            PassState::Running { done: (done + 1) as usize, total }
        },
        (PassState::Running { .. }, PassEvent::NamespaceFailed) => PassState::Failed,
        (PassState::Scanning, PassEvent::Scanned) => PassState::Reporting,
        (PassState::Scanning, PassEvent::ScanFailed) => PassState::Failed,
        (PassState::Reporting, PassEvent::StatusWritten) => PassState::Succeeded,
        (PassState::Reporting, PassEvent::StatusFailed) => PassState::Failed,
        _ => s,
    }
}

/// The actions the event loop performs after the event is handled.
/// Every path into `Failed` writes a failure status (best effort) and
/// requeues at the short error delay; finishing requeues at the long
/// success delay.
pub open spec fn spec_step_actions(s: PassState, e: PassEvent) -> Seq<DriverAction> {
    match (s, e) {
        (PassState::Idle, PassEvent::Delivered { has_namespace }) => if has_namespace {
            seq![DriverAction::ListNamespaces]
        } else {
            seq![
                DriverAction::ReportFailure,
                DriverAction::Requeue { seconds: REQUEUE_ERROR_SECS },
            ]
        },
        (PassState::Succeeded, PassEvent::Delivered { has_namespace }) => if has_namespace {
            seq![DriverAction::ListNamespaces]
        } else {
            seq![
                DriverAction::ReportFailure,
                DriverAction::Requeue { seconds: REQUEUE_ERROR_SECS },
            ]
        },
        (PassState::Failed, PassEvent::Delivered { has_namespace }) => if has_namespace {
            seq![DriverAction::ListNamespaces]
        } else {
            seq![
                DriverAction::ReportFailure,
                DriverAction::Requeue { seconds: REQUEUE_ERROR_SECS },
            ]
        },
        (PassState::Listing, PassEvent::Listed { total }) => if total == 0 {
            seq![DriverAction::ScanSentinels]
        } else {
            seq![DriverAction::ProcessNamespace { index: 0 }]
        },
        (PassState::Listing, PassEvent::ListFailed) => seq![
            DriverAction::ReportFailure,
            DriverAction::Requeue { seconds: REQUEUE_ERROR_SECS },
        ],
        (PassState::Running { done, total }, PassEvent::NamespaceDone) => if done + 1 == total {
            seq![DriverAction::ScanSentinels]
        } else {
            seq![DriverAction::ProcessNamespace { index: (done + 1) as usize }]
        },
        (PassState::Running { .. }, PassEvent::NamespaceFailed) => seq![
            DriverAction::ReportFailure,
            DriverAction::Requeue { seconds: REQUEUE_ERROR_SECS },
        ],
        (PassState::Scanning, PassEvent::Scanned) => seq![DriverAction::ReportSuccess],
        (PassState::Scanning, PassEvent::ScanFailed) => seq![
            DriverAction::ReportFailure,
            DriverAction::Requeue { seconds: REQUEUE_ERROR_SECS },
        ],
        (PassState::Reporting, PassEvent::StatusWritten) => seq![
            DriverAction::Requeue { seconds: REQUEUE_SUCCESS_SECS },
        ],
        (PassState::Reporting, PassEvent::StatusFailed) => seq![
            DriverAction::ReportFailure,
            DriverAction::Requeue { seconds: REQUEUE_ERROR_SECS },
        ],
        _ => Seq::empty(),
    }
}

/// Advance the pass by one event. The returned actions are performed
/// by the surrounding loop, which then reports their outcome as the
/// next event.
pub fn step(s: PassState, e: PassEvent) -> (r: (PassState, Vec<DriverAction>))
    requires
        s.inv(),
    ensures
        r.0 == spec_step_state(s, e),
        r.1@ == spec_step_actions(s, e),
        r.0.inv(),
{
    let mut actions: Vec<DriverAction> = Vec::new();
    let next = match (s, e) {
        (PassState::Idle, PassEvent::Delivered { has_namespace })
        | (PassState::Succeeded, PassEvent::Delivered { has_namespace })
        | (PassState::Failed, PassEvent::Delivered { has_namespace }) => {
            if has_namespace {
                actions.push(DriverAction::ListNamespaces);
                PassState::Listing
            } else {
                actions.push(DriverAction::ReportFailure);
                actions.push(DriverAction::Requeue { seconds: REQUEUE_ERROR_SECS });
                PassState::Failed
            }
        },
        (PassState::Listing, PassEvent::Listed { total }) => {
            if total == 0 {
                actions.push(DriverAction::ScanSentinels);
                PassState::Scanning
            } else {
                actions.push(DriverAction::ProcessNamespace { index: 0 });
                PassState::Running { done: 0, total }
            }
        },
        (PassState::Listing, PassEvent::ListFailed) => {
            actions.push(DriverAction::ReportFailure);
            actions.push(DriverAction::Requeue { seconds: REQUEUE_ERROR_SECS });
            PassState::Failed
        },
        (PassState::Running { done, total }, PassEvent::NamespaceDone) => {
            if done + 1 == total {
                actions.push(DriverAction::ScanSentinels);
                PassState::Scanning
            } else {
                actions.push(DriverAction::ProcessNamespace { index: done + 1 });
                PassState::Running { done: done + 1, total }
            }
        },
        (PassState::Running { .. }, PassEvent::NamespaceFailed) => {
            actions.push(DriverAction::ReportFailure);
            actions.push(DriverAction::Requeue { seconds: REQUEUE_ERROR_SECS });
            PassState::Failed
        },
        (PassState::Scanning, PassEvent::Scanned) => {
            actions.push(DriverAction::ReportSuccess);
            PassState::Reporting
        },
        (PassState::Scanning, PassEvent::ScanFailed) => {
            actions.push(DriverAction::ReportFailure);
            actions.push(DriverAction::Requeue { seconds: REQUEUE_ERROR_SECS });
            PassState::Failed
        },
        (PassState::Reporting, PassEvent::StatusWritten) => {
            actions.push(DriverAction::Requeue { seconds: REQUEUE_SUCCESS_SECS });
            PassState::Succeeded
        },
        (PassState::Reporting, PassEvent::StatusFailed) => {
            actions.push(DriverAction::ReportFailure);
            actions.push(DriverAction::Requeue { seconds: REQUEUE_ERROR_SECS });
            PassState::Failed
        },
        _ => s,
    };
    proof {
        assert(actions@ =~= spec_step_actions(s, e));
    }
    (next, actions)
}

/// The labels a namespace holds once the pass has handled it.
pub open spec fn spec_pass_labels(ts: TagSpecModel, ns: NamespaceModel) -> Map<
    Seq<char>,
    Seq<char>,
> {
    if ts.excludes(ns.name) {
        removal_result(ns.labels, ts.labels)
    } else {
        merged(ns.labels, ts.labels)
    }
}

/// The annotations a namespace holds once the pass has handled it:
/// the diff engine's outcome, with the sentinel cleared on an
/// excluded namespace and set on any other.
pub open spec fn spec_pass_annotations(ts: TagSpecModel, ns: NamespaceModel) -> Map<
    Seq<char>,
    Seq<char>,
> {
    if ts.excludes(ns.name) {
        removal_result(ns.annotations, ts.annotations).remove(spec_sentinel_key())
    } else {
        let m = merged(ns.annotations, ts.annotations);
        if ns.annotations.contains_key(spec_sentinel_key()) {
            m
        } else {
            m.insert(spec_sentinel_key(), spec_sentinel_value())
        }
    }
}

/// Outcome of one full successful pass: the namespaces as the issued
/// patches leave them, and the status the pass then reports.
pub struct PassResult {
    pub namespaces: Vec<NamespaceView>,
    pub status: TagStatus,
}

/// One full pass over a listed set of namespaces, as pure
/// computation: handle each namespace in listing order, re-scan the
/// outcome for sentinels, and build the success status from the
/// re-scan.
pub fn run_pass(ts: &TagSpec, namespaces: &Vec<NamespaceView>) -> (r: PassResult)
    requires
        forall|j: int| 0 <= j < namespaces@.len() ==> (#[trigger] namespaces@[j]).wf(),
    ensures
        r.namespaces@.len() == namespaces@.len(),
        forall|j: int|
            0 <= j < namespaces@.len() ==> {
                &&& (#[trigger] r.namespaces@[j]).wf()
                &&& r.namespaces@[j]@.name == namespaces@[j]@.name
                &&& r.namespaces@[j]@.labels == spec_pass_labels(ts@, namespaces@[j]@)
                &&& r.namespaces@[j]@.annotations == spec_pass_annotations(ts@, namespaces@[j]@)
            },
        r.status@.succeeded,
        r.status@.tagged == spec_tagged_names(r.namespaces@),
{
    let n = namespaces.len();
    let mut out: Vec<NamespaceView> = Vec::new();
    let mut i: usize = 0;
    while i < n
        invariant
            0 <= i <= n,
            n == namespaces@.len(),
            forall|j: int| 0 <= j < n ==> (#[trigger] namespaces@[j]).wf(),
            out@.len() == i,
            forall|j: int|
                0 <= j < i ==> {
                    &&& (#[trigger] out@[j]).wf()
                    &&& out@[j]@.name == namespaces@[j]@.name
                    &&& out@[j]@.labels == spec_pass_labels(ts@, namespaces@[j]@)
                    &&& out@[j]@.annotations == spec_pass_annotations(ts@, namespaces@[j]@)
                },
        decreases n - i,
    {
        let ns = &namespaces[i];
        let sentinel_present = check_for_tagged_annotation(&ns.annotations);
        if crate::model::contains_name(&ts.excludelist, &ns.name) {
            let rm = delete_tags(ts, ns);
            let mut annotations = rm.annotations;
            if sentinel_present {
                let key = sentinel_key();
                annotations.remove(&key);
            } else {
                proof {
                    assert(annotations@.remove(spec_sentinel_key()) =~= annotations@);
                }
            }
            out.push(NamespaceView { name: ns.name.clone(), labels: rm.labels, annotations });
        } else {
            let ap = apply_tags(ts, ns);
            let mut annotations = ap.annotations;
            if !sentinel_present {
                annotations.insert(sentinel_key(), sentinel_value());
            }
            out.push(NamespaceView { name: ns.name.clone(), labels: ap.labels, annotations });
        }
        i = i + 1;
    }
    let tagged = get_all_tagged_true_annotations(&out);
    PassResult { namespaces: out, status: TagStatus { succeeded: true, tagged } }
}

} // verus!
