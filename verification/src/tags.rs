//! Diff/apply engine and ownership tracking: what one reconciliation
//! pass decides for a single namespace, and the re-scan that rebuilds
//! the reported status.
//!
//! Each function here only computes; issuing the resulting merge
//! patches against the cluster is left to the caller.

use vstd::prelude::*;

use crate::kvmap::KvMap;
use crate::model::{NamespaceView, TagSpec};

verus! {

/// Key of the ownership sentinel annotation.
pub open spec fn spec_sentinel_key() -> Seq<char> {
    "tagger.cncp.nl"@
}

/// Value the sentinel annotation is set to.
pub open spec fn spec_sentinel_value() -> Seq<char> {
    "tagged"@
}

/// The ownership sentinel annotation key, as a string.
pub fn sentinel_key() -> (r: String)
    ensures
        r@ == spec_sentinel_key(),
{
    "tagger.cncp.nl".to_string()
}

/// The value the sentinel annotation is set to, as a string.
pub fn sentinel_value() -> (r: String)
    ensures
        r@ == spec_sentinel_value(),
{
    "tagged".to_string()
}

/// The mapping after the desired pairs are applied in order: each
/// desired key ends up at its (last) desired value, all other keys
/// keep their current value.
pub open spec fn merged(
    cur: Map<Seq<char>, Seq<char>>,
    des: Seq<(Seq<char>, Seq<char>)>,
) -> Map<Seq<char>, Seq<char>>
    decreases des.len(),
{
    if des.len() == 0 {
        cur
    } else {
        merged(cur, des.drop_last()).insert(des.last().0, des.last().1)
    }
}

/// Whether applying the desired pairs in order ever finds a key
/// missing or holding another value. Only then is a patch issued.
pub open spec fn merge_dirty(
    cur: Map<Seq<char>, Seq<char>>,
    des: Seq<(Seq<char>, Seq<char>)>,
) -> bool
    decreases des.len(),
{
    if des.len() == 0 {
        false
    } else {
        merge_dirty(cur, des.drop_last()) || !(merged(cur, des.drop_last()).contains_key(
            des.last().0,
        ) && merged(cur, des.drop_last())[des.last().0] == des.last().1)
    }
}

/// What the apply path decided for one namespace: the full updated
/// label and annotation mappings, and whether any of them differs
/// from the current state.
pub struct ApplyOutcome {
    pub labels: KvMap,
    pub annotations: KvMap,
    pub needs_update: bool,
}

/// Merge the desired pairs into a copy of the current mapping,
/// reporting whether anything had to change.
fn merge_pairs(cur: &KvMap, des: &Vec<crate::kvmap::KeyValue>) -> (r: (KvMap, bool))
    requires
        cur.wf(),
    ensures
        r.0.wf(),
        r.0@ == merged(cur@, crate::kvmap::pairs_of(des@)),
        r.1 == merge_dirty(cur@, crate::kvmap::pairs_of(des@)),
{
    let ghost despairs = crate::kvmap::pairs_of(des@);
    let mut out = cur.clone();
    let mut dirty = false;
    let n = des.len();
    let mut i: usize = 0;
    while i < n
        invariant
            0 <= i <= n,
            n == des@.len(),
            despairs == crate::kvmap::pairs_of(des@),
            out.wf(),
            out@ == merged(cur@, despairs.take(i as int)),
            dirty == merge_dirty(cur@, despairs.take(i as int)),
        decreases n - i,
    {
        proof {
            assert(despairs.take(i as int + 1).drop_last() =~= despairs.take(i as int));
            assert(despairs.take(i as int + 1).last() == despairs[i as int]);
        }
        let kv = &des[i];
        let matches = match out.get(&kv.key) {
            Some(v) => *v == kv.value,
            None => false,
        };
        if !matches {
            dirty = true;
            out.insert(kv.key.clone(), kv.value.clone());
        } else {
            proof {
                assert(out@.insert(kv.key@, kv.value@) =~= out@);
            }
        }
        i = i + 1;
    }
    proof {
        assert(despairs.take(n as int) =~= despairs);
    }
    (out, dirty)
}

/// Apply path of the diff engine, for a namespace that is not
/// excluded: compute the full updated label and annotation mappings.
/// `needs_update` holds exactly when the current state differs, and
/// only then does the caller issue its single merge patch.
pub fn apply_tags(ts: &TagSpec, ns: &NamespaceView) -> (r: ApplyOutcome)
    requires
        ns.wf(),
    ensures
        r.labels.wf(),
        r.annotations.wf(),
        r.labels@ == merged(ns@.labels, ts@.labels),
        r.annotations@ == merged(ns@.annotations, ts@.annotations),
        r.needs_update == (merge_dirty(ns@.labels, ts@.labels) || merge_dirty(
            ns@.annotations,
            ts@.annotations,
        )),
{
    let (labels, labels_dirty) = merge_pairs(&ns.labels, &ts.labels);
    let (annotations, annotations_dirty) = merge_pairs(&ns.annotations, &ts.annotations);
    ApplyOutcome { labels, annotations, needs_update: labels_dirty || annotations_dirty }
}

/// A key is dropped by the removal path exactly when the mapping
/// currently holds it at a value some desired pair assigns to it.
pub open spec fn removal_triggered(
    cur: Map<Seq<char>, Seq<char>>,
    des: Seq<(Seq<char>, Seq<char>)>,
    k: Seq<char>,
) -> bool {
    cur.contains_key(k) && exists|i: int|
        0 <= i < des.len() && (#[trigger] des[i]).0 == k && cur[k] == des[i].1
}

/// The keys the removal path drops.
pub open spec fn removed_keys(
    cur: Map<Seq<char>, Seq<char>>,
    des: Seq<(Seq<char>, Seq<char>)>,
) -> Set<Seq<char>> {
    Set::new(|k: Seq<char>| removal_triggered(cur, des, k))
}

/// The mapping after the removal path ran.
pub open spec fn removal_result(
    cur: Map<Seq<char>, Seq<char>>,
    des: Seq<(Seq<char>, Seq<char>)>,
) -> Map<Seq<char>, Seq<char>> {
    cur.remove_keys(removed_keys(cur, des))
}

/// Whether the removal path drops anything. Only then is a patch
/// issued.
pub open spec fn removal_dirty(
    cur: Map<Seq<char>, Seq<char>>,
    des: Seq<(Seq<char>, Seq<char>)>,
) -> bool {
    exists|k: Seq<char>| removal_triggered(cur, des, k)
}

/// Drop from a copy of the current mapping every key that some
/// desired pair holds at the desired value, collecting the dropped
/// keys for the caller's null-entry merge patch.
fn remove_pairs(cur: &KvMap, des: &Vec<crate::kvmap::KeyValue>) -> (r: (KvMap, Vec<String>, bool))
    requires
        cur.wf(),
    ensures
        r.0.wf(),
        r.0@ == removal_result(cur@, crate::kvmap::pairs_of(des@)),
        forall|k: Seq<char>| #[trigger]
            crate::model::views_of(r.1@).contains(k) <==> removal_triggered(
                cur@,
                crate::kvmap::pairs_of(des@),
                k,
            ),
        r.2 == removal_dirty(cur@, crate::kvmap::pairs_of(des@)),
        r.2 == (r.1@.len() > 0),
{
    let ghost despairs = crate::kvmap::pairs_of(des@);
    let mut out = cur.clone();
    let mut nulls: Vec<String> = Vec::new();
    let mut dirty = false;
    let n = des.len();
    let mut i: usize = 0;
    while i < n
        invariant
            0 <= i <= n,
            n == des@.len(),
            despairs == crate::kvmap::pairs_of(des@),
            cur.wf(),
            out.wf(),
            out@ == removal_result(cur@, despairs.take(i as int)),
            forall|k: Seq<char>| #[trigger]
                crate::model::contains_str(nulls@, k) <==> removal_triggered(
                    cur@,
                    despairs.take(i as int),
                    k,
                ),
            dirty == removal_dirty(cur@, despairs.take(i as int)),
            dirty == (nulls@.len() > 0),
        decreases n - i,
    {
        let ghost taken = despairs.take(i as int);
        let ghost taken1 = despairs.take(i as int + 1);
        proof {
            assert(forall|j: int| 0 <= j < taken.len() ==> #[trigger] taken[j] == despairs[j]);
            assert(forall|j: int| 0 <= j < taken1.len() ==> #[trigger] taken1[j] == despairs[j]);
        }
        let kv = &des[i];
        let matches = match out.get(&kv.key) {
            Some(v) => *v == kv.value,
            None => false,
        };
        proof {
            assert(matches == (out@.contains_key(kv.key@) && out@[kv.key@] == kv.value@));
            assert(out@.contains_key(kv.key@) ==> out@[kv.key@] == cur@[kv.key@]);
        }
        if matches {
            proof {
                assert(removal_triggered(cur@, taken1, kv.key@)) by {
                    assert(taken1[i as int].0 == kv.key@);
                }
            }
            let ghost nulls0 = nulls@;
            out.remove(&kv.key);
            nulls.push(kv.key.clone());
            dirty = true;
            proof {
                assert(nulls@.len() == nulls0.len() + 1);
                assert(nulls@.last()@ == kv.key@);
                assert(forall|j: int| 0 <= j < nulls0.len() ==> #[trigger] nulls@[j] == nulls0[j]);
                assert forall|k: Seq<char>| #[trigger]
                    crate::model::contains_str(nulls@, k) <==> removal_triggered(
                        cur@,
                        taken1,
                        k,
                    ) by {
                    if crate::model::contains_str(nulls@, k) {
                        let j = choose|j: int| 0 <= j < nulls@.len() && (#[trigger] nulls@[j])@ == k;
                        if j < nulls0.len() {
                            assert(nulls0[j]@ == k);
                            assert(crate::model::contains_str(nulls0, k));
                            assert(removal_triggered(cur@, taken, k));
                            let m = choose|m: int|
                                0 <= m < taken.len() && (#[trigger] taken[m]).0 == k && cur@[k]
                                    == taken[m].1;
                            assert(taken1[m].0 == k && cur@[k] == taken1[m].1);
                            assert(removal_triggered(cur@, taken1, k));
                        } else {
                            assert(k == kv.key@);
                        }
                    }
                    if removal_triggered(cur@, taken1, k) {
                        let m = choose|m: int|
                            0 <= m < taken1.len() && (#[trigger] taken1[m]).0 == k && cur@[k]
                                == taken1[m].1;
                        if m < i {
                            assert(taken[m].0 == k && cur@[k] == taken[m].1);
                            assert(removal_triggered(cur@, taken, k));
                            assert(crate::model::contains_str(nulls0, k));
                            let j = choose|j: int|
                                0 <= j < nulls0.len() && (#[trigger] nulls0[j])@ == k;
                            assert(nulls@[j]@ == k);
                            assert(crate::model::contains_str(nulls@, k));
                        } else {
                            assert(k == kv.key@);
                            assert(nulls@[nulls0.len() as int]@ == k);
                            assert(crate::model::contains_str(nulls@, k));
                        }
                    }
                }
                assert(out@ =~= removal_result(cur@, taken1)) by {
                    assert forall|k: Seq<char>| #[trigger]
                        removed_keys(cur@, taken1).contains(k) == (removed_keys(
                            cur@,
                            taken,
                        ).contains(k) || k == kv.key@) by {
                        if removal_triggered(cur@, taken1, k) && k != kv.key@ {
                            let m = choose|m: int|
                                0 <= m < taken1.len() && (#[trigger] taken1[m]).0 == k && cur@[k]
                                    == taken1[m].1;
                            assert(m < i);
                            assert(taken[m].0 == k && cur@[k] == taken[m].1);
                        }
                        if removal_triggered(cur@, taken, k) {
                            let m = choose|m: int|
                                0 <= m < taken.len() && (#[trigger] taken[m]).0 == k && cur@[k]
                                    == taken[m].1;
                            assert(taken1[m].0 == k && cur@[k] == taken1[m].1);
                        }
                        if k == kv.key@ {
                            assert(removal_triggered(cur@, taken1, k));
                        }
                    }
                }
                assert(removal_dirty(cur@, taken1));
            }
        } else {
            proof {
                assert forall|k: Seq<char>| #[trigger]
                    removal_triggered(cur@, taken1, k) == removal_triggered(cur@, taken, k) by {
                    if removal_triggered(cur@, taken1, k) {
                        let m = choose|m: int|
                            0 <= m < taken1.len() && (#[trigger] taken1[m]).0 == k && cur@[k]
                                == taken1[m].1;
                        if m < i {
                            assert(taken[m].0 == k && cur@[k] == taken[m].1);
                        } else {
                            assert(k == kv.key@ && cur@.contains_key(k) && cur@[k] == kv.value@);
                            assert(!out@.contains_key(k) || out@[k] != kv.value@);
                            assert(removed_keys(cur@, taken).contains(k));
                        }
                    }
                    if removal_triggered(cur@, taken, k) {
                        let m = choose|m: int|
                            0 <= m < taken.len() && (#[trigger] taken[m]).0 == k && cur@[k]
                                == taken[m].1;
                        assert(taken1[m].0 == k && cur@[k] == taken1[m].1);
                    }
                }
                assert(out@ =~= removal_result(cur@, taken1)) by {
                    assert(forall|k: Seq<char>|
                        #[trigger] removed_keys(cur@, taken1).contains(k) == removed_keys(
                            cur@,
                            taken,
                        ).contains(k));
                }
                if removal_dirty(cur@, taken1) {
                    let k = choose|k: Seq<char>| removal_triggered(cur@, taken1, k);
                    assert(removal_triggered(cur@, taken, k));
                }
                if removal_dirty(cur@, taken) {
                    let k = choose|k: Seq<char>| removal_triggered(cur@, taken, k);
                    assert(removal_triggered(cur@, taken1, k));
                }
            }
        }
        i = i + 1;
    }
    proof {
        assert(despairs.take(n as int) =~= despairs);
        assert forall|k: Seq<char>| #[trigger]
            crate::model::views_of(nulls@).contains(k) <==> removal_triggered(
                cur@,
                despairs,
                k,
            ) by {
            crate::model::lemma_views_of_contains(nulls@, k);
        }
    }
    (out, nulls, dirty)
}

/// What the removal path decided for one namespace: the remaining
/// mappings, the keys to null out in the merge patch, and whether a
/// patch is needed at all.
pub struct RemoveOutcome {
    pub labels: KvMap,
    pub annotations: KvMap,
    pub label_nulls: Vec<String>,
    pub annotation_nulls: Vec<String>,
    pub needs_update: bool,
}

/// Removal path of the diff engine. For a namespace on the exclude
/// list, drop exactly those desired keys whose current value is the
/// desired one; any other key, and any desired key holding a foreign
/// value, stays. For a namespace not on the list nothing changes and
/// no patch is issued.
pub fn delete_tags(ts: &TagSpec, ns: &NamespaceView) -> (r: RemoveOutcome)
    requires
        ns.wf(),
    ensures
        r.labels.wf(),
        r.annotations.wf(),
        ts@.excludes(ns@.name) ==> {
            &&& r.labels@ == removal_result(ns@.labels, ts@.labels)
            &&& r.annotations@ == removal_result(ns@.annotations, ts@.annotations)
            &&& (forall|k: Seq<char>| #[trigger]
                crate::model::views_of(r.label_nulls@).contains(k) <==> removal_triggered(
                    ns@.labels,
                    ts@.labels,
                    k,
                ))
            &&& (forall|k: Seq<char>| #[trigger]
                crate::model::views_of(r.annotation_nulls@).contains(k) <==> removal_triggered(
                    ns@.annotations,
                    ts@.annotations,
                    k,
                ))
            &&& r.needs_update == (removal_dirty(ns@.labels, ts@.labels) || removal_dirty(
                ns@.annotations,
                ts@.annotations,
            ))
            &&& r.needs_update == (r.label_nulls@.len() > 0 || r.annotation_nulls@.len() > 0)
        },
        !ts@.excludes(ns@.name) ==> {
            &&& r.labels@ == ns@.labels
            &&& r.annotations@ == ns@.annotations
            &&& !r.needs_update
            &&& r.label_nulls@.len() == 0
            &&& r.annotation_nulls@.len() == 0
        },
{
    if crate::model::contains_name(&ts.excludelist, &ns.name) {
        let (labels, label_nulls, labels_dirty) = remove_pairs(&ns.labels, &ts.labels);
        let (annotations, annotation_nulls, annotations_dirty) = remove_pairs(
            &ns.annotations,
            &ts.annotations,
        );
        RemoveOutcome {
            labels,
            annotations,
            label_nulls,
            annotation_nulls,
            needs_update: labels_dirty || annotations_dirty,
        }
    } else {
        RemoveOutcome {
            labels: ns.labels.clone(),
            annotations: ns.annotations.clone(),
            label_nulls: Vec::new(),
            annotation_nulls: Vec::new(),
            needs_update: false,
        }
    }
}

/// What the ownership tracker decided for one namespace: the updated
/// annotation mapping and whether a patch is needed.
pub struct SentinelOutcome {
    pub annotations: KvMap,
    pub needs_update: bool,
}

/// Add the sentinel annotation where it is missing; a merge patch is
/// issued only on that transition.
pub fn apply_tagged_true_annotation(ns: &NamespaceView) -> (r: SentinelOutcome)
    requires
        ns.wf(),
    ensures
        r.annotations.wf(),
        r.needs_update == !ns@.annotations.contains_key(spec_sentinel_key()),
        r.needs_update ==> r.annotations@ == ns@.annotations.insert(
            spec_sentinel_key(),
            spec_sentinel_value(),
        ),
        !r.needs_update ==> r.annotations@ == ns@.annotations,
{
    if !check_for_tagged_annotation(&ns.annotations) {
        let mut annotations = ns.annotations.clone();
        annotations.insert(sentinel_key(), sentinel_value());
        SentinelOutcome { annotations, needs_update: true }
    } else {
        SentinelOutcome { annotations: ns.annotations.clone(), needs_update: false }
    }
}

/// Remove the sentinel annotation where it is present; a merge patch
/// (nulling the key) is issued only on that transition.
pub fn delete_tagged_true_annotation(ns: &NamespaceView) -> (r: SentinelOutcome)
    requires
        ns.wf(),
    ensures
        r.annotations.wf(),
        r.needs_update == ns@.annotations.contains_key(spec_sentinel_key()),
        r.needs_update ==> r.annotations@ == ns@.annotations.remove(spec_sentinel_key()),
        !r.needs_update ==> r.annotations@ == ns@.annotations,
{
    if check_for_tagged_annotation(&ns.annotations) {
        let mut annotations = ns.annotations.clone();
        let key = sentinel_key();
        annotations.remove(&key);
        SentinelOutcome { annotations, needs_update: true }
    } else {
        SentinelOutcome { annotations: ns.annotations.clone(), needs_update: false }
    }
}

/// The names of the namespaces that carry the sentinel key, in
/// listing order.
pub open spec fn spec_tagged_names(list: Seq<NamespaceView>) -> Seq<Seq<char>>
    decreases list.len(),
{
    if list.len() == 0 {
        Seq::empty()
    } else {
        let prefix = spec_tagged_names(list.drop_last());
        if list.last()@.annotations.contains_key(spec_sentinel_key()) {
            prefix.push(list.last()@.name)
        } else {
            prefix
        }
    }
}

/// Re-scan: the names of the namespaces that currently carry the
/// sentinel key, in listing order. The reported `status.tagged` is
/// rebuilt from this ground truth once per pass.
pub fn get_all_tagged_true_annotations(namespaces: &Vec<NamespaceView>) -> (r: Vec<String>)
    ensures
        crate::model::views_of(r@) == spec_tagged_names(namespaces@),
{
    let n = namespaces.len();
    let mut out: Vec<String> = Vec::new();
    let mut i: usize = 0;
    while i < n
        invariant
            0 <= i <= n,
            n == namespaces@.len(),
            crate::model::views_of(out@) == spec_tagged_names(namespaces@.take(i as int)),
        decreases n - i,
    {
        proof {
            assert(namespaces@.take(i as int + 1).drop_last() =~= namespaces@.take(i as int));
            assert(namespaces@.take(i as int + 1).last() == namespaces@[i as int]);
        }
        let ns = &namespaces[i];
        if check_for_tagged_annotation(&ns.annotations) {
            let ghost out0 = out@;
            out.push(ns.name.clone());
            proof {
                assert(crate::model::views_of(out@) =~= crate::model::views_of(out0).push(
                    ns.name@,
                ));
            }
        }
        i = i + 1;
    }
    proof {
        assert(namespaces@.take(n as int) =~= namespaces@);
    }
    out
}

/// Whether the annotations of a namespace carry the sentinel key.
/// Presence of the key alone counts, whatever value it holds.
pub fn check_for_tagged_annotation(annotations: &KvMap) -> (r: bool)
    ensures
        r == annotations@.contains_key(spec_sentinel_key()),
{
    let key = sentinel_key();
    annotations.contains_key(&key)
}

} // verus!
