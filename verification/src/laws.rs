//! Properties of the diff/apply engine: idempotency of the apply
//! path, symmetry of the removal path, the exclusion invariant, and
//! sentinel consistency of the reported status.

use vstd::prelude::*;

use crate::kvmap::{consistent, has_key};
use crate::model::{NamespaceModel, NamespaceView};
use crate::tags::{
    merge_dirty, merged, removal_result, removal_triggered, removed_keys, spec_sentinel_key,
    spec_tagged_names,
};
use crate::driver::{spec_pass_annotations, spec_pass_labels};

verus! {

/// One half of symmetry: a key no desired pair carries is left
/// exactly as it was by the apply path, so applying tags never
/// overwrites a key that is not in the spec.
pub proof fn lemma_merged_frame(
    cur: Map<Seq<char>, Seq<char>>,
    des: Seq<(Seq<char>, Seq<char>)>,
    k: Seq<char>,
)
    requires
        !has_key(des, k),
    ensures
        merged(cur, des).contains_key(k) == cur.contains_key(k),
        cur.contains_key(k) ==> merged(cur, des)[k] == cur[k],
    decreases des.len(),
{
    if des.len() > 0 {
        assert(!has_key(des.drop_last(), k)) by {
            if has_key(des.drop_last(), k) {
                let i = choose|i: int|
                    0 <= i < des.drop_last().len() && des.drop_last()[i].0 == k;
                assert(des[i].0 == k);
            }
        }
        lemma_merged_frame(cur, des.drop_last(), k);
        assert(des[des.len() - 1].0 != k);
    }
}

/// A key the mapping already holds survives the apply path.
pub proof fn lemma_merged_keeps_keys(
    cur: Map<Seq<char>, Seq<char>>,
    des: Seq<(Seq<char>, Seq<char>)>,
    k: Seq<char>,
)
    requires
        cur.contains_key(k),
    ensures
        merged(cur, des).contains_key(k),
    decreases des.len(),
{
    if des.len() > 0 {
        lemma_merged_keeps_keys(cur, des.drop_last(), k);
    }
}

/// With a conflict-free spec, the apply path leaves every desired
/// key at its desired value.
pub proof fn lemma_merged_desired(
    cur: Map<Seq<char>, Seq<char>>,
    des: Seq<(Seq<char>, Seq<char>)>,
    i: int,
)
    requires
        consistent(des),
        0 <= i < des.len(),
    ensures
        merged(cur, des).contains_key(des[i].0),
        merged(cur, des)[des[i].0] == des[i].1,
    decreases des.len(),
{
    if i == des.len() - 1 {
    } else {
        assert(consistent(des.drop_last())) by {
            assert(forall|x: int|
                0 <= x < des.drop_last().len() ==> #[trigger] des.drop_last()[x] == des[x]);
        }
        assert(des.drop_last()[i] == des[i]);
        lemma_merged_desired(cur, des.drop_last(), i);
        if des.last().0 == des[i].0 {
            assert(des[des.len() - 1].1 == des[i].1);
        }
    }
}

/// A mapping that already holds every desired pair is left untouched
/// by the apply path, and no patch is issued.
pub proof fn lemma_merge_clean(cur: Map<Seq<char>, Seq<char>>, des: Seq<(Seq<char>, Seq<char>)>)
    requires
        forall|i: int|
            0 <= i < des.len() ==> cur.contains_key((#[trigger] des[i]).0) && cur[des[i].0]
                == des[i].1,
    ensures
        !merge_dirty(cur, des),
        merged(cur, des) == cur,
    decreases des.len(),
{
    if des.len() > 0 {
        assert(forall|x: int| 0 <= x < des.drop_last().len() ==> #[trigger] des.drop_last()[x]
            == des[x]);
        lemma_merge_clean(cur, des.drop_last());
        assert(cur.contains_key(des[des.len() - 1].0) && cur[des[des.len() - 1].0] == des[des.len()
            - 1].1);
        assert(merged(cur, des) =~= cur);
    }
}

/// Idempotency of the apply path: once the desired pairs of a
/// conflict-free spec are applied, applying them again finds nothing
/// to change, so the second run issues no patch.
pub proof fn lemma_apply_idempotent(
    cur: Map<Seq<char>, Seq<char>>,
    des: Seq<(Seq<char>, Seq<char>)>,
)
    requires
        consistent(des),
    ensures
        !merge_dirty(merged(cur, des), des),
        merged(merged(cur, des), des) == merged(cur, des),
{
    let m = merged(cur, des);
    assert forall|i: int|
        0 <= i < des.len() implies m.contains_key((#[trigger] des[i]).0) && m[des[i].0]
        == des[i].1 by {
        lemma_merged_desired(cur, des, i);
    }
    lemma_merge_clean(m, des);
}

/// The other half of symmetry: the removal path keeps every key whose
/// current value the spec did not itself assign, and any key it does
/// drop was held at a spec-assigned value.
pub proof fn lemma_removal_symmetric(
    cur: Map<Seq<char>, Seq<char>>,
    des: Seq<(Seq<char>, Seq<char>)>,
    k: Seq<char>,
)
    requires
        cur.contains_key(k),
    ensures
        (forall|i: int| 0 <= i < des.len() && (#[trigger] des[i]).0 == k ==> cur[k] != des[i].1)
            ==> removal_result(cur, des).contains_key(k) && removal_result(cur, des)[k] == cur[k],
        !removal_result(cur, des).contains_key(k) ==> exists|i: int|
            0 <= i < des.len() && (#[trigger] des[i]).0 == k && cur[k] == des[i].1,
{
    if forall|i: int| 0 <= i < des.len() && (#[trigger] des[i]).0 == k ==> cur[k] != des[i].1 {
        assert(!removal_triggered(cur, des, k));
        assert(!removed_keys(cur, des).contains(k));
    }
    if !removal_result(cur, des).contains_key(k) {
        assert(removed_keys(cur, des).contains(k));
    }
}

/// Exclusion invariant at the engine level: after the removal path
/// ran, no desired key is left holding its desired value.
pub proof fn lemma_exclusion(cur: Map<Seq<char>, Seq<char>>, des: Seq<(Seq<char>, Seq<char>)>)
    ensures
        forall|i: int|
            0 <= i < des.len() ==> !(removal_result(cur, des).contains_key(
                (#[trigger] des[i]).0,
            ) && removal_result(cur, des)[des[i].0] == des[i].1),
{
    assert forall|i: int|
        0 <= i < des.len() implies !(removal_result(cur, des).contains_key(
        (#[trigger] des[i]).0,
    ) && removal_result(cur, des)[des[i].0] == des[i].1) by {
        let k = des[i].0;
        if removal_result(cur, des).contains_key(k) {
            assert(!removed_keys(cur, des).contains(k));
            assert(cur.contains_key(k));
            assert(removal_result(cur, des)[k] == cur[k]);
            if cur[k] == des[i].1 {
                assert(removal_triggered(cur, des, k));
            }
        }
    }
}

/// Exclusion invariant for a full pass: on a namespace of the
/// exclude list, no key of the spec's labels or annotations is left
/// holding the spec's value.
pub proof fn lemma_pass_exclusion(ts: crate::model::TagSpecModel, ns: NamespaceModel)
    requires
        ts.excludes(ns.name),
    ensures
        forall|i: int|
            0 <= i < ts.labels.len() ==> !(spec_pass_labels(ts, ns).contains_key(
                (#[trigger] ts.labels[i]).0,
            ) && spec_pass_labels(ts, ns)[ts.labels[i].0] == ts.labels[i].1),
        forall|i: int|
            0 <= i < ts.annotations.len() ==> !(spec_pass_annotations(ts, ns).contains_key(
                (#[trigger] ts.annotations[i]).0,
            ) && spec_pass_annotations(ts, ns)[ts.annotations[i].0] == ts.annotations[i].1),
{
    lemma_exclusion(ns.labels, ts.labels);
    lemma_exclusion(ns.annotations, ts.annotations);
    assert forall|i: int|
        0 <= i < ts.annotations.len() implies !(spec_pass_annotations(ts, ns).contains_key(
        (#[trigger] ts.annotations[i]).0,
    ) && spec_pass_annotations(ts, ns)[ts.annotations[i].0] == ts.annotations[i].1) by {
        let k = ts.annotations[i].0;
        let base = removal_result(ns.annotations, ts.annotations);
        if spec_pass_annotations(ts, ns).contains_key(k) {
            assert(spec_pass_annotations(ts, ns) == base.remove(spec_sentinel_key()));
            assert(base.contains_key(k));
            assert(spec_pass_annotations(ts, ns)[k] == base[k]);
        }
    }
}

/// After a pass handled a namespace, it carries the sentinel exactly
/// when it is not excluded.
pub proof fn lemma_pass_sentinel(ts: crate::model::TagSpecModel, ns: NamespaceModel)
    ensures
        spec_pass_annotations(ts, ns).contains_key(spec_sentinel_key()) <==> !ts.excludes(ns.name),
{
    if !ts.excludes(ns.name) {
        if ns.annotations.contains_key(spec_sentinel_key()) {
            lemma_merged_keeps_keys(ns.annotations, ts.annotations, spec_sentinel_key());
        }
    }
}

/// Sentinel consistency: a name is reported by the re-scan exactly
/// when some listed namespace with that name carries the sentinel
/// key. Together with the contract of `run_pass`, whose reported
/// `tagged` list is this re-scan of the patched namespaces, the
/// status reflects exactly the sentineled namespaces after a full
/// successful pass.
pub proof fn lemma_sentinel_consistency(list: Seq<NamespaceView>)
    ensures
        forall|name: Seq<char>| #[trigger]
            spec_tagged_names(list).contains(name) <==> exists|j: int|
                0 <= j < list.len() && (#[trigger] list[j])@.name == name
                    && list[j]@.annotations.contains_key(spec_sentinel_key()),
    decreases list.len(),
{
    if list.len() > 0 {
        let prefix = list.drop_last();
        lemma_sentinel_consistency(prefix);
        assert(forall|j: int| 0 <= j < prefix.len() ==> #[trigger] prefix[j] == list[j]);
        assert forall|name: Seq<char>| #[trigger]
            spec_tagged_names(list).contains(name) <==> exists|j: int|
                0 <= j < list.len() && (#[trigger] list[j])@.name == name
                    && list[j]@.annotations.contains_key(spec_sentinel_key()) by {
            let tagged = spec_tagged_names(list);
            let tagged_prefix = spec_tagged_names(prefix);
            if tagged.contains(name) {
                let x = choose|x: int| 0 <= x < tagged.len() && tagged[x] == name;
                if list.last()@.annotations.contains_key(spec_sentinel_key()) {
                    assert(tagged == tagged_prefix.push(list.last()@.name));
                    if x < tagged_prefix.len() {
                        assert(tagged_prefix[x] == name);
                        assert(tagged_prefix.contains(name));
                        let j = choose|j: int|
                            0 <= j < prefix.len() && (#[trigger] prefix[j])@.name == name
                                && prefix[j]@.annotations.contains_key(spec_sentinel_key());
                        assert(list[j]@.name == name);
                    } else {
                        assert(list[list.len() - 1]@.name == name);
                    }
                } else {
                    assert(tagged == tagged_prefix);
                    assert(tagged_prefix.contains(name));
                    let j = choose|j: int|
                        0 <= j < prefix.len() && (#[trigger] prefix[j])@.name == name
                            && prefix[j]@.annotations.contains_key(spec_sentinel_key());
                    assert(list[j]@.name == name);
                }
            }
            if exists|j: int|
                0 <= j < list.len() && (#[trigger] list[j])@.name == name
                    && list[j]@.annotations.contains_key(spec_sentinel_key()) {
                let j = choose|j: int|
                    0 <= j < list.len() && (#[trigger] list[j])@.name == name
                        && list[j]@.annotations.contains_key(spec_sentinel_key());
                if j < list.len() - 1 {
                    assert(prefix[j]@.name == name && prefix[j]@.annotations.contains_key(
                        spec_sentinel_key(),
                    ));
                    assert(tagged_prefix.contains(name));
                    let x = choose|x: int|
                        0 <= x < tagged_prefix.len() && tagged_prefix[x] == name;
                    if list.last()@.annotations.contains_key(spec_sentinel_key()) {
                        assert(tagged[x] == name);
                    } else {
                        assert(tagged[x] == name);
                    }
                } else {
                    assert(list.last()@.annotations.contains_key(spec_sentinel_key()));
                    assert(tagged == tagged_prefix.push(list.last()@.name));
                    assert(tagged[tagged.len() - 1] == name);
                }
                assert(tagged.contains(name));
            }
        }
    }
}

} // verus!
