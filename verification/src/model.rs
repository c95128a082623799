//! Typed representation of the custom resource (desired state and
//! reported status) and of the target namespace object.

use vstd::prelude::*;

use crate::kvmap::{pairs_of, KeyValue, KvMap};

verus! {

/// The character-sequence views of a sequence of strings.
pub open spec fn views_of(list: Seq<String>) -> Seq<Seq<char>> {
    list.map_values(|s: String| s@)
}

/// Some string in the list reads as the name.
pub open spec fn contains_str(list: Seq<String>, name: Seq<char>) -> bool {
    exists|j: int| 0 <= j < list.len() && (#[trigger] list[j])@ == name
}

/// A name occurs among the views exactly when some string carries it.
pub proof fn lemma_views_of_contains(list: Seq<String>, name: Seq<char>)
    ensures
        views_of(list).contains(name) <==> contains_str(list, name),
{
    if views_of(list).contains(name) {
        let i = choose|i: int| 0 <= i < views_of(list).len() && views_of(list)[i] == name;
        assert(list[i]@ == name);
    }
    if contains_str(list, name) {
        let j = choose|j: int| 0 <= j < list.len() && (#[trigger] list[j])@ == name;
        assert(views_of(list)[j] == name);
    }
}

/// Desired state carried by the custom resource: label and annotation
/// pairs to apply, and namespace names exempted from tagging.
pub struct TagSpec {
    pub labels: Vec<KeyValue>,
    pub annotations: Vec<KeyValue>,
    pub excludelist: Vec<String>,
}

/// Mathematical reading of a `TagSpec`: the label and annotation pairs
/// in declaration order, and the exempted names.
pub struct TagSpecModel {
    pub labels: Seq<(Seq<char>, Seq<char>)>,
    pub annotations: Seq<(Seq<char>, Seq<char>)>,
    pub excludelist: Seq<Seq<char>>,
}

impl View for TagSpec {
    type V = TagSpecModel;

    open spec fn view(&self) -> TagSpecModel {
        TagSpecModel {
            labels: pairs_of(self.labels@),
            annotations: pairs_of(self.annotations@),
            excludelist: views_of(self.excludelist@),
        }
    }
}

impl TagSpecModel {
    /// The namespace name is exempted from tagging.
    pub open spec fn excludes(self, name: Seq<char>) -> bool {
        self.excludelist.contains(name)
    }
}

/// Reported outcome of the last reconciliation pass.
pub struct TagStatus {
    pub succeeded: bool,
    pub tagged: Vec<String>,
}

/// Mathematical reading of a `TagStatus`.
pub struct TagStatusModel {
    pub succeeded: bool,
    pub tagged: Seq<Seq<char>>,
}

impl View for TagStatus {
    type V = TagStatusModel;

    open spec fn view(&self) -> TagStatusModel {
        TagStatusModel { succeeded: self.succeeded, tagged: views_of(self.tagged@) }
    }
}

impl TagStatus {
    /// The status a fresh resource reports before any pass ran.
    pub fn default_status() -> (r: TagStatus)
        ensures
            !r@.succeeded,
            r@.tagged.len() == 0,
    {
        TagStatus { succeeded: false, tagged: Vec::new() }
    }
}

/// The reported status, or the pre-pass default where none was
/// written yet.
pub fn status_or_default(s: Option<TagStatus>) -> (r: TagStatus)
    ensures
        match s {
            Some(st) => r@ == st@,
            None => !r@.succeeded && r@.tagged.len() == 0,
        },
{
    match s {
        Some(st) => st,
        None => TagStatus::default_status(),
    }
}

/// One cluster namespace as the controller sees it: its identity and
/// its current label and annotation mappings.
pub struct NamespaceView {
    pub name: String,
    pub labels: KvMap,
    pub annotations: KvMap,
}

/// Mathematical reading of a `NamespaceView`.
pub struct NamespaceModel {
    pub name: Seq<char>,
    pub labels: Map<Seq<char>, Seq<char>>,
    pub annotations: Map<Seq<char>, Seq<char>>,
}

impl View for NamespaceView {
    type V = NamespaceModel;

    open spec fn view(&self) -> NamespaceModel {
        NamespaceModel { name: self.name@, labels: self.labels@, annotations: self.annotations@ }
    }
}

impl NamespaceView {
    /// The label and annotation mappings hold each key at most once.
    pub open spec fn wf(&self) -> bool {
        self.labels.wf() && self.annotations.wf()
    }
}

/// Whether the name occurs in the list.
pub fn contains_name(list: &Vec<String>, name: &String) -> (r: bool)
    ensures
        r == views_of(list@).contains(name@),
{
    let n = list.len();
    let mut i: usize = 0;
    while i < n
        invariant
            0 <= i <= n,
            n == list@.len(),
            forall|j: int| 0 <= j < i ==> (#[trigger] list@[j])@ != name@,
        decreases n - i,
    {
        if list[i] == *name {
            proof {
                lemma_views_of_contains(list@, name@);
            }
            return true;
        }
        i = i + 1;
    }
    proof {
        lemma_views_of_contains(list@, name@);
    }
    false
}

} // verus!
