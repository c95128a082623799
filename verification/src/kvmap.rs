//! String-keyed mapping, held as a vector of entries with pairwise
//! distinct keys and viewed as a `Map<Seq<char>, Seq<char>>`.

use vstd::prelude::*;

verus! {

/// One `key: value` entry of a label or annotation mapping.
pub struct KeyValue {
    pub key: String,
    pub value: String,
}

impl View for KeyValue {
    type V = (Seq<char>, Seq<char>);

    open spec fn view(&self) -> (Seq<char>, Seq<char>) {
        (self.key@, self.value@)
    }
}

impl Clone for KeyValue {
    fn clone(&self) -> (r: Self)
        ensures
            r == *self,
    {
        KeyValue { key: self.key.clone(), value: self.value.clone() }
    }
}

/// The key/value views of a sequence of entries.
pub open spec fn pairs_of(s: Seq<KeyValue>) -> Seq<(Seq<char>, Seq<char>)> {
    s.map_values(|kv: KeyValue| kv@)
}

/// The mapping that a sequence of pairs denotes, a later pair for the
/// same key overriding an earlier one.
pub open spec fn map_of(pairs: Seq<(Seq<char>, Seq<char>)>) -> Map<Seq<char>, Seq<char>>
    decreases pairs.len(),
{
    if pairs.len() == 0 {
        Map::empty()
    } else {
        map_of(pairs.drop_last()).insert(pairs.last().0, pairs.last().1)
    }
}

/// Some pair carries the key `k`.
pub open spec fn has_key(pairs: Seq<(Seq<char>, Seq<char>)>, k: Seq<char>) -> bool {
    exists|i: int| 0 <= i < pairs.len() && pairs[i].0 == k
}

/// No two pairs carry the same key.
pub open spec fn keys_unique(pairs: Seq<(Seq<char>, Seq<char>)>) -> bool {
    forall|i: int, j: int| 0 <= i < j < pairs.len() ==> pairs[i].0 != pairs[j].0
}

/// Any two pairs with the same key agree on the value.
pub open spec fn consistent(pairs: Seq<(Seq<char>, Seq<char>)>) -> bool {
    forall|i: int, j: int|
        0 <= i < pairs.len() && 0 <= j < pairs.len() && pairs[i].0 == pairs[j].0
            ==> pairs[i].1 == pairs[j].1
}

/// A key is in the denoted mapping exactly when some pair carries it.
pub proof fn lemma_map_of_dom(pairs: Seq<(Seq<char>, Seq<char>)>)
    ensures
        forall|k: Seq<char>| #[trigger] map_of(pairs).contains_key(k) <==> has_key(pairs, k),
    decreases pairs.len(),
{
    if pairs.len() > 0 {
        let prefix = pairs.drop_last();
        lemma_map_of_dom(prefix);
        assert(map_of(pairs) == map_of(prefix).insert(pairs.last().0, pairs.last().1));
        assert forall|k: Seq<char>| #[trigger] map_of(pairs).contains_key(k) <==> has_key(
            pairs,
            k,
        ) by {
            if k == pairs.last().0 {
                assert(map_of(pairs).contains_key(k));
                assert(pairs[pairs.len() - 1].0 == k);
                assert(has_key(pairs, k));
            } else {
                if map_of(pairs).contains_key(k) {
                    assert(map_of(prefix).contains_key(k));
                    assert(has_key(prefix, k));
                    let i = choose|i: int| 0 <= i < prefix.len() && prefix[i].0 == k;
                    assert(pairs[i].0 == k);
                    assert(has_key(pairs, k));
                }
                if has_key(pairs, k) {
                    let i = choose|i: int| 0 <= i < pairs.len() && pairs[i].0 == k;
                    assert(i < pairs.len() - 1);
                    assert(prefix[i].0 == k);
                    assert(has_key(prefix, k));
                    assert(map_of(prefix).contains_key(k));
                    assert(map_of(pairs).contains_key(k));
                }
            }
        }
    }
}

/// With pairwise distinct keys, the denoted mapping has exactly one
/// key per pair.
pub proof fn lemma_map_of_dom_len(pairs: Seq<(Seq<char>, Seq<char>)>)
    requires
        keys_unique(pairs),
    ensures
        map_of(pairs).dom().finite(),
        map_of(pairs).dom().len() == pairs.len(),
    decreases pairs.len(),
{
    if pairs.len() == 0 {
        assert(map_of(pairs).dom() =~= Set::<Seq<char>>::empty());
    } else {
        assert(keys_unique(pairs.drop_last()));
        lemma_map_of_dom_len(pairs.drop_last());
        lemma_map_of_dom(pairs.drop_last());
        assert(!has_key(pairs.drop_last(), pairs.last().0)) by {
            if has_key(pairs.drop_last(), pairs.last().0) {
                let i = choose|i: int|
                    0 <= i < pairs.drop_last().len() && pairs.drop_last()[i].0 == pairs.last().0;
                assert(pairs[i].0 == pairs[pairs.len() - 1].0);
            }
        }
        assert(map_of(pairs).dom() =~= map_of(pairs.drop_last()).dom().insert(pairs.last().0));
    }
}

/// With pairwise distinct keys, each pair's value is the one the
/// denoted mapping holds for its key.
pub proof fn lemma_map_of_unique(pairs: Seq<(Seq<char>, Seq<char>)>, i: int)
    requires
        keys_unique(pairs),
        0 <= i < pairs.len(),
    ensures
        map_of(pairs).contains_key(pairs[i].0),
        map_of(pairs)[pairs[i].0] == pairs[i].1,
    decreases pairs.len(),
{
    if i == pairs.len() - 1 {
    } else {
        assert(keys_unique(pairs.drop_last()));
        assert(pairs.drop_last()[i] == pairs[i]);
        lemma_map_of_unique(pairs.drop_last(), i);
        assert(pairs[i].0 != pairs.last().0);
    }
}

/// Overwriting the value at one pair updates the denoted mapping at
/// that pair's key.
pub proof fn lemma_map_of_update(pairs: Seq<(Seq<char>, Seq<char>)>, i: int, v: Seq<char>)
    requires
        keys_unique(pairs),
        0 <= i < pairs.len(),
    ensures
        keys_unique(pairs.update(i, (pairs[i].0, v))),
        map_of(pairs.update(i, (pairs[i].0, v))) == map_of(pairs).insert(pairs[i].0, v),
{
    let p2 = pairs.update(i, (pairs[i].0, v));
    assert(keys_unique(p2)) by {
        assert(forall|x: int| 0 <= x < p2.len() ==> (#[trigger] p2[x]).0 == pairs[x].0);
    }
    lemma_map_of_dom(pairs);
    lemma_map_of_dom(p2);
    assert(map_of(p2) =~= map_of(pairs).insert(pairs[i].0, v)) by {
        assert forall|k: Seq<char>| #[trigger]
            map_of(p2).contains_key(k) == map_of(pairs).insert(pairs[i].0, v).contains_key(k) by {
            if has_key(p2, k) {
                let j = choose|j: int| 0 <= j < p2.len() && p2[j].0 == k;
                assert(pairs[j].0 == k);
            }
            if has_key(pairs, k) {
                let j = choose|j: int| 0 <= j < pairs.len() && pairs[j].0 == k;
                assert(p2[j].0 == k);
            }
        }
        assert forall|k: Seq<char>| map_of(p2).contains_key(k) implies map_of(p2)[k] == map_of(
            pairs,
        ).insert(pairs[i].0, v)[k] by {
            let j = choose|j: int| 0 <= j < p2.len() && p2[j].0 == k;
            lemma_map_of_unique(p2, j);
            if j == i {
                assert(map_of(p2)[k] == v);
            } else {
                assert(p2[j] == pairs[j]);
                lemma_map_of_unique(pairs, j);
                assert(k != pairs[i].0);
            }
        }
    }
}

/// Removing one pair removes exactly that pair's key from the denoted
/// mapping.
pub proof fn lemma_map_of_remove(pairs: Seq<(Seq<char>, Seq<char>)>, i: int)
    requires
        keys_unique(pairs),
        0 <= i < pairs.len(),
    ensures
        keys_unique(pairs.remove(i)),
        map_of(pairs.remove(i)) == map_of(pairs).remove(pairs[i].0),
{
    let p2 = pairs.remove(i);
    assert(forall|x: int| 0 <= x < i ==> #[trigger] p2[x] == pairs[x]);
    assert(forall|x: int| i <= x < p2.len() ==> #[trigger] p2[x] == pairs[x + 1]);
    assert(keys_unique(p2));
    lemma_map_of_dom(pairs);
    lemma_map_of_dom(p2);
    assert(map_of(p2) =~= map_of(pairs).remove(pairs[i].0)) by {
        assert forall|k: Seq<char>| #[trigger]
            map_of(p2).contains_key(k) == map_of(pairs).remove(pairs[i].0).contains_key(k) by {
            if has_key(p2, k) {
                let j = choose|j: int| 0 <= j < p2.len() && p2[j].0 == k;
                if j < i {
                    assert(pairs[j].0 == k);
                } else {
                    assert(pairs[j + 1].0 == k);
                }
                assert(k != pairs[i].0);
            }
            if has_key(pairs, k) && k != pairs[i].0 {
                let j = choose|j: int| 0 <= j < pairs.len() && pairs[j].0 == k;
                if j < i {
                    assert(p2[j].0 == k);
                } else {
                    assert(j > i);
                    assert(p2[j - 1].0 == k);
                }
            }
        }
        assert forall|k: Seq<char>| map_of(p2).contains_key(k) implies map_of(p2)[k] == map_of(
            pairs,
        ).remove(pairs[i].0)[k] by {
            let j = choose|j: int| 0 <= j < p2.len() && p2[j].0 == k;
            lemma_map_of_unique(p2, j);
            if j < i {
                lemma_map_of_unique(pairs, j);
            } else {
                lemma_map_of_unique(pairs, j + 1);
            }
            assert(k != pairs[i].0);
        }
    }
}

/// Appending a pair for a fresh key extends the denoted mapping.
pub proof fn lemma_map_of_push(pairs: Seq<(Seq<char>, Seq<char>)>, k: Seq<char>, v: Seq<char>)
    requires
        keys_unique(pairs),
        !has_key(pairs, k),
    ensures
        keys_unique(pairs.push((k, v))),
        map_of(pairs.push((k, v))) == map_of(pairs).insert(k, v),
{
    let p2 = pairs.push((k, v));
    assert(forall|x: int| 0 <= x < pairs.len() ==> #[trigger] p2[x] == pairs[x]);
    assert(keys_unique(p2)) by {
        assert forall|x: int, y: int| 0 <= x < y < p2.len() implies p2[x].0 != p2[y].0 by {
            if y == p2.len() - 1 {
                assert(pairs[x].0 != k);
            }
        }
    }
    assert(p2.drop_last() =~= pairs);
    assert(p2.last() == (k, v));
}

/// String-keyed mapping with at most one entry per key.
pub struct KvMap {
    entries: Vec<KeyValue>,
}

impl View for KvMap {
    type V = Map<Seq<char>, Seq<char>>;

    closed spec fn view(&self) -> Map<Seq<char>, Seq<char>> {
        map_of(pairs_of(self.entries@))
    }
}

impl KvMap {
    /// The entries as stored, oldest first.
    pub closed spec fn entries_seq(&self) -> Seq<KeyValue> {
        self.entries@
    }

    /// Every key occurs in at most one entry.
    pub open spec fn wf(&self) -> bool {
        keys_unique(pairs_of(self.entries_seq()))
    }

    /// The stored entries denote exactly the map view: same keys, and
    /// each entry's value is the view's value for its key.
    pub proof fn lemma_entries_view(&self)
        requires
            self.wf(),
        ensures
            forall|k: Seq<char>| #[trigger] self@.contains_key(k) <==> has_key(
                pairs_of(self.entries_seq()),
                k,
            ),
            forall|i: int|
                0 <= i < self.entries_seq().len() ==> self@.contains_key(
                    #[trigger] self.entries_seq()[i].key@,
                ) && self@[self.entries_seq()[i].key@] == self.entries_seq()[i].value@,
    {
        lemma_map_of_dom(pairs_of(self.entries@));
        assert forall|i: int| 0 <= i < self.entries_seq().len() implies self@.contains_key(
            #[trigger] self.entries_seq()[i].key@,
        ) && self@[self.entries_seq()[i].key@] == self.entries_seq()[i].value@ by {
            lemma_map_of_unique(pairs_of(self.entries@), i);
        }
    }

    /// The empty mapping.
    pub fn new() -> (r: KvMap)
        ensures
            r@ == Map::<Seq<char>, Seq<char>>::empty(),
            r.wf(),
            r.entries_seq().len() == 0,
    {
        let r = KvMap { entries: Vec::new() };
        proof {
            assert(pairs_of(r.entries@).len() == 0);
        }
        r
    }

    /// How many entries the mapping holds.
    pub fn len(&self) -> (r: usize)
        requires
            self.wf(),
        ensures
            r == self.entries_seq().len(),
            r == self@.dom().len(),
    {
        proof {
            self.lemma_dom_len();
        }
        self.entries.len()
    }

    /// With distinct keys the view has exactly one key per entry.
    proof fn lemma_dom_len(&self)
        requires
            self.wf(),
        ensures
            self@.dom().len() == self.entries_seq().len(),
    {
        lemma_map_of_dom_len(pairs_of(self.entries@));
    }

    /// Read access to the stored entries.
    pub fn entries(&self) -> (r: &Vec<KeyValue>)
        ensures
            r@ == self.entries_seq(),
    {
        &self.entries
    }

    /// The value stored under the key, if any.
    pub fn get<'a>(&'a self, key: &String) -> (r: Option<&'a String>)
        requires
            self.wf(),
        ensures
            r is Some <==> self@.contains_key(key@),
            r is Some ==> r->0@ == self@[key@],
    {
        let n = self.entries.len();
        let mut i: usize = 0;
        while i < n
            invariant
                0 <= i <= n,
                n == self.entries@.len(),
                self.wf(),
                forall|j: int| 0 <= j < i ==> pairs_of(self.entries@)[j].0 != key@,
            decreases n - i,
        {
            if self.entries[i].key == *key {
                proof {
                    self.lemma_entries_view();
                }
                return Some(&self.entries[i].value);
            }
            assert(pairs_of(self.entries@)[i as int].0 != key@);
            i = i + 1;
        }
        proof {
            lemma_map_of_dom(pairs_of(self.entries@));
        }
        None
    }

    /// Store the value under the key, overwriting any previous value.
    pub fn insert(&mut self, key: String, value: String)
        requires
            old(self).wf(),
        ensures
            final(self).wf(),
            final(self)@ == old(self)@.insert(key@, value@),
    {
        let n = self.entries.len();
        let mut i: usize = 0;
        while i < n
            invariant
                0 <= i <= n,
                n == self.entries@.len(),
                *self == *old(self),
                self.wf(),
                forall|j: int| 0 <= j < i ==> pairs_of(self.entries@)[j].0 != key@,
            decreases n - i,
        {
            if self.entries[i].key == key {
                proof {
                    lemma_map_of_update(pairs_of(self.entries@), i as int, value@);
                }
                let ghost before = self.entries@;
                self.entries[i] = KeyValue { key, value };
                proof {
                    assert(pairs_of(self.entries@) =~= pairs_of(before).update(
                        i as int,
                        (pairs_of(before)[i as int].0, self.entries@[i as int].value@),
                    ));
                }
                return ;
            }
            assert(pairs_of(self.entries@)[i as int].0 != key@);
            i = i + 1;
        }
        proof {
            assert(!has_key(pairs_of(self.entries@), key@));
            lemma_map_of_push(pairs_of(self.entries@), key@, value@);
        }
        let ghost before = self.entries@;
        self.entries.push(KeyValue { key, value });
        proof {
            assert(pairs_of(self.entries@) =~= pairs_of(before).push(
                (
                    self.entries@.last().key@,
                    self.entries@.last().value@,
                ),
            ));
        }
    }

    /// Drop the entry under the key, if there is one.
    pub fn remove(&mut self, key: &String)
        requires
            old(self).wf(),
        ensures
            final(self).wf(),
            final(self)@ == old(self)@.remove(key@),
    {
        let n = self.entries.len();
        let mut i: usize = 0;
        while i < n
            invariant
                0 <= i <= n,
                n == self.entries@.len(),
                *self == *old(self),
                self.wf(),
                forall|j: int| 0 <= j < i ==> pairs_of(self.entries@)[j].0 != key@,
            decreases n - i,
        {
            if self.entries[i].key == *key {
                proof {
                    lemma_map_of_remove(pairs_of(self.entries@), i as int);
                }
                let ghost before = self.entries@;
                self.entries.remove(i);
                proof {
                    assert(pairs_of(self.entries@) =~= pairs_of(before).remove(i as int));
                }
                return ;
            }
            assert(pairs_of(self.entries@)[i as int].0 != key@);
            i = i + 1;
        }
        proof {
            lemma_map_of_dom(pairs_of(self.entries@));
            assert(self@.remove(key@) =~= self@);
        }
    }

    /// Whether the mapping holds the key.
    pub fn contains_key(&self, key: &String) -> (r: bool)
        ensures
            r == self@.contains_key(key@),
    {
        proof {
            lemma_map_of_dom(pairs_of(self.entries@));
        }
        let n = self.entries.len();
        let mut i: usize = 0;
        while i < n
            invariant
                0 <= i <= n,
                n == self.entries@.len(),
                forall|j: int| 0 <= j < i ==> pairs_of(self.entries@)[j].0 != key@,
            decreases n - i,
        {
            if self.entries[i].key == *key {
                proof {
                    lemma_map_of_dom(pairs_of(self.entries@));
                    assert(pairs_of(self.entries@)[i as int].0 == key@);
                }
                return true;
            }
            assert(pairs_of(self.entries@)[i as int].0 != key@);
            i = i + 1;
        }
        false
    }
}

impl Clone for KvMap {
    /// A copy with the same entries.
    fn clone(&self) -> (r: Self)
        ensures
            r.entries_seq() == self.entries_seq(),
            r@ == self@,
            r.wf() == self.wf(),
    {
        let n = self.entries.len();
        let mut entries: Vec<KeyValue> = Vec::new();
        let mut i: usize = 0;
        while i < n
            invariant
                0 <= i <= n,
                n == self.entries@.len(),
                entries@ =~= self.entries@.take(i as int),
            decreases n - i,
        {
            entries.push(self.entries[i].clone());
            proof {
                assert(entries@ =~= self.entries@.take(i as int + 1));
            }
            i = i + 1;
        }
        proof {
            assert(entries@ =~= self.entries@);
        }
        KvMap { entries }
    }
}

} // verus!
