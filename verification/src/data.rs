//! Measurement records and their key-value metadata.
//!
//! A measurement's timestamp and value are kept as the decimal text that is
//! stored in the notes; turning them into numbers is left to the caller.
use vstd::prelude::*;

verus! {

/// A string pair as mathematical sequences.
pub type KeyValue = (Seq<char>, Seq<char>);

/// The pairs of `kvs` as mathematical sequences.
pub open spec fn kv_view(kvs: Seq<(String, String)>) -> Seq<KeyValue> {
    kvs.map_values(|p: (String, String)| (p.0@, p.1@))
}

/// Whether no key occurs twice in `kvs`.
pub open spec fn kv_unique(kvs: Seq<KeyValue>) -> bool {
    forall|i: int, j: int| 0 <= i < kvs.len() && 0 <= j < kvs.len() && i != j ==> kvs[i].0 != kvs[j].0
}

/// Whether `k` is a key of `kvs`.
pub open spec fn kv_has(kvs: Seq<KeyValue>, k: Seq<char>) -> bool {
    exists|i: int| 0 <= i < kvs.len() && kvs[i].0 == k
}

/// The value stored under `k`, if any (the first such pair).
pub open spec fn kv_get(kvs: Seq<KeyValue>, k: Seq<char>) -> Option<Seq<char>>
    decreases kvs.len(),
{
    if kvs.len() == 0 {
        None
    } else if kvs[0].0 == k {
        Some(kvs[0].1)
    } else {
        kv_get(kvs.drop_first(), k)
    }
}

/// `kvs` with `k` set to `v`: the value of an existing key is replaced in
/// place, a new key is appended, as inserting into a map does.
pub open spec fn kv_insert(kvs: Seq<KeyValue>, k: Seq<char>, v: Seq<char>) -> Seq<KeyValue> {
    if kv_has(kvs, k) {
        let i = choose|i: int| 0 <= i < kvs.len() && kvs[i].0 == k;
        kvs.update(i, (k, v))
    } else {
        kvs.push((k, v))
    }
}

/// Whether every pair of `criteria` is stored in `kvs`.
pub open spec fn kv_superset(kvs: Seq<KeyValue>, criteria: Seq<KeyValue>) -> bool {
    forall|i: int| 0 <= i < criteria.len() ==> kv_get(kvs, #[trigger] criteria[i].0) == Some(criteria[i].1)
}

pub proof fn lemma_kv_get_index(kvs: Seq<KeyValue>, k: Seq<char>, i: int)
    requires
        kv_unique(kvs),
        0 <= i < kvs.len(),
        kvs[i].0 == k,
    ensures
        kv_get(kvs, k) == Some(kvs[i].1),
    decreases kvs.len(),
{
    if i > 0 {
        let t = kvs.drop_first();
        assert(kvs[0].0 != k);
        assert forall|a: int, b: int| 0 <= a < t.len() && 0 <= b < t.len() && a != b implies t[a].0 != t[b].0 by {
            assert(t[a] == kvs[a + 1]);
            assert(t[b] == kvs[b + 1]);
        }
        assert(t[i - 1] == kvs[i]);
        lemma_kv_get_index(t, k, i - 1);
    }
}

pub proof fn lemma_kv_get_none(kvs: Seq<KeyValue>, k: Seq<char>)
    requires
        !kv_has(kvs, k),
    ensures
        kv_get(kvs, k) is None,
    decreases kvs.len(),
{
    if kvs.len() > 0 {
        assert(kvs[0].0 != k);
        let t = kvs.drop_first();
        assert(!kv_has(t, k)) by {
            if kv_has(t, k) {
                let j = choose|j: int| 0 <= j < t.len() && t[j].0 == k;
                assert(kvs[j + 1] == t[j]);
            }
        }
        lemma_kv_get_none(t, k);
    }
}

/// Inserting keeps the keys unique.
pub proof fn lemma_kv_insert_unique(kvs: Seq<KeyValue>, k: Seq<char>, v: Seq<char>)
    requires
        kv_unique(kvs),
    ensures
        kv_unique(kv_insert(kvs, k, v)),
{
}

/// Setting a key and then reading it gives the value set; reading another
/// key gives what it gave before, as with a map.
pub proof fn lemma_kv_insert_get(kvs: Seq<KeyValue>, k: Seq<char>, v: Seq<char>, other: Seq<char>)
    requires
        kv_unique(kvs),
    ensures
        kv_get(kv_insert(kvs, k, v), k) == Some(v),
        other != k ==> kv_get(kv_insert(kvs, k, v), other) == kv_get(kvs, other),
{
    let r = kv_insert(kvs, k, v);
    lemma_kv_insert_unique(kvs, k, v);
    if kv_has(kvs, k) {
        let i = choose|i: int| 0 <= i < kvs.len() && kvs[i].0 == k;
        assert(r == kvs.update(i, (k, v)));
        lemma_kv_get_index(r, k, i);
        if other != k {
            if kv_has(kvs, other) {
                let j = choose|j: int| 0 <= j < kvs.len() && kvs[j].0 == other;
                lemma_kv_get_index(kvs, other, j);
                lemma_kv_get_index(r, other, j);
            } else {
                lemma_kv_get_none(kvs, other);
                assert(!kv_has(r, other)) by {
                    if kv_has(r, other) {
                        let j = choose|j: int| 0 <= j < r.len() && r[j].0 == other;
                        assert(kvs[j].0 == other);
                    }
                }
                lemma_kv_get_none(r, other);
            }
        }
    } else {
        assert(r == kvs.push((k, v)));
        lemma_kv_get_index(r, k, kvs.len() as int);
        if other != k {
            if kv_has(kvs, other) {
                let j = choose|j: int| 0 <= j < kvs.len() && kvs[j].0 == other;
                lemma_kv_get_index(kvs, other, j);
                lemma_kv_get_index(r, other, j);
            } else {
                lemma_kv_get_none(kvs, other);
                assert(!kv_has(r, other)) by {
                    if kv_has(r, other) {
                        let j = choose|j: int| 0 <= j < r.len() && r[j].0 == other;
                        if j < kvs.len() {
                            assert(kvs[j].0 == other);
                        }
                    }
                }
                lemma_kv_get_none(r, other);
            }
        }
    }
}

/// A measurement as stored in the notes: its epoch, name, the decimal text
/// of its timestamp and of its value, and its key-value metadata.
#[derive(Clone, Debug)]
pub struct MeasurementData {
    pub epoch: u32,
    pub name: String,
    pub timestamp: String,
    pub val: String,
    pub key_values: Vec<(String, String)>,
}

/// The mathematical model of a [`MeasurementData`].
pub struct MeasurementModel {
    pub epoch: u32,
    pub name: Seq<char>,
    pub timestamp: Seq<char>,
    pub val: Seq<char>,
    pub key_values: Seq<KeyValue>,
}

impl View for MeasurementData {
    type V = MeasurementModel;

    open spec fn view(&self) -> MeasurementModel {
        MeasurementModel {
            epoch: self.epoch,
            name: self.name@,
            timestamp: self.timestamp@,
            val: self.val@,
            key_values: kv_view(self.key_values@),
        }
    }
}

/// A commit with the measurements of its note.
#[derive(Clone, Debug)]
pub struct Commit {
    pub commit: String,
    pub title: String,
    pub author: String,
    pub measurements: Vec<MeasurementData>,
}

/// Looks up `k` among `kvs`.
pub fn kv_lookup(kvs: &Vec<(String, String)>, k: &String) -> (r: Option<usize>)
    ensures
        r matches Some(i) ==> i < kvs@.len() && kvs@[i as int].0@ == k@ && kv_get(kv_view(kvs@), k@)
            == Some(kvs@[i as int].1@) && forall|j: int| 0 <= j < i ==> kvs@[j].0@ != k@,
        r is None ==> !kv_has(kv_view(kvs@), k@) && kv_get(kv_view(kvs@), k@) is None,
{
    let ghost view = kv_view(kvs@);
    let mut i: usize = 0;
    while i < kvs.len()
        invariant
            i <= kvs@.len(),
            view == kv_view(kvs@),
            forall|j: int| 0 <= j < i ==> kvs@[j].0@ != k@,
        decreases kvs@.len() - i,
    {
        if kvs[i].0 == *k {
            proof {
                lemma_kv_get_first(view, k@, i as int);
            }
            return Some(i);
        }
        i = i + 1;
    }
    proof {
        assert(!kv_has(view, k@)) by {
            if kv_has(view, k@) {
                let j = choose|j: int| 0 <= j < view.len() && view[j].0 == k@;
                assert(view[j].0 == kvs@[j].0@);
            }
        }
        lemma_kv_get_none(view, k@);
    }
    None
}

pub proof fn lemma_kv_get_first(kvs: Seq<KeyValue>, k: Seq<char>, i: int)
    requires
        0 <= i < kvs.len(),
        kvs[i].0 == k,
        forall|j: int| 0 <= j < i ==> kvs[j].0 != k,
    ensures
        kv_get(kvs, k) == Some(kvs[i].1),
    decreases kvs.len(),
{
    if i > 0 {
        let t = kvs.drop_first();
        assert(kvs[0].0 != k);
        assert forall|j: int| 0 <= j < i - 1 implies t[j].0 != k by {
            assert(t[j] == kvs[j + 1]);
        }
        assert(t[i - 1] == kvs[i]);
        lemma_kv_get_first(t, k, i - 1);
    }
}

/// Sets `k` to `v` in `kvs`, replacing the value of an existing key in place.
pub fn kv_set(kvs: &mut Vec<(String, String)>, k: String, v: String)
    requires
        kv_unique(kv_view(old(kvs)@)),
    ensures
        kv_view(final(kvs)@) == kv_insert(kv_view(old(kvs)@), k@, v@),
        kv_unique(kv_view(final(kvs)@)),
{
    let ghost before = kv_view(kvs@);
    match kv_lookup(kvs, &k) {
        Some(i) => {
            proof {
                assert(before[i as int].0 == k@);
                assert(kv_has(before, k@));
                let c = choose|c: int| 0 <= c < before.len() && before[c].0 == k@;
                assert(c == i as int);
            }
            kvs.set(i, (k, v));
            assert(kv_view(kvs@) =~= before.update(i as int, (k@, v@)));
        },
        None => {
            kvs.push((k, v));
            assert(kv_view(kvs@) =~= before.push((k@, v@)));
        },
    }
    proof {
        lemma_kv_insert_unique(before, k@, v@);
    }
}

impl MeasurementData {
    /// Whether this measurement carries every key-value pair of `criteria`.
    pub fn matches_key_values(&self, criteria: &[(String, String)]) -> (b: bool)
        ensures
            b == kv_superset(self@.key_values, kv_view(criteria@)),
    {
        self.key_values_is_superset_of(criteria)
    }

    /// Whether the key-values of this measurement include every pair of
    /// `criteria` (criteria ⊆ key_values).
    pub fn key_values_is_superset_of(&self, criteria: &[(String, String)]) -> (b: bool)
        ensures
            b == kv_superset(self@.key_values, kv_view(criteria@)),
    {
        let ghost cv = kv_view(criteria@);
        let mut i: usize = 0;
        while i < criteria.len()
            invariant
                i <= criteria@.len(),
                cv == kv_view(criteria@),
                forall|j: int| 0 <= j < i ==> kv_get(self@.key_values, #[trigger] cv[j].0) == Some(cv[j].1),
            decreases criteria@.len() - i,
        {
            let (ck, cval) = &criteria[i];
            match kv_lookup(&self.key_values, ck) {
                Some(idx) => {
                    if self.key_values[idx].1 != *cval {
                        assert(kv_get(self@.key_values, cv[i as int].0) != Some(cv[i as int].1));
                        return false;
                    }
                },
                None => {
                    assert(kv_get(self@.key_values, cv[i as int].0) != Some(cv[i as int].1));
                    return false;
                },
            }
            i = i + 1;
        }
        true
    }
}

} // verus!
