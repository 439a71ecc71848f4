//! The measurements of the history: the commits with the measurements of
//! their notes, and the series of one measurement that an audit compares.
use vstd::prelude::*;
use crate::data::{Commit, MeasurementData, MeasurementModel, kv_get, kv_superset, kv_view};
use crate::serialization::deserialize_spec;
use crate::status::{CommitNotes, note_text, note_text_of};
use crate::text::{copy_str, eq_str, strs};

verus! {

/// The first `num_commits` commits of the history with the measurements
/// that their notes hold.
pub fn walk_commits_from(commits: Vec<CommitNotes>, num_commits: usize) -> (r: Vec<Commit>)
    ensures
        r@.len() == if commits@.len() < num_commits {
            commits@.len() as int
        } else {
            num_commits as int
        },
        forall|i: int|
            0 <= i < r@.len() ==> (#[trigger] r@[i]).commit@ == commits@[i].commit@
                && r@[i].measurements@.map_values(|m: MeasurementData| m@) == deserialize_spec(
                note_text(commits@[i]),
            ),
{
    let mut out: Vec<Commit> = Vec::new();
    let mut i: usize = 0;
    while i < commits.len() && i < num_commits
        invariant
            i <= commits@.len(),
            i <= num_commits,
            out@.len() == i,
            forall|k: int|
                0 <= k < i ==> (#[trigger] out@[k]).commit@ == commits@[k].commit@
                    && out@[k].measurements@.map_values(|m: MeasurementData| m@) == deserialize_spec(
                    note_text(commits@[k]),
                ),
        decreases commits@.len() - i,
    {
        let text = note_text_of(&commits[i]);
        let ms = crate::serialization::deserialize(text.as_str());
        proof {
            assert(ms@.map_values(|m: MeasurementData| m@) =~= deserialize_spec(text@));
        }
        out.push(
            Commit {
                commit: copy_str(commits[i].commit.as_str()),
                title: String::new(),
                author: String::new(),
                measurements: ms,
            },
        );
        i = i + 1;
    }
    out
}

/// What one commit contributes to the series of a measurement: the epoch of
/// its first selected measurement and the values of all of them, in order.
#[derive(Debug, Clone)]
pub struct CommitSelection {
    pub commit: String,
    pub epoch: Option<u32>,
    pub values: Vec<String>,
}

/// The measurements of a commit named `name` that carry the selectors.
pub open spec fn chosen(ms: Seq<MeasurementModel>, name: Seq<char>, selectors: Seq<(Seq<char>, Seq<char>)>) -> Seq<
    MeasurementModel,
>
    decreases ms.len(),
{
    if ms.len() == 0 {
        Seq::empty()
    } else {
        let prev = chosen(ms.drop_last(), name, selectors);
        if ms.last().name == name && kv_superset(ms.last().key_values, selectors) {
            prev.push(ms.last())
        } else {
            prev
        }
    }
}

/// Selects the measurements of one commit for the series of `name`.
pub fn select_in_commit(commit: &Commit, name: &str, selectors: &[(String, String)]) -> (r:
    CommitSelection)
    ensures
        ({
            let c = chosen(
                commit.measurements@.map_values(|m: MeasurementData| m@),
                name@,
                kv_view(selectors@),
            );
            &&& r.commit@ == commit.commit@
            &&& r.epoch == (if c.len() > 0 {
                Some(c[0].epoch)
            } else {
                None
            })
            &&& strs(r.values@) == c.map_values(|m: MeasurementModel| m.val)
        }),
{
    let ghost ms = commit.measurements@.map_values(|m: MeasurementData| m@);
    let ghost sel = kv_view(selectors@);
    let mut epoch: Option<u32> = None;
    let mut values: Vec<String> = Vec::new();
    let mut k: usize = 0;
    while k < commit.measurements.len()
        invariant
            k <= commit.measurements@.len(),
            ms == commit.measurements@.map_values(|m: MeasurementData| m@),
            sel == kv_view(selectors@),
            epoch == (if chosen(ms.take(k as int), name@, sel).len() > 0 {
                Some(chosen(ms.take(k as int), name@, sel)[0].epoch)
            } else {
                None
            }),
            strs(values@) == chosen(ms.take(k as int), name@, sel).map_values(
                |m: MeasurementModel| m.val,
            ),
        decreases commit.measurements@.len() - k,
    {
        let m = &commit.measurements[k];
        let ghost prev = chosen(ms.take(k as int), name@, sel);
        proof {
            assert(ms.take(k + 1).drop_last() =~= ms.take(k as int));
            assert(ms.take(k + 1).last() == m@);
        }
        if eq_str(m.name.as_str(), name) && m.key_values_is_superset_of(selectors) {
            if epoch.is_none() {
                epoch = Some(m.epoch);
            }
            let ghost before = strs(values@);
            values.push(copy_str(m.val.as_str()));
            proof {
                assert(strs(values@) =~= before.push(m@.val));
                assert(chosen(ms.take(k + 1), name@, sel) == prev.push(m@));
                assert(prev.push(m@).map_values(|x: MeasurementModel| x.val) =~= prev.map_values(
                    |x: MeasurementModel| x.val,
                ).push(m@.val));
                if prev.len() > 0 {
                    assert(prev.push(m@)[0] == prev[0]);
                }
            }
        }
        k = k + 1;
    }
    proof {
        assert(ms.take(commit.measurements@.len() as int) =~= ms);
    }
    CommitSelection { commit: copy_str(commit.commit.as_str()), epoch, values }
}

/// Whether all epochs among the first `n` are the same.
pub open spec fn same_epochs_upto(epochs: Seq<Option<u32>>, n: int) -> bool {
    forall|i: int, j: int|
        0 <= i < n && 0 <= j < n && (#[trigger] epochs[i]) is Some && (#[trigger] epochs[j]) is Some
            ==> epochs[i] == epochs[j]
}

/// How many summaries of the history belong to the epoch of the first one:
/// the longest prefix in which all summaries that have an epoch agree on it
/// (summaries without a measurement do not end it).
pub fn take_while_same_epoch(epochs: &[Option<u32>]) -> (n: usize)
    ensures
        n <= epochs@.len(),
        same_epochs_upto(epochs@, n as int),
        n < epochs@.len() ==> !same_epochs_upto(epochs@, n + 1),
{
    let mut first: Option<u32> = None;
    let mut i: usize = 0;
    while i < epochs.len()
        invariant
            i <= epochs@.len(),
            same_epochs_upto(epochs@, i as int),
            first is None ==> forall|j: int| 0 <= j < i ==> (#[trigger] epochs@[j]) is None,
            first matches Some(p) ==> forall|j: int|
                0 <= j < i && (#[trigger] epochs@[j]) is Some ==> epochs@[j] == Some(p),
            first matches Some(p) ==> exists|j: int| 0 <= j < i && (#[trigger] epochs@[j]) == Some(p),
        decreases epochs@.len() - i,
    {
        match epochs[i] {
            Some(e) => {
                match first {
                    Some(p) => {
                        if p != e {
                            proof {
                                let j = choose|j: int| 0 <= j < i && (#[trigger] epochs@[j]) == Some(p);
                                assert(epochs@[j] is Some && epochs@[i as int] is Some && epochs@[j]
                                    != epochs@[i as int]);
                            }
                            return i;
                        }
                    },
                    None => {
                        first = Some(e);
                    },
                }
            },
            None => {},
        }
        i = i + 1;
    }
    i
}

/// What a commit contributes to the series of `name`: the epoch of its first
/// selected measurement, where it has one, and the values of all of them.
pub open spec fn selection_of(c: Commit, name: Seq<char>, selectors: Seq<(Seq<char>, Seq<char>)>) -> (
    Option<u32>,
    Seq<Seq<char>>,
) {
    let ch = chosen(c.measurements@.map_values(|m: MeasurementData| m@), name, selectors);
    (
        if ch.len() > 0 {
            Some(ch[0].epoch)
        } else {
            None
        },
        ch.map_values(|m: MeasurementModel| m.val),
    )
}

/// The contributions of all commits, in the order of the history.
pub open spec fn series_of(commits: Seq<Commit>, name: Seq<char>, selectors: Seq<(Seq<char>, Seq<char>)>) -> Seq<
    (Option<u32>, Seq<Seq<char>>),
> {
    commits.map_values(|c: Commit| selection_of(c, name, selectors))
}

/// The values of the commits after the first and before the `n`-th that
/// have a selected measurement.
pub open spec fn kept_values(s: Seq<(Option<u32>, Seq<Seq<char>>)>, n: int) -> Seq<Seq<Seq<char>>>
    decreases n,
{
    if n <= 1 {
        Seq::empty()
    } else {
        let prev = kept_values(s, n - 1);
        if s[n - 1].0 is Some {
            prev.push(s[n - 1].1)
        } else {
            prev
        }
    }
}

/// Why an audit cannot compare anything.
#[derive(Debug, Clone, Copy, PartialEq, Eq)]
pub enum SeriesError {
    /// There is no commit.
    NoCommitAtHead,
    /// HEAD has no selected measurement.
    NoMeasurementForHead,
}

/// The values that an audit of `name` compares: those of HEAD, the first
/// commit, and those of each later commit that has any, up to the first
/// commit whose epoch differs from the epoch before it.
pub fn audit_series(commits: &[Commit], name: &str, selectors: &[(String, String)]) -> (r: Result<
    (Vec<String>, Vec<Vec<String>>),
    SeriesError,
>)
    ensures
        ({
            let s = series_of(commits@, name@, kv_view(selectors@));
            &&& commits@.len() == 0 ==> r == Err::<(Vec<String>, Vec<Vec<String>>), SeriesError>(
                SeriesError::NoCommitAtHead,
            )
            &&& commits@.len() > 0 ==> (r is Err <==> s[0].0 is None)
            &&& r matches Err(e) ==> (commits@.len() > 0 ==> e == SeriesError::NoMeasurementForHead)
            &&& r matches Ok((head, tail)) ==> strs(head@) == s[0].1 && exists|n: int|
                0 <= n <= s.len() && same_epochs_upto(s.map_values(|p: (Option<u32>, Seq<Seq<char>>)| p.0), n)
                    && (n < s.len() ==> !same_epochs_upto(
                    s.map_values(|p: (Option<u32>, Seq<Seq<char>>)| p.0),
                    n + 1,
                )) && tail@.map_values(|v: Vec<String>| strs(v@)) == kept_values(s, n)
        }),
{
    let ghost s = series_of(commits@, name@, kv_view(selectors@));
    let mut sels: Vec<CommitSelection> = Vec::new();
    let mut epochs: Vec<Option<u32>> = Vec::new();
    let mut i: usize = 0;
    while i < commits.len()
        invariant
            i <= commits@.len(),
            s == series_of(commits@, name@, kv_view(selectors@)),
            sels@.len() == i,
            epochs@.len() == i,
            forall|k: int|
                0 <= k < i ==> (#[trigger] epochs@[k]) == sels@[k].epoch && sels@[k].epoch == s[k].0
                    && strs(sels@[k].values@) == s[k].1,
        decreases commits@.len() - i,
    {
        let sc = select_in_commit(&commits[i], name, selectors);
        epochs.push(sc.epoch);
        sels.push(sc);
        i = i + 1;
    }
    if sels.len() == 0 {
        return Err(SeriesError::NoCommitAtHead);
    }
    if sels[0].epoch.is_none() {
        assert(epochs@[0] == s[0].0);
        return Err(SeriesError::NoMeasurementForHead);
    }
    assert(epochs@[0] == s[0].0);
    let n = take_while_same_epoch(epochs.as_slice());
    proof {
        assert(epochs@ =~= s.map_values(|p: (Option<u32>, Seq<Seq<char>>)| p.0));
    }
    proof {
        assert forall|q: int| 0 <= q < sels@.len() implies (#[trigger] sels@[q]).epoch == s[q].0 && strs(
            sels@[q].values@,
        ) == s[q].1 by {
            assert(epochs@[q] == sels@[q].epoch);
        }
    }
    let mut tail: Vec<Vec<String>> = Vec::new();
    let mut k: usize = 1;
    if n == 0 {
        k = 0;
    }
    while k < n
        invariant
            1 <= k <= n || (k == 0 && n == 0),
            n <= sels@.len(),
            sels@.len() == s.len(),
            forall|q: int|
                0 <= q < sels@.len() ==> (#[trigger] sels@[q]).epoch == s[q].0 && strs(sels@[q].values@)
                    == s[q].1,
            tail@.map_values(|v: Vec<String>| strs(v@)) == kept_values(s, k as int),
        decreases n - k,
    {
        let ghost before = tail@.map_values(|v: Vec<String>| strs(v@));
        if sels[k].epoch.is_some() {
            let vals = copy_all(&sels[k].values);
            tail.push(vals);
            proof {
                assert(tail@.map_values(|v: Vec<String>| strs(v@)) =~= before.push(s[k as int].1));
            }
        }
        k = k + 1;
    }
    proof {
        if n == 0 {
            assert(kept_values(s, 0) == Seq::<Seq<Seq<char>>>::empty());
        }
    }
    let head = copy_all(&sels[0].values);
    Ok((head, tail))
}

/// A copy of a list of strings.
fn copy_all(v: &Vec<String>) -> (r: Vec<String>)
    ensures
        strs(r@) == strs(v@),
{
    let mut out: Vec<String> = Vec::new();
    let mut i: usize = 0;
    while i < v.len()
        invariant
            i <= v@.len(),
            out@.len() == i,
            forall|k: int| 0 <= k < i ==> (#[trigger] out@[k])@ == v@[k]@,
        decreases v@.len() - i,
    {
        out.push(copy_str(v[i].as_str()));
        i = i + 1;
    }
    assert(strs(out@) =~= strs(v@));
    out
}

/// Whether a measurement is named `name` and has the value of every
/// selector pair among its key-values.
pub open spec fn carries(m: MeasurementModel, name: Seq<char>, selectors: Seq<(Seq<char>, Seq<char>)>) -> bool {
    m.name == name && forall|q: int|
        0 <= q < selectors.len() ==> kv_get(m.key_values, #[trigger] selectors[q].0) == Some(
            selectors[q].1,
        )
}

proof fn lemma_chosen(ms: Seq<MeasurementModel>, name: Seq<char>, sel: Seq<(Seq<char>, Seq<char>)>)
    ensures
        forall|j: int|
            0 <= j < chosen(ms, name, sel).len() ==> exists|i: int|
                0 <= i < ms.len() && #[trigger] chosen(ms, name, sel)[j] == ms[i] && carries(ms[i], name, sel),
        forall|i: int| 0 <= i < ms.len() && carries(#[trigger] ms[i], name, sel) ==> chosen(ms, name, sel).contains(ms[i]),
        chosen(ms, name, sel).len() > 0 ==> exists|i: int|
            0 <= i < ms.len() && chosen(ms, name, sel)[0] == ms[i] && carries(ms[i], name, sel) && forall|k: int|
                0 <= k < i ==> !carries(#[trigger] ms[k], name, sel),
        chosen(ms, name, sel).len() == 0 ==> forall|i: int| 0 <= i < ms.len() ==> !carries(#[trigger] ms[i], name, sel),
    decreases ms.len(),
{
    if ms.len() > 0 {
        let pm = ms.drop_last();
        lemma_chosen(pm, name, sel);
        let prev = chosen(pm, name, sel);
        let ch = chosen(ms, name, sel);
        let l = ms.last();
        assert(carries(l, name, sel) <==> (l.name == name && kv_superset(l.key_values, sel)));
        assert forall|j: int| 0 <= j < ch.len() implies exists|i: int|
            0 <= i < ms.len() && #[trigger] ch[j] == ms[i] && carries(ms[i], name, sel) by {
            if j < prev.len() {
                assert(ch[j] == prev[j]);
                let i = choose|i: int| 0 <= i < pm.len() && #[trigger] prev[j] == pm[i] && carries(pm[i], name, sel);
                assert(ms[i] == pm[i]);
            } else {
                assert(ch[j] == ms[ms.len() - 1]);
            }
        }
        assert forall|i: int| 0 <= i < ms.len() && carries(#[trigger] ms[i], name, sel) implies ch.contains(ms[i]) by {
            if i < ms.len() - 1 {
                assert(pm[i] == ms[i]);
                assert(prev.contains(pm[i]));
                let j = choose|j: int| 0 <= j < prev.len() && prev[j] == pm[i];
                assert(ch[j] == prev[j]);
            } else {
                assert(ch[ch.len() - 1] == ms[i]);
            }
        }
        if ch.len() > 0 {
            if prev.len() > 0 {
                let i = choose|i: int|
                    0 <= i < pm.len() && prev[0] == pm[i] && carries(pm[i], name, sel) && forall|k: int|
                        0 <= k < i ==> !carries(#[trigger] pm[k], name, sel);
                assert(ch[0] == prev[0]);
                assert(ms[i] == pm[i]);
                assert forall|k: int| 0 <= k < i implies !carries(#[trigger] ms[k], name, sel) by {
                    assert(ms[k] == pm[k]);
                }
            } else {
                assert(ch[0] == l);
                assert forall|k: int| 0 <= k < ms.len() - 1 implies !carries(#[trigger] ms[k], name, sel) by {
                    assert(ms[k] == pm[k]);
                }
            }
        }
        if ch.len() == 0 {
            assert forall|i: int| 0 <= i < ms.len() implies !carries(#[trigger] ms[i], name, sel) by {
                if i < ms.len() - 1 {
                    assert(ms[i] == pm[i]);
                }
            }
        }
    }
}

/// The values that the commits after the first and before the `n`-th
/// contribute, one row per commit.
pub open spec fn tail_rows(s: Seq<(Option<u32>, Seq<Seq<char>>)>, n: int) -> Seq<Seq<Seq<char>>> {
    s.subrange(1, n).map_values(|p: (Option<u32>, Seq<Seq<char>>)| p.1)
}

proof fn lemma_kept_row(s: Seq<(Option<u32>, Seq<Seq<char>>)>, n: int, t: int) -> (c: int)
    requires
        n <= s.len(),
        0 <= t < kept_values(s, n).len(),
    ensures
        1 <= c < n,
        kept_values(s, n)[t] == s[c].1,
        s[c].0 is Some,
    decreases n,
{
    if t < kept_values(s, n - 1).len() {
        lemma_kept_row(s, n - 1, t)
    } else {
        n - 1
    }
}

/// What an audit compares is selected by name and selectors: every value a
/// commit contributes to the series comes from one of its measurements that
/// is named `name` and carries every selector pair, every such measurement
/// contributes its value, and a commit's epoch is that of the first such
/// measurement. Every row kept for the tail is the contribution of a later
/// commit that has such a measurement.
pub proof fn lemma_series_selected(
    commits: Seq<Commit>,
    name: Seq<char>,
    selectors: Seq<(Seq<char>, Seq<char>)>,
    n: int,
)
    requires
        n <= commits.len(),
    ensures
        ({
            let s = series_of(commits, name, selectors);
            &&& forall|c: int, j: int|
                0 <= c < commits.len() && 0 <= j < s[c].1.len() ==> exists|i: int|
                    0 <= i < commits[c].measurements@.len() && carries(
                        commits[c].measurements@[i]@,
                        name,
                        selectors,
                    ) && commits[c].measurements@[i]@.val == #[trigger] s[c].1[j]
            &&& forall|c: int, i: int|
                0 <= c < commits.len() && 0 <= i < commits[c].measurements@.len() && carries(
                    #[trigger] commits[c].measurements@[i]@,
                    name,
                    selectors,
                ) ==> s[c].1.contains(commits[c].measurements@[i]@.val)
            &&& forall|c: int|
                0 <= c < commits.len() ==> ((#[trigger] s[c]).0 is Some <==> exists|i: int|
                    0 <= i < commits[c].measurements@.len() && carries(
                        commits[c].measurements@[i]@,
                        name,
                        selectors,
                    ))
            &&& forall|c: int|
                0 <= c < commits.len() && (#[trigger] s[c]).0 is Some ==> exists|i: int|
                    0 <= i < commits[c].measurements@.len() && carries(
                        commits[c].measurements@[i]@,
                        name,
                        selectors,
                    ) && s[c].0 == Some(commits[c].measurements@[i]@.epoch) && forall|k: int|
                        0 <= k < i ==> !carries(#[trigger] commits[c].measurements@[k]@, name, selectors)
            &&& forall|t: int|
                0 <= t < kept_values(s, n).len() ==> tail_rows(s, n).contains(#[trigger] kept_values(s, n)[t])
        }),
{
    let s = series_of(commits, name, selectors);
    assert(s.len() == commits.len());
    assert forall|t: int| 0 <= t < kept_values(s, n).len() implies tail_rows(s, n).contains(
        #[trigger] kept_values(s, n)[t],
    ) by {
        let c = lemma_kept_row(s, n, t);
        assert(tail_rows(s, n)[c - 1] == s[c].1);
    }
    assert forall|c: int| #![trigger s[c]] 0 <= c < commits.len() implies {
        let ms = commits[c].measurements@.map_values(|m: MeasurementData| m@);
        let ch = chosen(ms, name, selectors);
        &&& s[c] == selection_of(commits[c], name, selectors)
        &&& (forall|j: int| 0 <= j < s[c].1.len() ==> exists|i: int|
            0 <= i < commits[c].measurements@.len() && carries(commits[c].measurements@[i]@, name, selectors)
                && commits[c].measurements@[i]@.val == #[trigger] s[c].1[j])
        &&& (forall|i: int|
            0 <= i < commits[c].measurements@.len() && carries(
                #[trigger] commits[c].measurements@[i]@,
                name,
                selectors,
            ) ==> s[c].1.contains(commits[c].measurements@[i]@.val))
        &&& (s[c].0 is Some <==> exists|i: int|
            0 <= i < commits[c].measurements@.len() && carries(commits[c].measurements@[i]@, name, selectors))
        &&& (s[c].0 is Some ==> exists|i: int|
                0 <= i < commits[c].measurements@.len() && carries(commits[c].measurements@[i]@, name, selectors)
                    && s[c].0 == Some(commits[c].measurements@[i]@.epoch) && forall|k: int|
                    0 <= k < i ==> !carries(#[trigger] commits[c].measurements@[k]@, name, selectors))
    } by {
        let ms = commits[c].measurements@.map_values(|m: MeasurementData| m@);
        let ch = chosen(ms, name, selectors);
        lemma_chosen(ms, name, selectors);
        assert(s[c] == selection_of(commits[c], name, selectors));
        let vals = ch.map_values(|m: MeasurementModel| m.val);
        assert(s[c].1 == vals);
        assert forall|j: int| 0 <= j < s[c].1.len() implies exists|i: int|
            0 <= i < commits[c].measurements@.len() && carries(commits[c].measurements@[i]@, name, selectors)
                && commits[c].measurements@[i]@.val == #[trigger] s[c].1[j] by {
            assert(vals[j] == ch[j].val);
            let i = choose|i: int| 0 <= i < ms.len() && #[trigger] ch[j] == ms[i] && carries(ms[i], name, selectors);
            assert(ms[i] == commits[c].measurements@[i]@);
        }
        assert forall|i: int|
            0 <= i < commits[c].measurements@.len() && carries(
                #[trigger] commits[c].measurements@[i]@,
                name,
                selectors,
            ) implies s[c].1.contains(commits[c].measurements@[i]@.val) by {
            assert(ms[i] == commits[c].measurements@[i]@);
            assert(ch.contains(ms[i]));
            let j = choose|j: int| 0 <= j < ch.len() && ch[j] == ms[i];
            assert(vals[j] == ms[i].val);
        }
        if s[c].0 is Some {
            let i = choose|i: int|
                0 <= i < ms.len() && ch[0] == ms[i] && carries(ms[i], name, selectors) && forall|k: int|
                    0 <= k < i ==> !carries(#[trigger] ms[k], name, selectors);
            assert(ms[i] == commits[c].measurements@[i]@);
            assert forall|k: int| 0 <= k < i implies !carries(#[trigger] commits[c].measurements@[k]@, name, selectors) by {
                assert(ms[k] == commits[c].measurements@[k]@);
            }
        } else {
            assert forall|i: int| 0 <= i < commits[c].measurements@.len() implies !carries(
                commits[c].measurements@[i]@,
                name,
                selectors,
            ) by {
                assert(ms[i] == commits[c].measurements@[i]@);
                assert(!carries(ms[i], name, selectors));
            }
        }
    }
}

} // verus!
