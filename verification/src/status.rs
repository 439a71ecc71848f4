//! Which measurements are pending: written locally but not yet published.
use vstd::prelude::*;
use crate::serialization::{deserialize, join};
use crate::size_ops::note_names;
use crate::num::{decimal, push_decimal};
use crate::reset::{plural, push_plural};
use crate::text::{
    chars_of, contains_str, copy_str, eq_str, push_str, sort_strings, sorted_strs, string_of, strs,
};

verus! {

/// The note of a commit under a notes ref, as the lines that
/// `git notes show` printed.
#[derive(Debug, Clone)]
pub struct CommitNotes {
    pub commit: String,
    pub lines: Vec<String>,
}

/// The text of a note: its lines joined with line breaks.
pub open spec fn note_text(c: CommitNotes) -> Seq<char> {
    join(strs(c.lines@), seq!['\n'])
}

/// The measurement names of the published note of `commit`, where it has a
/// note with at least one line; the first entry of `commit` counts.
pub open spec fn published_names(remote: Seq<CommitNotes>, commit: Seq<char>) -> Option<
    Seq<Seq<char>>,
>
    decreases remote.len(),
{
    if remote.len() == 0 {
        None
    } else if remote[0].commit@ == commit {
        if remote[0].lines@.len() == 0 {
            None
        } else {
            Some(note_names(note_text(remote[0])))
        }
    } else {
        published_names(remote.drop_first(), commit)
    }
}

/// The names of `names` that are not in `excluded`, each once, in the order
/// of their first occurrence.
pub open spec fn fresh_names(names: Seq<Seq<char>>, excluded: Seq<Seq<char>>) -> Seq<Seq<char>>
    decreases names.len(),
{
    if names.len() == 0 {
        Seq::empty()
    } else {
        let prev = fresh_names(names.drop_last(), excluded);
        let n = names.last();
        if excluded.contains(n) || prev.contains(n) {
            prev
        } else {
            prev.push(n)
        }
    }
}

/// The names of the measurements of a pending note that the published note
/// of the same commit does not have.
pub open spec fn truly_pending(c: CommitNotes, remote: Seq<CommitNotes>) -> Seq<Seq<char>> {
    if c.lines@.len() == 0 {
        Seq::empty()
    } else {
        let excluded = match published_names(remote, c.commit@) {
            Some(r) => r,
            None => Seq::empty(),
        };
        fresh_names(note_names(note_text(c)), excluded)
    }
}

/// The pending measurements of one commit.
#[derive(Debug, Clone)]
pub struct CommitMeasurements {
    /// The commit.
    pub commit: String,
    /// Its title.
    pub title: String,
    /// The names of its pending measurements.
    pub measurement_names: Vec<String>,
    /// How many names there are.
    pub count: usize,
}

/// What is pending.
#[derive(Debug, Clone)]
pub struct PendingStatus {
    /// The number of commits with pending measurements.
    pub commit_count: usize,
    /// The names of the pending measurements, each once.
    pub measurement_names: Vec<String>,
    /// The pending measurements by commit, where they were asked for.
    pub per_commit: Option<Vec<CommitMeasurements>>,
}

/// The pending measurements of one commit as plain values.
pub struct CommitMeasurementsModel {
    pub commit: Seq<char>,
    pub title: Seq<char>,
    pub names: Seq<Seq<char>>,
    pub count: nat,
}

/// What is pending, as plain values.
pub struct StatusModel {
    pub commit_count: nat,
    pub names: Seq<Seq<char>>,
    pub per_commit: Seq<CommitMeasurementsModel>,
}

/// The plain values of one commit's pending measurements.
pub open spec fn commit_view(c: CommitMeasurements) -> CommitMeasurementsModel {
    CommitMeasurementsModel {
        commit: c.commit@,
        title: c.title@,
        names: strs(c.measurement_names@),
        count: c.count as nat,
    }
}

/// The plain values of a status; no per-commit list reads as an empty one.
pub open spec fn status_view(s: PendingStatus) -> StatusModel {
    StatusModel {
        commit_count: s.commit_count as nat,
        names: strs(s.measurement_names@),
        per_commit: match s.per_commit {
            Some(v) => v@.map_values(|c: CommitMeasurements| commit_view(c)),
            None => Seq::empty(),
        },
    }
}

/// The status after one more pending commit, whose title is `title` where
/// it is known.
pub open spec fn status_step(
    s: StatusModel,
    c: CommitNotes,
    title: Option<Seq<char>>,
    remote: Seq<CommitNotes>,
    detailed: bool,
) -> StatusModel {
    let t = truly_pending(c, remote);
    if t.len() == 0 {
        s
    } else {
        StatusModel {
            commit_count: s.commit_count + 1,
            names: s.names + fresh_names(t, s.names),
            per_commit: if detailed && title is Some {
                s.per_commit.push(
                    CommitMeasurementsModel {
                        commit: c.commit@,
                        title: title.unwrap(),
                        names: t,
                        count: t.len(),
                    },
                )
            } else {
                s.per_commit
            },
        }
    }
}

/// The title of the `k`-th pending commit, where one is known.
pub open spec fn title_at(titles: Seq<Option<String>>, k: int) -> Option<Seq<char>> {
    if 0 <= k < titles.len() {
        match titles[k] {
            Some(t) => Some(t@),
            None => None,
        }
    } else {
        None
    }
}

/// The status after the first `k` pending commits.
pub open spec fn status_upto(
    pending: Seq<CommitNotes>,
    titles: Seq<Option<String>>,
    remote: Seq<CommitNotes>,
    detailed: bool,
    k: nat,
) -> StatusModel
    decreases k,
{
    if k == 0 {
        StatusModel { commit_count: 0, names: Seq::empty(), per_commit: Seq::empty() }
    } else {
        status_step(
            status_upto(pending, titles, remote, detailed, (k - 1) as nat),
            pending[k - 1],
            title_at(titles, k - 1),
            remote,
            detailed,
        )
    }
}

proof fn lemma_fresh_names(names: Seq<Seq<char>>, excluded: Seq<Seq<char>>)
    ensures
        fresh_names(names, excluded).no_duplicates(),
        forall|x: Seq<char>|
            #[trigger] fresh_names(names, excluded).contains(x) <==> names.contains(x) && !excluded.contains(x),
    decreases names.len(),
{
    if names.len() > 0 {
        let prev = fresh_names(names.drop_last(), excluded);
        lemma_fresh_names(names.drop_last(), excluded);
        let n = names.last();
        assert forall|x: Seq<char>| names.contains(x) <==> names.drop_last().contains(x) || x == n by {
            if names.contains(x) {
                let i = choose|i: int| 0 <= i < names.len() && names[i] == x;
                if i < names.len() - 1 {
                    assert(names.drop_last()[i] == x);
                }
            }
            if names.drop_last().contains(x) {
                let i = choose|i: int| 0 <= i < names.drop_last().len() && names.drop_last()[i] == x;
                assert(names[i] == x);
            }
            if x == n {
                assert(names[names.len() - 1] == x);
            }
        }
        if !(excluded.contains(n) || prev.contains(n)) {
            let next = prev.push(n);
            assert forall|a: int, b: int| 0 <= a < b < next.len() implies next[a] != next[b] by {
                if b == next.len() - 1 {
                    assert(prev.contains(next[a]) ==> true);
                    assert(next[a] == prev[a]);
                }
            }
            assert forall|x: Seq<char>| #[trigger] next.contains(x) <==> prev.contains(x) || x == n by {
                if next.contains(x) {
                    let i = choose|i: int| 0 <= i < next.len() && next[i] == x;
                    if i < prev.len() {
                        assert(prev[i] == x);
                    }
                }
                if prev.contains(x) {
                    let i = choose|i: int| 0 <= i < prev.len() && prev[i] == x;
                    assert(next[i] == x);
                }
                if x == n {
                    assert(next[prev.len() as int] == x);
                }
            }
        }
    }
}

/// Whether `x` is a truly pending measurement name of one of the first `k`
/// pending commits.
pub open spec fn pending_somewhere(pending: Seq<CommitNotes>, remote: Seq<CommitNotes>, k: int, x: Seq<char>) -> bool {
    exists|j: int| 0 <= j < k && #[trigger] truly_pending(pending[j], remote).contains(x)
}

/// The pending status lists each pending measurement name once, and exactly
/// the names that some pending commit truly has pending; it counts the
/// commits that have any.
pub proof fn lemma_status_names(
    pending: Seq<CommitNotes>,
    titles: Seq<Option<String>>,
    remote: Seq<CommitNotes>,
    detailed: bool,
    k: nat,
)
    requires
        k <= pending.len(),
    ensures
        status_upto(pending, titles, remote, detailed, k).names.no_duplicates(),
        forall|x: Seq<char>|
            #[trigger] status_upto(pending, titles, remote, detailed, k).names.contains(x)
                <==> pending_somewhere(pending, remote, k as int, x),
        status_upto(pending, titles, remote, detailed, k).commit_count == pending.take(k as int).filter(
            |c: CommitNotes| truly_pending(c, remote).len() > 0,
        ).len(),
    decreases k,
{
    let f = |c: CommitNotes| truly_pending(c, remote).len() > 0;
    if k == 0 {
        reveal_with_fuel(Seq::filter, 1);
        assert(pending.take(0) =~= Seq::<CommitNotes>::empty());
    } else {
        lemma_status_names(pending, titles, remote, detailed, (k - 1) as nat);
        let s = status_upto(pending, titles, remote, detailed, (k - 1) as nat);
        let c = pending[k - 1];
        let t = truly_pending(c, remote);
        lemma_fresh_names(t, s.names);
        assert(pending.take(k as int).drop_last() =~= pending.take(k - 1));
        assert(pending.take(k as int).last() == c);
        reveal_with_fuel(Seq::filter, 1);
        let r = status_upto(pending, titles, remote, detailed, k);
        if t.len() > 0 {
            let fr = fresh_names(t, s.names);
            assert(r.names == s.names + fr);
            assert forall|a: int, b: int| 0 <= a < b < r.names.len() implies r.names[a] != r.names[b] by {
                if b >= s.names.len() && a < s.names.len() {
                    assert(fr.contains(r.names[b])) by {
                        assert(fr[b - s.names.len()] == r.names[b]);
                    }
                    assert(s.names.contains(r.names[a]));
                } else if a >= s.names.len() {
                    assert(r.names[a] == fr[a - s.names.len()]);
                    assert(r.names[b] == fr[b - s.names.len()]);
                }
            }
            assert forall|x: Seq<char>| #[trigger] r.names.contains(x) <==> pending_somewhere(
                pending,
                remote,
                k as int,
                x,
            ) by {
                if r.names.contains(x) {
                    let i = choose|i: int| 0 <= i < r.names.len() && r.names[i] == x;
                    if i < s.names.len() {
                        assert(s.names.contains(x));
                        let j = choose|j: int| 0 <= j < k - 1 && #[trigger] truly_pending(pending[j], remote).contains(x);
                        assert(truly_pending(pending[j], remote).contains(x));
                    } else {
                        assert(fr[i - s.names.len()] == x);
                        assert(fr.contains(x));
                        assert(truly_pending(pending[k - 1], remote).contains(x));
                    }
                }
                if pending_somewhere(pending, remote, k as int, x) {
                    let j = choose|j: int| 0 <= j < k && #[trigger] truly_pending(pending[j], remote).contains(x);
                    if j < k - 1 {
                        assert(pending_somewhere(pending, remote, k - 1, x));
                        assert(s.names.contains(x));
                        let i = choose|i: int| 0 <= i < s.names.len() && s.names[i] == x;
                        assert(r.names[i] == x);
                    } else if s.names.contains(x) {
                        let i = choose|i: int| 0 <= i < s.names.len() && s.names[i] == x;
                        assert(r.names[i] == x);
                    } else {
                        assert(fr.contains(x));
                        let i = choose|i: int| 0 <= i < fr.len() && fr[i] == x;
                        assert(r.names[s.names.len() + i] == x);
                    }
                }
            }
        } else {
            assert forall|x: Seq<char>| #[trigger] r.names.contains(x) <==> pending_somewhere(
                pending,
                remote,
                k as int,
                x,
            ) by {
                if pending_somewhere(pending, remote, k as int, x) {
                    let j = choose|j: int| 0 <= j < k && #[trigger] truly_pending(pending[j], remote).contains(x);
                    if j == k - 1 {
                        assert(t.contains(x));
                        assert(false);
                    }
                    assert(pending_somewhere(pending, remote, k - 1, x));
                }
                if r.names.contains(x) {
                    assert(s.names.contains(x));
                    let j = choose|j: int| 0 <= j < k - 1 && #[trigger] truly_pending(pending[j], remote).contains(x);
                    assert(truly_pending(pending[j], remote).contains(x));
                }
            }
        }
    }
}

/// The lines of a note joined with line breaks.
pub(crate) fn note_text_of(c: &CommitNotes) -> (r: String)
    ensures
        r@ == note_text(*c),
{
    let ghost parts = strs(c.lines@);
    let mut out: Vec<char> = Vec::new();
    let mut i: usize = 0;
    while i < c.lines.len()
        invariant
            i <= c.lines@.len(),
            parts == strs(c.lines@),
            out@ == join(parts.take(i as int), seq!['\n']),
        decreases c.lines@.len() - i,
    {
        let ghost before = out@;
        if i > 0 {
            out.push('\n');
        }
        let l = chars_of(c.lines[i].as_str());
        crate::git::append(&mut out, l.as_slice());
        proof {
            assert(parts.take(i + 1).drop_last() =~= parts.take(i as int));
            assert(parts.take(i + 1).last() == parts[i as int]);
            if i == 0 {
                assert(parts.take(1) =~= seq![parts[0]]);
                assert(out@ =~= parts[0]);
            } else {
                assert(out@ =~= before + seq!['\n'] + parts[i as int]);
            }
        }
        i = i + 1;
    }
    proof {
        assert(parts.take(c.lines@.len() as int) =~= parts);
    }
    string_of(out.as_slice())
}

/// The names of the measurements of a note.
fn names_in(text: &str) -> (r: Vec<String>)
    ensures
        strs(r@) == note_names(text@),
{
    let ms = deserialize(text);
    let mut out: Vec<String> = Vec::new();
    let mut i: usize = 0;
    while i < ms.len()
        invariant
            i <= ms@.len(),
            ms@.len() == note_names(text@).len(),
            forall|k: int| 0 <= k < ms@.len() ==> (#[trigger] ms@[k])@.name == note_names(text@)[k],
            strs(out@) == note_names(text@).take(i as int),
            out@.len() == i,
        decreases ms@.len() - i,
    {
        let ghost prev = out@;
        let nm = copy_str(ms[i].name.as_str());
        out.push(nm);
        proof {
            assert(prev.len() == i);
            assert(out@.len() == i + 1);
            assert(out@[i as int] == nm);
            assert(nm@ == ms@[i as int].name@);
            assert(ms@[i as int]@.name == ms@[i as int].name@);
            assert(out@[i as int]@ == note_names(text@)[i as int]);
            assert forall|k: int| 0 <= k < i + 1 implies #[trigger] strs(out@)[k] == note_names(
                text@,
            ).take(i + 1)[k] by {
                if k < i {
                    assert(out@[k] == prev[k]);
                    assert(strs(prev)[k] == note_names(text@).take(i as int)[k]);
                }
            }
            assert(strs(out@) =~= note_names(text@).take(i + 1));
        }
        i = i + 1;
    }
    proof {
        assert(note_names(text@).take(ms@.len() as int) =~= note_names(text@));
    }
    out
}

/// The names of `names` that are not in `excluded`, each once, in the order
/// of their first occurrence.
fn fresh_names_of(names: &Vec<String>, excluded: &Vec<String>) -> (r: Vec<String>)
    ensures
        strs(r@) == fresh_names(strs(names@), strs(excluded@)),
{
    let ghost ns = strs(names@);
    let mut out: Vec<String> = Vec::new();
    let mut i: usize = 0;
    while i < names.len()
        invariant
            i <= names@.len(),
            ns == strs(names@),
            strs(out@) == fresh_names(ns.take(i as int), strs(excluded@)),
        decreases names@.len() - i,
    {
        proof {
            assert(ns.take(i + 1).drop_last() =~= ns.take(i as int));
            assert(ns.take(i + 1).last() == names@[i as int]@);
        }
        let n = names[i].as_str();
        if !contains_str(excluded, n) && !contains_str(&out, n) {
            out.push(copy_str(n));
            proof {
                assert(strs(out@) =~= fresh_names(ns.take(i as int), strs(excluded@)).push(n@));
            }
        }
        i = i + 1;
    }
    proof {
        assert(ns.take(names@.len() as int) =~= ns);
    }
    out
}

proof fn lemma_published_at(remote: Seq<CommitNotes>, commit: Seq<char>, i: int)
    requires
        0 <= i < remote.len(),
        remote[i].commit@ == commit,
        forall|j: int| 0 <= j < i ==> (#[trigger] remote[j]).commit@ != commit,
    ensures
        published_names(remote, commit) == (if remote[i].lines@.len() == 0 {
            None
        } else {
            Some(note_names(note_text(remote[i])))
        }),
    decreases i,
{
    if i > 0 {
        assert(remote[0].commit@ != commit);
        let rest = remote.drop_first();
        assert forall|j: int| 0 <= j < i - 1 implies (#[trigger] rest[j]).commit@ != commit by {
            assert(rest[j] == remote[j + 1]);
        }
        lemma_published_at(rest, commit, i - 1);
    }
}

proof fn lemma_published_none(remote: Seq<CommitNotes>, commit: Seq<char>)
    requires
        forall|j: int| 0 <= j < remote.len() ==> (#[trigger] remote[j]).commit@ != commit,
    ensures
        published_names(remote, commit) is None,
    decreases remote.len(),
{
    if remote.len() > 0 {
        assert(remote[0].commit@ != commit);
        let rest = remote.drop_first();
        assert forall|j: int| 0 <= j < rest.len() implies (#[trigger] rest[j]).commit@ != commit by {
            assert(rest[j] == remote[j + 1]);
        }
        lemma_published_none(rest, commit);
    }
}

/// The published measurement names of `commit`, empty where it has none.
fn published_names_of(remote: &[CommitNotes], commit: &str) -> (r: Vec<String>)
    ensures
        strs(r@) == match published_names(remote@, commit@) {
            Some(n) => n,
            None => Seq::empty(),
        },
{
    let mut i: usize = 0;
    while i < remote.len()
        invariant
            i <= remote@.len(),
            forall|j: int| 0 <= j < i ==> (#[trigger] remote@[j]).commit@ != commit@,
        decreases remote@.len() - i,
    {
        if eq_str(remote[i].commit.as_str(), commit) {
            proof {
                lemma_published_at(remote@, commit@, i as int);
            }
            if remote[i].lines.len() == 0 {
                return Vec::new();
            }
            let text = note_text_of(&remote[i]);
            return names_in(text.as_str());
        }
        i = i + 1;
    }
    proof {
        lemma_published_none(remote@, commit@);
    }
    Vec::new()
}

/// The names of the measurements of a pending note that the published note
/// of the same commit does not have, each once.
pub fn truly_pending_names(c: &CommitNotes, remote: &[CommitNotes]) -> (r: Vec<String>)
    ensures
        strs(r@) == truly_pending(*c, remote@),
{
    if c.lines.len() == 0 {
        return Vec::new();
    }
    let text = note_text_of(c);
    let names = names_in(text.as_str());
    let excluded = published_names_of(remote, c.commit.as_str());
    fresh_names_of(&names, &excluded)
}

/// Gathers what is pending: `pending` are the notes of the commits under the
/// ref that holds the local writes, `remote` those under the published ref,
/// and `titles[k]` the title of the commit of `pending[k]`, where it could be
/// read (only looked at where `detailed`). A commit counts where its note has
/// measurements that its published note does not have.
pub fn gather_pending_status(
    detailed: bool,
    pending: &[CommitNotes],
    remote: &[CommitNotes],
    titles: &[Option<String>],
) -> (r: PendingStatus)
    requires
        detailed ==> titles@.len() == pending@.len(),
    ensures
        status_view(r) == status_upto(pending@, titles@, remote@, detailed, pending@.len()),
        r.per_commit is Some <==> detailed,
        strs(r.measurement_names@).no_duplicates(),
        forall|x: Seq<char>|
            #[trigger] strs(r.measurement_names@).contains(x) <==> pending_somewhere(
                pending@,
                remote@,
                pending@.len() as int,
                x,
            ),
{
    let mut commit_count: usize = 0;
    let mut all_names: Vec<String> = Vec::new();
    let mut per_commit: Vec<CommitMeasurements> = Vec::new();
    let mut k: usize = 0;
    proof {
        assert(strs(all_names@) =~= Seq::<Seq<char>>::empty());
        assert(per_commit@.map_values(|c: CommitMeasurements| commit_view(c)) =~= Seq::<
            CommitMeasurementsModel,
        >::empty());
    }
    while k < pending.len()
        invariant
            k <= pending@.len(),
            detailed ==> titles@.len() == pending@.len(),
            commit_count <= k,
            !detailed ==> per_commit@.len() == 0,
            status_view(
                PendingStatus {
                    commit_count,
                    measurement_names: all_names,
                    per_commit: Some(per_commit),
                },
            ) == status_upto(pending@, titles@, remote@, detailed, k as nat),
        decreases pending@.len() - k,
    {
        let ghost s = status_upto(pending@, titles@, remote@, detailed, k as nat);
        let truly = truly_pending_names(&pending[k], remote);
        if truly.len() > 0 {
            commit_count = commit_count + 1;
            let added = fresh_names_of(&truly, &all_names);
            let mut j: usize = 0;
            let ghost before = all_names@;
            while j < added.len()
                invariant
                    j <= added@.len(),
                    strs(all_names@) == strs(before) + strs(added@).take(j as int),
                    all_names@.len() == before.len() + j,
                decreases added@.len() - j,
            {
                let ghost prev = all_names@;
                let nm = copy_str(added[j].as_str());
                all_names.push(nm);
                proof {
                    assert(prev.len() == strs(before).len() + j);
                    assert(all_names@[prev.len() as int] == nm);
                    assert(all_names@[prev.len() as int]@ == strs(added@)[j as int]);
                    assert forall|q: int| 0 <= q < all_names@.len() implies #[trigger] strs(
                        all_names@,
                    )[q] == (strs(before) + strs(added@).take(j + 1))[q] by {
                        if q < prev.len() {
                            assert(all_names@[q] == prev[q]);
                            assert(strs(prev)[q] == (strs(before) + strs(added@).take(j as int))[q]);
                        }
                    }
                    assert(strs(all_names@) =~= strs(before) + strs(added@).take(j + 1));
                }
                j = j + 1;
            }
            proof {
                assert(strs(added@).take(added@.len() as int) =~= strs(added@));
            }
            if detailed {
                match &titles[k] {
                    Some(t) => {
                        let count = truly.len();
                        let entry = CommitMeasurements {
                            commit: copy_str(pending[k].commit.as_str()),
                            title: copy_str(t.as_str()),
                            measurement_names: truly,
                            count,
                        };
                        let ghost pc = per_commit@;
                        let ghost ev = commit_view(entry);
                        per_commit.push(entry);
                        proof {
                            assert(per_commit@.map_values(|c: CommitMeasurements| commit_view(c))
                                =~= pc.map_values(|c: CommitMeasurements| commit_view(c)).push(ev));
                        }
                    },
                    None => {},
                }
            }
        }
        proof {
            assert(pending@[k as int] == pending[k as int]);
        }
        k = k + 1;
    }
    proof {
        if !detailed {
            assert(per_commit@.map_values(|c: CommitMeasurements| commit_view(c)) =~= Seq::<
                CommitMeasurementsModel,
            >::empty());
        }
        lemma_status_names(pending@, titles@, remote@, detailed, pending@.len());
    }
    PendingStatus {
        commit_count,
        measurement_names: all_names,
        per_commit: if detailed {
            Some(per_commit)
        } else {
            None
        },
    }
}

/// Each name on a line of its own after `prefix`.
pub open spec fn bullets(names: Seq<Seq<char>>, prefix: Seq<char>) -> Seq<char>
    decreases names.len(),
{
    if names.len() == 0 {
        Seq::empty()
    } else {
        bullets(names.drop_last(), prefix) + prefix + names.last() + "\n"@
    }
}

/// The first twelve characters of a commit hash, or all of a shorter one.
pub open spec fn short_sha(commit: Seq<char>) -> Seq<char> {
    if commit.len() >= 12 {
        commit.take(12)
    } else {
        commit
    }
}

/// The lines that describe the pending measurements of one commit.
pub open spec fn commit_block(c: CommitMeasurementsModel) -> Seq<char> {
    "  "@ + short_sha(c.commit) + " ("@ + decimal(c.count) + " "@ + plural(
        c.count,
        "measurement"@,
        "measurements"@,
    ) + ") - "@ + c.title + "\n"@ + bullets(c.names, "    - "@)
}

/// The blocks of all commits, in order.
pub open spec fn commit_blocks(cs: Seq<CommitMeasurementsModel>) -> Seq<char>
    decreases cs.len(),
{
    if cs.len() == 0 {
        Seq::empty()
    } else {
        commit_blocks(cs.drop_last()) + commit_block(cs.last())
    }
}

/// The report on what is pending, with the names in `sorted` order, and the
/// per-commit breakdown where `detailed` and `per_commit` is there.
pub open spec fn status_text(
    m: StatusModel,
    sorted: Seq<Seq<char>>,
    detailed: bool,
    has_per_commit: bool,
) -> Seq<char> {
    if m.commit_count == 0 {
        "No pending measurements.\n(use \"git perf add\" or \"git perf measure\" to add measurements)\n"@
    } else {
        "Pending measurements:\n  "@ + decimal(m.commit_count) + " "@ + plural(
            m.commit_count,
            "commit"@,
            "commits"@,
        ) + " with measurements\n  "@ + decimal(m.names.len()) + " unique "@ + plural(
            m.names.len(),
            "measurement"@,
            "measurements"@,
        ) + "\n\n"@ + (if m.names.len() > 0 {
            "Measurement names:\n"@ + bullets(sorted, "  - "@) + "\n"@
        } else {
            Seq::empty()
        }) + (if detailed && has_per_commit {
            "Per-commit breakdown:\n"@ + commit_blocks(m.per_commit) + "\n"@
        } else {
            Seq::empty()
        })
            + "(use \"git perf reset\" to discard pending measurements)\n(use \"git perf push\" to publish measurements)\n"@
    }
}

/// Whether every character is ASCII.
pub open spec fn ascii(s: Seq<char>) -> bool {
    forall|i: int| 0 <= i < s.len() ==> (s[i] as u32) < 128
}

/// Appends each name on a line of its own after `prefix`.
fn push_bullets(out: &mut Vec<char>, names: &Vec<String>, prefix: &str)
    ensures
        final(out)@ == old(out)@ + bullets(strs(names@), prefix@),
{
    let ghost ns = strs(names@);
    let mut i: usize = 0;
    while i < names.len()
        invariant
            i <= names@.len(),
            ns == strs(names@),
            out@ == old(out)@ + bullets(ns.take(i as int), prefix@),
        decreases names@.len() - i,
    {
        let ghost before = out@;
        push_str(out, prefix);
        push_str(out, names[i].as_str());
        push_str(out, "\n");
        proof {
            assert(ns.take(i + 1).drop_last() =~= ns.take(i as int));
            assert(ns.take(i + 1).last() == names@[i as int]@);
            assert(out@ =~= old(out)@ + bullets(ns.take(i + 1), prefix@));
        }
        i = i + 1;
    }
    proof {
        assert(ns.take(names@.len() as int) =~= ns);
    }
}

/// Appends the block of one commit.
fn push_commit_block(out: &mut Vec<char>, c: &CommitMeasurements)
    requires
        ascii(c.commit@),
    ensures
        final(out)@ == old(out)@ + commit_block(commit_view(*c)),
{
    push_str(out, "  ");
    let sha = chars_of(c.commit.as_str());
    let short = if sha.len() >= 12 {
        crate::text::slice_range(sha.as_slice(), 0, 12)
    } else {
        sha
    };
    proof {
        if c.commit@.len() >= 12 {
            assert(short@ =~= c.commit@.take(12));
        }
    }
    crate::git::append(out, short.as_slice());
    push_str(out, " (");
    push_decimal(out, c.count as u64);
    push_str(out, " ");
    push_plural(out, c.count, "measurement", "measurements");
    push_str(out, ") - ");
    push_str(out, c.title.as_str());
    push_str(out, "\n");
    push_bullets(out, &c.measurement_names, "    - ");
    proof {
        assert(final(out)@ =~= old(out)@ + commit_block(commit_view(*c)));
    }
}

/// The report on what is pending, as the status command prints it: counts,
/// the names in ascending order, and, where `detailed`, each commit with the
/// first twelve characters of its hash.
pub fn show_status(status: &PendingStatus, detailed: bool) -> (r: String)
    requires
        status.per_commit matches Some(v) ==> forall|i: int|
            0 <= i < v@.len() ==> ascii((#[trigger] v@[i]).commit@),
    ensures
        exists|sorted: Seq<Seq<char>>|
            sorted_strs(sorted) && sorted.to_multiset() == strs(status.measurement_names@).to_multiset()
                && r@ == status_text(status_view(*status), sorted, detailed, status.per_commit is Some),
{
    let ghost m = status_view(*status);
    let mut out: Vec<char> = Vec::new();
    let sorted = sort_strings(&status.measurement_names);
    if status.commit_count == 0 {
        push_str(
            &mut out,
            "No pending measurements.\n(use \"git perf add\" or \"git perf measure\" to add measurements)\n",
        );
        assert(out@ == status_text(m, strs(sorted@), detailed, status.per_commit is Some));
        return string_of(out.as_slice());
    }
    push_str(&mut out, "Pending measurements:\n  ");
    push_decimal(&mut out, status.commit_count as u64);
    push_str(&mut out, " ");
    push_plural(&mut out, status.commit_count, "commit", "commits");
    push_str(&mut out, " with measurements\n  ");
    push_decimal(&mut out, status.measurement_names.len() as u64);
    push_str(&mut out, " unique ");
    push_plural(&mut out, status.measurement_names.len(), "measurement", "measurements");
    push_str(&mut out, "\n\n");
    let ghost head = out@;
    if status.measurement_names.len() > 0 {
        push_str(&mut out, "Measurement names:\n");
        push_bullets(&mut out, &sorted, "  - ");
        push_str(&mut out, "\n");
    }
    let ghost names_part = out@;
    let ghost mid = if detailed && status.per_commit is Some {
        "Per-commit breakdown:\n"@ + commit_blocks(m.per_commit) + "\n"@
    } else {
        Seq::<char>::empty()
    };
    if detailed {
        match &status.per_commit {
            Some(v) => {
                push_str(&mut out, "Per-commit breakdown:\n");
                let ghost start = out@;
                let mut i: usize = 0;
                while i < v.len()
                    invariant
                        i <= v@.len(),
                        forall|k: int| 0 <= k < v@.len() ==> ascii((#[trigger] v@[k]).commit@),
                        m.per_commit == v@.map_values(|c: CommitMeasurements| commit_view(c)),
                        out@ == start + commit_blocks(m.per_commit.take(i as int)),
                    decreases v@.len() - i,
                {
                    push_commit_block(&mut out, &v[i]);
                    proof {
                        let t = m.per_commit.take(i + 1);
                        assert(t.drop_last() =~= m.per_commit.take(i as int));
                        assert(t.last() == commit_view(v@[i as int]));
                    }
                    i = i + 1;
                }
                proof {
                    assert(m.per_commit.take(v@.len() as int) =~= m.per_commit);
                }
                push_str(&mut out, "\n");
            },
            None => {},
        }
    }
    assert(out@ =~= names_part + mid);
    push_str(
        &mut out,
        "(use \"git perf reset\" to discard pending measurements)\n(use \"git perf push\" to publish measurements)\n",
    );
    proof {
        assert(out@ =~= status_text(m, strs(sorted@), detailed, status.per_commit is Some));
    }
    string_of(out.as_slice())
}

} // verus!
