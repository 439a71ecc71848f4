//! Discarding the measurements that were written locally and not published.
use vstd::prelude::*;
use crate::num::{decimal, push_decimal};
use crate::serialization::join;
use crate::size_ops::note_names;
use crate::status::{CommitNotes, note_text};
use crate::text::{chars_of, copy_str, eq_str, lowercase, push_str, string_of, strs, to_lowercase, trim, trim_chars};

verus! {

/// What a reset will discard.
#[derive(Debug, Clone)]
pub struct ResetPlan {
    /// The write refs that will be deleted.
    pub refs_to_delete: Vec<String>,
    /// The number of measurements that will be removed.
    pub measurement_count: usize,
    /// The number of commits that have them.
    pub commit_count: usize,
}

/// The refs of `refs` other than `keep`, in order.
pub open spec fn refs_except(refs: Seq<Seq<char>>, keep: Seq<char>) -> Seq<Seq<char>>
    decreases refs.len(),
{
    if refs.len() == 0 {
        refs
    } else {
        let prev = refs_except(refs.drop_last(), keep);
        if refs.last() != keep {
            prev.push(refs.last())
        } else {
            prev
        }
    }
}

/// The write refs to delete: all of `refs` but the write ref that was just
/// created, `new_write_ref`, so that measurements written meanwhile survive.
pub fn refs_to_delete(refs: &[String], new_write_ref: &str) -> (r: Vec<String>)
    ensures
        strs(r@) == refs_except(strs(refs@), new_write_ref@),
{
    let ghost rs = strs(refs@);
    let mut out: Vec<String> = Vec::new();
    let mut i: usize = 0;
    while i < refs.len()
        invariant
            i <= refs@.len(),
            rs == strs(refs@),
            strs(out@) == refs_except(rs.take(i as int), new_write_ref@),
        decreases refs@.len() - i,
    {
        proof {
            assert(rs.take(i + 1).drop_last() =~= rs.take(i as int));
            assert(rs.take(i + 1).last() == refs@[i as int]@);
        }
        if !eq_str(refs[i].as_str(), new_write_ref) {
            let ghost prev = out@;
            out.push(copy_str(refs[i].as_str()));
            proof {
                assert(strs(out@) =~= strs(prev).push(refs@[i as int]@));
            }
        }
        i = i + 1;
    }
    proof {
        assert(rs.take(refs@.len() as int) =~= rs);
    }
    out
}

/// The number of measurements and the number of commits with at least one,
/// over the notes of the pending commits.
pub open spec fn pending_counts(notes: Seq<Seq<Seq<char>>>) -> (int, int)
    decreases notes.len(),
{
    if notes.len() == 0 {
        (0, 0)
    } else {
        let prev = pending_counts(notes.drop_last());
        let n = if notes.last().len() == 0 {
            0
        } else {
            note_names(join(notes.last(), seq!['\n'])).len() as int
        };
        if n > 0 {
            (prev.0 + n, prev.1 + 1)
        } else {
            prev
        }
    }
}

/// The lines of each note.
pub open spec fn note_lines(notes: Seq<Vec<String>>) -> Seq<Seq<Seq<char>>> {
    notes.map_values(|l: Vec<String>| strs(l@))
}

proof fn lemma_counts_grow(notes: Seq<Seq<Seq<char>>>, i: int)
    requires
        0 <= i <= notes.len(),
    ensures
        0 <= pending_counts(notes.take(i)).0 <= pending_counts(notes).0,
        0 <= pending_counts(notes.take(i)).1 <= pending_counts(notes).1,
        pending_counts(notes).1 <= notes.len(),
    decreases notes.len() - i,
{
    if i < notes.len() {
        lemma_counts_grow(notes, i + 1);
        assert(notes.take(i + 1).drop_last() =~= notes.take(i));
        lemma_counts_base(notes.take(i));
        let t = notes.take(i + 1);
        assert(pending_counts(t).0 >= pending_counts(t.drop_last()).0);
        assert(pending_counts(t).1 >= pending_counts(t.drop_last()).1);
    } else {
        assert(notes.take(i) =~= notes);
        lemma_counts_base(notes);
    }
}

proof fn lemma_counts_base(notes: Seq<Seq<Seq<char>>>)
    ensures
        0 <= pending_counts(notes).0,
        0 <= pending_counts(notes).1 <= notes.len(),
    decreases notes.len(),
{
    if notes.len() > 0 {
        lemma_counts_base(notes.drop_last());
    }
}

/// Counts the pending measurements and the commits that have any, from the
/// note lines of the commits of the pending history.
pub fn count_all_pending_measurements(notes: &[Vec<String>]) -> (r: (usize, usize))
    requires
        pending_counts(note_lines(notes@)).0 <= usize::MAX,
    ensures
        r.0 == pending_counts(note_lines(notes@)).0,
        r.1 == pending_counts(note_lines(notes@)).1,
{
    let ghost ls = note_lines(notes@);
    let mut total: usize = 0;
    let mut commits: usize = 0;
    let mut i: usize = 0;
    while i < notes.len()
        invariant
            i <= notes@.len(),
            ls == note_lines(notes@),
            ls.len() == notes@.len(),
            pending_counts(ls).0 <= usize::MAX,
            total == pending_counts(ls.take(i as int)).0,
            commits == pending_counts(ls.take(i as int)).1,
        decreases notes@.len() - i,
    {
        proof {
            assert(ls.take(i + 1).drop_last() =~= ls.take(i as int));
            assert(ls.take(i + 1).last() == strs(notes@[i as int]@));
            lemma_counts_grow(ls, i + 1);
        }
        if notes[i].len() > 0 {
            let c = CommitNotes { commit: String::new(), lines: copy_lines(&notes[i]) };
            let text = crate::status::note_text_of(&c);
            let ms = crate::serialization::deserialize(text.as_str());
            proof {
                assert(note_names(text@).len() == ms@.len());
            }
            if ms.len() > 0 {
                total = total + ms.len();
                commits = commits + 1;
            }
        }
        i = i + 1;
    }
    proof {
        assert(ls.take(notes@.len() as int) =~= ls);
    }
    (total, commits)
}

/// A copy of a list of lines.
fn copy_lines(v: &Vec<String>) -> (r: Vec<String>)
    ensures
        strs(r@) == strs(v@),
{
    let mut out: Vec<String> = Vec::new();
    let mut i: usize = 0;
    while i < v.len()
        invariant
            i <= v@.len(),
            out@.len() == i,
            forall|k: int| 0 <= k < i ==> (#[trigger] out@[k])@ == v@[k]@,
        decreases v@.len() - i,
    {
        out.push(copy_str(v[i].as_str()));
        i = i + 1;
    }
    assert(strs(out@) =~= strs(v@));
    out
}

/// Plans a reset: the write refs other than `new_write_ref`, and, where
/// there are any, the counts over `pending`, the note lines of the commits
/// of the pending history.
pub fn plan_reset(refs: &[String], new_write_ref: &str, pending: &[Vec<String>]) -> (r: ResetPlan)
    requires
        pending_counts(note_lines(pending@)).0 <= usize::MAX,
    ensures
        strs(r.refs_to_delete@) == refs_except(strs(refs@), new_write_ref@),
        r.refs_to_delete@.len() == 0 ==> r.measurement_count == 0 && r.commit_count == 0,
        r.refs_to_delete@.len() > 0 ==> r.measurement_count == pending_counts(note_lines(pending@)).0
            && r.commit_count == pending_counts(note_lines(pending@)).1,
{
    let to_delete = refs_to_delete(refs, new_write_ref);
    if to_delete.len() == 0 {
        return ResetPlan { refs_to_delete: Vec::new(), measurement_count: 0, commit_count: 0 };
    }
    let (measurement_count, commit_count) = count_all_pending_measurements(pending);
    ResetPlan { refs_to_delete: to_delete, measurement_count, commit_count }
}

/// `one` when `n` is one, else `many`.
pub open spec fn plural(n: nat, one: Seq<char>, many: Seq<char>) -> Seq<char> {
    if n == 1 {
        one
    } else {
        many
    }
}

/// The text that describes a reset plan.
pub open spec fn reset_plan_spec(refs: nat, measurements: nat, commits: nat) -> Seq<char> {
    "Will reset:\n  "@ + decimal(refs) + " write "@ + plural(refs, "ref"@, "refs"@) + "\n  "@
        + decimal(measurements) + " "@ + plural(measurements, "measurement"@, "measurements"@)
        + "\n  "@ + decimal(commits) + " "@ + plural(commits, "commit"@, "commits"@)
        + " with measurements\n"@
}

/// Appends `one` when `n` is one, else `many`.
pub(crate) fn push_plural(out: &mut Vec<char>, n: usize, one: &str, many: &str)
    ensures
        final(out)@ == old(out)@ + plural(n as nat, one@, many@),
{
    if n == 1 {
        push_str(out, one);
    } else {
        push_str(out, many);
    }
}

/// The description of a reset plan, as the reset command prints it.
pub fn display_reset_plan(plan: &ResetPlan) -> (r: String)
    ensures
        r@ == reset_plan_spec(
            plan.refs_to_delete@.len(),
            plan.measurement_count as nat,
            plan.commit_count as nat,
        ),
{
    let mut out: Vec<char> = Vec::new();
    push_str(&mut out, "Will reset:\n  ");
    push_decimal(&mut out, plan.refs_to_delete.len() as u64);
    push_str(&mut out, " write ");
    push_plural(&mut out, plan.refs_to_delete.len(), "ref", "refs");
    push_str(&mut out, "\n  ");
    push_decimal(&mut out, plan.measurement_count as u64);
    push_str(&mut out, " ");
    push_plural(&mut out, plan.measurement_count, "measurement", "measurements");
    push_str(&mut out, "\n  ");
    push_decimal(&mut out, plan.commit_count as u64);
    push_str(&mut out, " ");
    push_plural(&mut out, plan.commit_count, "commit", "commits");
    push_str(&mut out, " with measurements\n");
    string_of(out.as_slice())
}

/// Whether an answer to the confirmation prompt agrees: `y` or `yes` after
/// trimming and lower-casing.
pub open spec fn confirms(input: Seq<char>) -> bool {
    let a = lowercase(trim(input));
    a == "y"@ || a == "yes"@
}

/// Reads the answer to the confirmation prompt.
pub fn is_confirmation(input: &str) -> (b: bool)
    ensures
        b == confirms(input@),
{
    let c = chars_of(input);
    let t = string_of(trim_chars(c.as_slice()).as_slice());
    let l = to_lowercase(t.as_str());
    eq_str(l.as_str(), "y") || eq_str(l.as_str(), "yes")
}

/// A reset never deletes the write ref that was created for it, and deletes
/// every other write ref.
pub proof fn lemma_reset_spares_new_ref(refs: Seq<Seq<char>>, new_ref: Seq<char>, r: Seq<char>)
    ensures
        !refs_except(refs, new_ref).contains(new_ref),
        refs.contains(r) && r != new_ref ==> refs_except(refs, new_ref).contains(r),
    decreases refs.len(),
{
    if refs.len() > 0 {
        let prev = refs.drop_last();
        lemma_reset_spares_new_ref(prev, new_ref, r);
        let e = refs_except(prev, new_ref);
        if refs.last() != new_ref {
            assert(!e.push(refs.last()).contains(new_ref)) by {
                if e.push(refs.last()).contains(new_ref) {
                    let j = choose|j: int| 0 <= j < e.len() + 1 && e.push(refs.last())[j] == new_ref;
                    if j < e.len() {
                        assert(e[j] == new_ref);
                    }
                }
            }
        }
        if refs.contains(r) && r != new_ref {
            let j = choose|j: int| 0 <= j < refs.len() && refs[j] == r;
            if j < refs.len() - 1 {
                assert(prev[j] == r);
                let q = choose|q: int| 0 <= q < e.len() && e[q] == r;
                if refs.last() != new_ref {
                    assert(e.push(refs.last())[q] == r);
                }
            } else {
                assert(refs.last() == r);
                assert(e.push(refs.last())[e.len() as int] == r);
            }
        }
    }
}

} // verus!
