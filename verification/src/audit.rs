//! Which measurements an audit looks at and which values it compares; the
//! statistics themselves are computed on the values by the caller.
use vstd::prelude::*;
use crate::data::{Commit, MeasurementData, MeasurementModel, kv_superset, kv_view};
use crate::filter::{Filter, matches_any_filter, matches_any_spec, patterns_of};
use crate::stats::{DispersionMethod, ReductionFunc};
use crate::num::{decimal, push_decimal};
use crate::text::{contains_str, copy_str, eq_str, push_str, sort_strings, sorted_strs, string_of, strs};

verus! {

/// The measurements of the commits as plain values.
pub open spec fn commit_models(commits: Seq<Commit>) -> Seq<Seq<MeasurementModel>> {
    commits.map_values(|c: Commit| c.measurements@.map_values(|m: MeasurementData| m@))
}

/// Whether a measurement is selected: its name passes the filters and it
/// carries every selector pair.
pub open spec fn selected(m: MeasurementModel, patterns: Seq<Seq<char>>, selectors: Seq<(Seq<char>, Seq<char>)>) -> bool {
    matches_any_spec(m.name, patterns) && kv_superset(m.key_values, selectors)
}

/// Whether some commit has a selected measurement named `name`.
pub open spec fn name_selected(
    commits: Seq<Seq<MeasurementModel>>,
    name: Seq<char>,
    patterns: Seq<Seq<char>>,
    selectors: Seq<(Seq<char>, Seq<char>)>,
) -> bool {
    exists|c: int, k: int|
        0 <= c < commits.len() && 0 <= k < commits[c].len() && (#[trigger] commits[c][k]).name == name
            && selected(commits[c][k], patterns, selectors)
}

/// Whether one of the first `k` measurements of `row` is a selected one
/// named `name`.
pub open spec fn in_row(
    row: Seq<MeasurementModel>,
    k: int,
    name: Seq<char>,
    patterns: Seq<Seq<char>>,
    selectors: Seq<(Seq<char>, Seq<char>)>,
) -> bool {
    exists|j: int| 0 <= j < k && (#[trigger] row[j]).name == name && selected(row[j], patterns, selectors)
}

/// Whether one of the first `c` commits has a selected measurement named
/// `name`.
pub open spec fn in_commits(
    commits: Seq<Seq<MeasurementModel>>,
    c: int,
    name: Seq<char>,
    patterns: Seq<Seq<char>>,
    selectors: Seq<(Seq<char>, Seq<char>)>,
) -> bool {
    exists|i: int|
        0 <= i < c && in_row(#[trigger] commits[i], commits[i].len() as int, name, patterns, selectors)
}

proof fn lemma_in_row_step(
    row: Seq<MeasurementModel>,
    k: int,
    name: Seq<char>,
    patterns: Seq<Seq<char>>,
    selectors: Seq<(Seq<char>, Seq<char>)>,
)
    requires
        0 <= k < row.len(),
    ensures
        in_row(row, k + 1, name, patterns, selectors) <==> (in_row(row, k, name, patterns, selectors) || (
        row[k].name == name && selected(row[k], patterns, selectors))),
{
    if in_row(row, k + 1, name, patterns, selectors) {
        let j = choose|j: int|
            0 <= j < k + 1 && (#[trigger] row[j]).name == name && selected(row[j], patterns, selectors);
        if j < k {
            assert(in_row(row, k, name, patterns, selectors));
        }
    }
    if in_row(row, k, name, patterns, selectors) {
        let j = choose|j: int|
            0 <= j < k && (#[trigger] row[j]).name == name && selected(row[j], patterns, selectors);
        assert(row[j].name == name);
    }
    if row[k].name == name && selected(row[k], patterns, selectors) {
        assert(row[k].name == name);
    }
}

proof fn lemma_in_commits_step(
    commits: Seq<Seq<MeasurementModel>>,
    c: int,
    name: Seq<char>,
    patterns: Seq<Seq<char>>,
    selectors: Seq<(Seq<char>, Seq<char>)>,
)
    requires
        0 <= c < commits.len(),
    ensures
        in_commits(commits, c + 1, name, patterns, selectors) <==> (in_commits(
            commits,
            c,
            name,
            patterns,
            selectors,
        ) || in_row(commits[c], commits[c].len() as int, name, patterns, selectors)),
{
    if in_commits(commits, c + 1, name, patterns, selectors) {
        let i = choose|i: int|
            0 <= i < c + 1 && in_row(
                #[trigger] commits[i],
                commits[i].len() as int,
                name,
                patterns,
                selectors,
            );
        if i < c {
            assert(in_commits(commits, c, name, patterns, selectors));
        }
    }
    if in_commits(commits, c, name, patterns, selectors) {
        let i = choose|i: int|
            0 <= i < c && in_row(
                #[trigger] commits[i],
                commits[i].len() as int,
                name,
                patterns,
                selectors,
            );
        assert(in_row(commits[i], commits[i].len() as int, name, patterns, selectors));
    }
}

proof fn lemma_in_commits_all(
    commits: Seq<Seq<MeasurementModel>>,
    name: Seq<char>,
    patterns: Seq<Seq<char>>,
    selectors: Seq<(Seq<char>, Seq<char>)>,
)
    ensures
        in_commits(commits, commits.len() as int, name, patterns, selectors) <==> name_selected(
            commits,
            name,
            patterns,
            selectors,
        ),
{
    if name_selected(commits, name, patterns, selectors) {
        let (c, k) = choose|c: int, k: int|
            0 <= c < commits.len() && 0 <= k < commits[c].len() && (#[trigger] commits[c][k]).name
                == name && selected(commits[c][k], patterns, selectors);
        assert(in_row(commits[c], commits[c].len() as int, name, patterns, selectors));
    }
    if in_commits(commits, commits.len() as int, name, patterns, selectors) {
        let i = choose|i: int|
            0 <= i < commits.len() && in_row(
                #[trigger] commits[i],
                commits[i].len() as int,
                name,
                patterns,
                selectors,
            );
        let j = choose|j: int|
            0 <= j < commits[i].len() && (#[trigger] commits[i][j]).name == name && selected(
                commits[i][j],
                patterns,
                selectors,
            );
        assert(commits[i][j].name == name);
    }
}

/// The names of the measurements that an audit covers: every name of a
/// measurement in the commits that passes the filters and carries the
/// selectors, each once, in ascending order.
pub fn discover_matching_measurements(
    commits: &[Commit],
    filters: &[Filter],
    selectors: &[(String, String)],
) -> (r: Vec<String>)
    ensures
        sorted_strs(strs(r@)),
        strs(r@).no_duplicates(),
        forall|n: Seq<char>|
            strs(r@).contains(n) <==> name_selected(
                commit_models(commits@),
                n,
                patterns_of(filters@),
                kv_view(selectors@),
            ),
{
    let ghost cm = commit_models(commits@);
    let ghost ps = patterns_of(filters@);
    let ghost sel = kv_view(selectors@);
    let mut found: Vec<String> = Vec::new();
    let mut c: usize = 0;
    while c < commits.len()
        invariant
            c <= commits@.len(),
            cm == commit_models(commits@),
            ps == patterns_of(filters@),
            sel == kv_view(selectors@),
            strs(found@).no_duplicates(),
            forall|n: Seq<char>| strs(found@).contains(n) <==> in_commits(cm, c as int, n, ps, sel),
        decreases commits@.len() - c,
    {
        let ms = &commits[c].measurements;
        let ghost row = cm[c as int];
        assert(row == ms@.map_values(|m: MeasurementData| m@));
        let mut k: usize = 0;
        while k < ms.len()
            invariant
                c < commits@.len(),
                k <= ms@.len(),
                *ms == commits@[c as int].measurements,
                cm == commit_models(commits@),
                row == cm[c as int],
                row == ms@.map_values(|m: MeasurementData| m@),
                ps == patterns_of(filters@),
                sel == kv_view(selectors@),
                strs(found@).no_duplicates(),
                forall|n: Seq<char>|
                    strs(found@).contains(n) <==> (in_commits(cm, c as int, n, ps, sel) || in_row(
                        row,
                        k as int,
                        n,
                        ps,
                        sel,
                    )),
            decreases ms@.len() - k,
        {
            let m = &ms[k];
            assert(row[k as int] == m@);
            let ghost before = strs(found@);
            let name = m.name.as_str();
            let is_sel = matches_any_filter(name, filters) && m.key_values_is_superset_of(selectors);
            if is_sel {
                if !contains_str(&found, name) {
                    found.push(copy_str(name));
                    proof {
                        assert(strs(found@) =~= before.push(m.name@));
                        assert forall|a: int, b: int|
                            0 <= a < strs(found@).len() && 0 <= b < strs(found@).len() && a != b implies strs(
                            found@,
                        )[a] != strs(found@)[b] by {
                            if a < before.len() && b < before.len() {
                                assert(before[a] != before[b]);
                            } else if a == before.len() {
                                assert(before[b] == strs(found@)[b]);
                            } else {
                                assert(before[a] == strs(found@)[a]);
                            }
                        }
                    }
                }
            }
            proof {
                let now = strs(found@);
                assert forall|n: Seq<char>|
                    now.contains(n) <==> (before.contains(n) || (is_sel && n == m.name@)) by {
                    if now.contains(n) && !before.contains(n) {
                        let j = choose|j: int| 0 <= j < now.len() && now[j] == n;
                        if j < before.len() {
                            assert(before[j] == n);
                        }
                    }
                    if before.contains(n) {
                        let j = choose|j: int| 0 <= j < before.len() && before[j] == n;
                        assert(now[j] == n);
                    }
                    if is_sel && n == m.name@ && !before.contains(n) {
                        assert(now[before.len() as int] == n);
                    }
                }
                assert forall|n: Seq<char>|
                    now.contains(n) <==> (in_commits(cm, c as int, n, ps, sel) || in_row(
                        row,
                        k + 1,
                        n,
                        ps,
                        sel,
                    )) by {
                    lemma_in_row_step(row, k as int, n, ps, sel);
                }
            }
            k = k + 1;
        }
        proof {
            assert forall|n: Seq<char>|
                strs(found@).contains(n) <==> in_commits(cm, c + 1, n, ps, sel) by {
                lemma_in_commits_step(cm, c as int, n, ps, sel);
            }
        }
        c = c + 1;
    }
    let r = sort_strings(&found);
    proof {
        let f = strs(found@);
        let s = strs(r@);
        assert forall|n: Seq<char>|
            s.contains(n) <==> name_selected(cm, n, ps, sel) by {
            vstd::seq_lib::to_multiset_contains(s, n);
            vstd::seq_lib::to_multiset_contains(f, n);
            lemma_in_commits_all(cm, n, ps, sel);
        }
        assert(s.no_duplicates()) by {
            f.lemma_multiset_has_no_duplicates();
            s.lemma_multiset_has_no_duplicates_conv();
        }
    }
    r
}

/// Why an audit has nothing to look at.
#[derive(Debug, Clone, Copy, PartialEq, Eq)]
pub enum AuditSelectionError {
    /// There is no commit at all.
    NoCommitAtHead,
    /// No commit has any measurement.
    NoMeasurementForHead,
    /// There are measurements, but none matches the patterns.
    NoMatchingMeasurements,
}

/// Whether some commit has a measurement.
pub open spec fn any_measurement(commits: Seq<Seq<MeasurementModel>>) -> bool {
    exists|c: int| 0 <= c < commits.len() && (#[trigger] commits[c]).len() > 0
}

/// The measurements that an audit of the commits covers, as
/// [`discover_matching_measurements`] finds them; where it finds none, why.
pub fn select_audit_measurements(
    commits: &[Commit],
    filters: &[Filter],
    selectors: &[(String, String)],
) -> (r: Result<Vec<String>, AuditSelectionError>)
    ensures
        match r {
            Ok(v) => v@.len() > 0 && sorted_strs(strs(v@)) && strs(v@).no_duplicates() && forall|n: Seq<char>|
                strs(v@).contains(n) <==> name_selected(
                    commit_models(commits@),
                    n,
                    patterns_of(filters@),
                    kv_view(selectors@),
                ),
            Err(e) => (forall|n: Seq<char>|
                !name_selected(
                    commit_models(commits@),
                    n,
                    patterns_of(filters@),
                    kv_view(selectors@),
                )) && (e == AuditSelectionError::NoCommitAtHead <==> commits@.len() == 0) && (e
                == AuditSelectionError::NoMeasurementForHead <==> (commits@.len() > 0 && !any_measurement(
                commit_models(commits@),
            ))) && (e == AuditSelectionError::NoMatchingMeasurements <==> any_measurement(
                commit_models(commits@),
            )),
        },
{
    let found = discover_matching_measurements(commits, filters, selectors);
    if found.len() > 0 {
        return Ok(found);
    }
    proof {
        assert forall|n: Seq<char>|
            !name_selected(commit_models(commits@), n, patterns_of(filters@), kv_view(selectors@)) by {
            if name_selected(commit_models(commits@), n, patterns_of(filters@), kv_view(selectors@)) {
                assert(strs(found@).contains(n));
            }
        }
    }
    if commits.len() == 0 {
        return Err(AuditSelectionError::NoCommitAtHead);
    }
    let ghost cm = commit_models(commits@);
    let mut c: usize = 0;
    while c < commits.len()
        invariant
            c <= commits@.len(),
            cm == commit_models(commits@),
            commits@.len() > 0,
            forall|j: int| 0 <= j < c ==> (#[trigger] cm[j]).len() == 0,
            forall|n: Seq<char>|
                !name_selected(commit_models(commits@), n, patterns_of(filters@), kv_view(selectors@)),
        decreases commits@.len() - c,
    {
        if commits[c].measurements.len() > 0 {
            assert(cm[c as int].len() > 0);
            assert(any_measurement(cm));
            return Err(AuditSelectionError::NoMatchingMeasurements);
        }
        assert(cm[c as int].len() == 0);
        c = c + 1;
    }
    Err(AuditSelectionError::NoMeasurementForHead)
}

/// Whether `max_count` (taken as a `u16`, as the check does) leaves fewer
/// commits than the audit needs.
pub fn max_count_limits(max_count: usize, min_count: u16) -> (b: bool)
    ensures
        b == ((max_count as u16) < min_count),
{
    (max_count as u16) < min_count
}

/// Why an audit with `count` historical values is skipped, when it needs
/// `min_count`: `Only <count> historical measurement[s] found. Less than
/// requested min_measurements of <min_count>. Skipping test.`
pub open spec fn skip_reason_text(count: nat, min_count: nat) -> Seq<char> {
    "Only "@ + decimal(count) + " historical measurement"@ + (if count == 1 {
        ""@
    } else {
        "s"@
    }) + " found. Less than requested min_measurements of "@ + decimal(min_count)
        + ". Skipping test."@
}

/// Decides whether an audit is skipped: it is when there are fewer
/// historical values than it needs, and the reason is then returned.
pub fn skip_reason(count: usize, min_count: u16) -> (r: Option<String>)
    ensures
        r is Some <==> count < min_count,
        r matches Some(t) ==> t@ == skip_reason_text(count as nat, min_count as nat),
{
    if count >= min_count as usize {
        return None;
    }
    let mut out: Vec<char> = Vec::new();
    let c64 = count as u64;
    assert(c64 as nat == count as nat);
    push_str(&mut out, "Only ");
    push_decimal(&mut out, c64);
    push_str(&mut out, " historical measurement");
    let ghost head = out@;
    if count != 1 {
        push_str(&mut out, "s");
    }
    assert(out@ =~= head + (if count == 1 { ""@ } else { "s"@ })) by {
        if count == 1 {
            assert(""@.len() == 0) by {
                reveal_strlit("");
            }
        }
    }
    push_str(&mut out, " found. Less than requested min_measurements of ");
    push_decimal(&mut out, min_count as u64);
    push_str(&mut out, ". Skipping test.");
    assert(out@ =~= skip_reason_text(count as nat, min_count as nat));
    Some(string_of(out.as_slice()))
}

/// The number of measurements an audit needs: from the command line, else
/// from the configuration, else two.
pub fn resolve_min_count(cli: Option<u16>, configured: Option<u16>) -> (r: u16)
    ensures
        r == match cli {
            Some(c) => c,
            None => match configured {
                Some(c) => c,
                None => 2u16,
            },
        },
{
    match cli {
        Some(c) => c,
        None => match configured {
            Some(c) => c,
            None => 2,
        },
    }
}

/// How the measurements of a commit are summarized: from the command line,
/// else from the configuration, else their minimum.
pub fn resolve_summarize_by(cli: Option<ReductionFunc>, configured: Option<ReductionFunc>) -> (r:
    ReductionFunc)
    ensures
        r == match cli {
            Some(c) => c,
            None => match configured {
                Some(c) => c,
                None => ReductionFunc::Min,
            },
        },
{
    match cli {
        Some(c) => c,
        None => match configured {
            Some(c) => c,
            None => ReductionFunc::Min,
        },
    }
}

/// The dispersion method of an audit: from the command line, else the
/// configured one (which is the standard deviation where none is set).
pub fn resolve_dispersion_method(cli: Option<DispersionMethod>, configured: DispersionMethod) -> (r:
    DispersionMethod)
    ensures
        r == match cli {
            Some(c) => c,
            None => configured,
        },
{
    match cli {
        Some(c) => c,
        None => configured,
    }
}

} // verus!
