//! What a report section shows: which commits, which measurements, and how
//! they are split into traces. Drawing the traces is left to the caller.
use vstd::prelude::*;
use crate::audit::{commit_models, selected};
use crate::data::{Commit, KeyValue, MeasurementData, MeasurementModel, kv_get, kv_lookup, kv_view};
use crate::filter::{Filter, FilterError, compile_filters, matches_any_filter, matches_any_spec, patterns_of};
use crate::reporting_config::SectionConfig;
use crate::text::{copy_str, eq_str, strs};

verus! {

/// The elements of `s`, each once, in the order of their first occurrence.
pub open spec fn distinct<A>(s: Seq<A>) -> Seq<A>
    decreases s.len(),
{
    if s.len() == 0 {
        s
    } else {
        let prev = distinct(s.drop_last());
        if prev.contains(s.last()) {
            prev
        } else {
            prev.push(s.last())
        }
    }
}

/// The number of commits a section covers: its depth where that is not
/// more than there are, else all.
pub open spec fn section_commit_count(available: nat, depth: Option<usize>) -> nat {
    match depth {
        Some(d) => if d <= available {
            d as nat
        } else {
            available
        },
        None => available,
    }
}

/// The positions of the measurements of a commit that the section selects.
pub open spec fn selected_positions(
    ms: Seq<MeasurementModel>,
    patterns: Seq<Seq<char>>,
    kvs: Seq<KeyValue>,
) -> Seq<int>
    decreases ms.len(),
{
    if ms.len() == 0 {
        Seq::empty()
    } else {
        let prev = selected_positions(ms.drop_last(), patterns, kvs);
        if selected(ms.last(), patterns, kvs) {
            prev.push(ms.len() - 1)
        } else {
            prev
        }
    }
}

/// The values of the grouping keys of a measurement, where it has them all.
pub open spec fn group_key(m: MeasurementModel, keys: Seq<Seq<char>>) -> Option<Seq<Seq<char>>>
    decreases keys.len(),
{
    if keys.len() == 0 {
        Some(Seq::empty())
    } else {
        match (group_key(m, keys.drop_last()), kv_get(m.key_values, keys.last())) {
            (Some(prev), Some(v)) => Some(prev.push(v)),
            _ => None,
        }
    }
}

/// Whether a measurement belongs to the trace of `name` and group `values`:
/// it has the name, and, where there is a grouping, the value of each key.
pub open spec fn in_trace(m: MeasurementModel, name: Seq<char>, keys: Seq<Seq<char>>, values: Seq<Seq<char>>) -> bool {
    m.name == name && (values.len() == 0 || forall|i: int|
        0 <= i < keys.len() && i < values.len() ==> kv_get(m.key_values, #[trigger] keys[i]) == Some(
            values[i],
        ))
}

/// The positions of the measurements of a commit in the trace.
pub open spec fn trace_positions(
    ms: Seq<MeasurementModel>,
    sel: Seq<int>,
    name: Seq<char>,
    keys: Seq<Seq<char>>,
    values: Seq<Seq<char>>,
) -> Seq<int>
    decreases sel.len(),
{
    if sel.len() == 0 {
        Seq::empty()
    } else {
        let prev = trace_positions(ms, sel.drop_last(), name, keys, values);
        if in_trace(ms[sel.last()], name, keys, values) {
            prev.push(sel.last())
        } else {
            prev
        }
    }
}

/// The names of the selected measurements of the first `n` commits, in
/// order, with repetitions.
pub open spec fn flat_names(
    commits: Seq<Seq<MeasurementModel>>,
    n: int,
    patterns: Seq<Seq<char>>,
    kvs: Seq<KeyValue>,
) -> Seq<Seq<char>>
    decreases n,
{
    if n <= 0 {
        Seq::empty()
    } else {
        flat_names(commits, n - 1, patterns, kvs) + selected_positions(
            commits[n - 1],
            patterns,
            kvs,
        ).map_values(|j: int| commits[n - 1][j].name)
    }
}

/// The grouping values of the selected measurements named `name` of the
/// first `n` commits that have all the keys, in order, with repetitions.
pub open spec fn flat_groups(
    commits: Seq<Seq<MeasurementModel>>,
    n: int,
    patterns: Seq<Seq<char>>,
    kvs: Seq<KeyValue>,
    name: Seq<char>,
    keys: Seq<Seq<char>>,
) -> Seq<Seq<Seq<char>>>
    decreases n,
{
    if n <= 0 {
        Seq::empty()
    } else {
        flat_groups(commits, n - 1, patterns, kvs, name, keys) + row_groups(
            commits[n - 1],
            selected_positions(commits[n - 1], patterns, kvs),
            name,
            keys,
        )
    }
}

/// The grouping values of the measurements at `sel` named `name` that have
/// all the keys.
pub open spec fn row_groups(ms: Seq<MeasurementModel>, sel: Seq<int>, name: Seq<char>, keys: Seq<Seq<char>>) -> Seq<
    Seq<Seq<char>>,
>
    decreases sel.len(),
{
    if sel.len() == 0 {
        Seq::empty()
    } else {
        let prev = row_groups(ms, sel.drop_last(), name, keys);
        let m = ms[sel.last()];
        if m.name == name && group_key(m, keys) is Some {
            prev.push(group_key(m, keys).unwrap())
        } else {
            prev
        }
    }
}

/// One trace of a section: a measurement name, the values of the grouping
/// keys, and for each covered commit the positions of its measurements that
/// the trace draws.
#[derive(Debug, Clone)]
pub struct TraceGroup {
    pub name: String,
    pub group_value: Vec<String>,
    pub members: Vec<Vec<usize>>,
}

/// What a section shows.
#[derive(Debug, Clone)]
pub struct SectionPlan {
    /// How many of the commits, from the newest, the section covers.
    pub commit_count: usize,
    /// The traces, by measurement name in the order of first appearance,
    /// then by grouping values in the order of first appearance.
    pub groups: Vec<TraceGroup>,
}

/// Why a section cannot be shown.
#[derive(Debug, Clone)]
pub enum SectionPlanError {
    /// The measurement filter of the section is not a valid regex.
    InvalidFilter(String),
    /// The section splits by keys that no measurement of `name` has all of.
    NoMeasurementHasKeys { section: String, name: String },
}

/// Positions as integers.
pub open spec fn positions(v: Seq<usize>) -> Seq<int> {
    v.map_values(|j: usize| j as int)
}

/// The positions of the selected measurements of one commit.
fn select_positions(ms: &Vec<MeasurementData>, filters: &[Filter], kvs: &[(String, String)]) -> (r:
    Vec<usize>)
    ensures
        positions(r@) == selected_positions(
            ms@.map_values(|m: MeasurementData| m@),
            patterns_of(filters@),
            kv_view(kvs@),
        ),
        forall|i: int| 0 <= i < r@.len() ==> r@[i] < ms@.len(),
{
    let ghost mv = ms@.map_values(|m: MeasurementData| m@);
    let mut out: Vec<usize> = Vec::new();
    let mut j: usize = 0;
    while j < ms.len()
        invariant
            j <= ms@.len(),
            mv == ms@.map_values(|m: MeasurementData| m@),
            positions(out@) == selected_positions(mv.take(j as int), patterns_of(filters@), kv_view(kvs@)),
            forall|i: int| 0 <= i < out@.len() ==> out@[i] < j,
        decreases ms@.len() - j,
    {
        proof {
            assert(mv.take(j + 1).drop_last() =~= mv.take(j as int));
            assert(mv.take(j + 1).last() == ms@[j as int]@);
        }
        let m = &ms[j];
        if matches_any_filter(m.name.as_str(), filters) && m.key_values_is_superset_of(kvs) {
            let ghost before = positions(out@);
            out.push(j);
            proof {
                assert(positions(out@) =~= before.push(j as int));
            }
        }
        j = j + 1;
    }
    proof {
        assert(mv.take(ms@.len() as int) =~= mv);
    }
    out
}

proof fn lemma_distinct_push<A>(s: Seq<A>, x: A)
    ensures
        distinct(s.push(x)) == (if distinct(s).contains(x) {
            distinct(s)
        } else {
            distinct(s).push(x)
        }),
{
    assert(s.push(x).drop_last() =~= s);
}

/// The names of the measurements at `sel` of a commit.
pub open spec fn row_names(ms: Seq<MeasurementModel>, sel: Seq<int>) -> Seq<Seq<char>> {
    sel.map_values(|j: int| ms[j].name)
}

/// The distinct names of the selected measurements of the first `n`
/// commits, in the order of first appearance; `rel[c]` are the selected
/// positions of commit `c`.
fn section_names(commits: &[Commit], n: usize, rel: &Vec<Vec<usize>>, Ghost(ps): Ghost<Seq<Seq<char>>>, Ghost(kv): Ghost<Seq<KeyValue>>) -> (r: Vec<String>)
    requires
        n <= commits@.len(),
        rel@.len() == n,
        forall|c: int|
            0 <= c < n ==> positions((#[trigger] rel@[c])@) == selected_positions(
                commit_models(commits@)[c],
                ps,
                kv,
            ),
        forall|c: int, i: int|
            0 <= c < n && 0 <= i < rel@[c]@.len() ==> (#[trigger] rel@[c]@[i]) < commits@[c].measurements@.len(),
    ensures
        strs(r@) == distinct(flat_names(commit_models(commits@), n as int, ps, kv)),
{
    let ghost cm = commit_models(commits@);
    let mut acc: Vec<String> = Vec::new();
    let mut c: usize = 0;
    while c < n
        invariant
            c <= n,
            n <= commits@.len(),
            rel@.len() == n,
            cm == commit_models(commits@),
            forall|c2: int|
                0 <= c2 < n ==> positions((#[trigger] rel@[c2])@) == selected_positions(cm[c2], ps, kv),
            forall|c2: int, i: int|
                0 <= c2 < n && 0 <= i < rel@[c2]@.len() ==> (#[trigger] rel@[c2]@[i]) < commits@[c2].measurements@.len(),
            strs(acc@) == distinct(flat_names(cm, c as int, ps, kv)),
        decreases n - c,
    {
        let row = &rel[c];
        let ms = &commits[c].measurements;
        let ghost base = flat_names(cm, c as int, ps, kv);
        let ghost part = row_names(cm[c as int], positions(row@));
        assert(cm[c as int] == ms@.map_values(|m: MeasurementData| m@));
        let mut k: usize = 0;
        while k < row.len()
            invariant
                c < n,
                n <= commits@.len(),
                *row == rel@[c as int],
                *ms == commits@[c as int].measurements,
                cm == commit_models(commits@),
                cm[c as int] == ms@.map_values(|m: MeasurementData| m@),
                forall|i: int| 0 <= i < row@.len() ==> (#[trigger] row@[i]) < ms@.len(),
                part == row_names(cm[c as int], positions(row@)),
                k <= row@.len(),
                strs(acc@) == distinct(base + part.take(k as int)),
            decreases row@.len() - k,
        {
            let j = row[k];
            let name = ms[j].name.as_str();
            proof {
                assert(part[k as int] == cm[c as int][j as int].name);
                assert(cm[c as int][j as int] == ms@[j as int]@);
                assert(base + part.take(k + 1) =~= (base + part.take(k as int)).push(part[k as int]));
                lemma_distinct_push(base + part.take(k as int), part[k as int]);
            }
            if !crate::text::contains_str(&acc, name) {
                let ghost before = strs(acc@);
                acc.push(copy_str(name));
                proof {
                    assert(strs(acc@) =~= before.push(name@));
                }
            }
            k = k + 1;
        }
        proof {
            assert(part.take(row@.len() as int) =~= part);
            assert(flat_names(cm, c + 1, ps, kv) == base + part);
        }
        c = c + 1;
    }
    acc
}

/// The values of the grouping keys of a measurement, where it has them all.
fn group_key_of(m: &MeasurementData, keys: &Vec<String>) -> (r: Option<Vec<String>>)
    ensures
        match group_key(m@, strs(keys@)) {
            Some(g) => r matches Some(v) && strs(v@) == g,
            None => r is None,
        },
{
    let ghost ks = strs(keys@);
    let mut out: Vec<String> = Vec::new();
    let mut i: usize = 0;
    while i < keys.len()
        invariant
            i <= keys@.len(),
            ks == strs(keys@),
            group_key(m@, ks.take(i as int)) == Some(strs(out@)),
        decreases keys@.len() - i,
    {
        proof {
            assert(ks.take(i + 1).drop_last() =~= ks.take(i as int));
            assert(ks.take(i + 1).last() == keys@[i as int]@);
        }
        match kv_lookup(&m.key_values, &keys[i]) {
            Some(idx) => {
                let ghost before = strs(out@);
                out.push(copy_str(m.key_values[idx].1.as_str()));
                proof {
                    assert(strs(out@) =~= before.push(m.key_values@[idx as int].1@));
                }
            },
            None => {
                proof {
                    assert(ks.take(keys@.len() as int) =~= ks);
                    lemma_group_key_prefix_none(m@, ks, i as int + 1);
                }
                return None;
            },
        }
        i = i + 1;
    }
    proof {
        assert(ks.take(keys@.len() as int) =~= ks);
    }
    Some(out)
}

proof fn lemma_group_key_prefix_none(m: MeasurementModel, keys: Seq<Seq<char>>, i: int)
    requires
        0 < i <= keys.len(),
        group_key(m, keys.take(i)) is None,
    ensures
        group_key(m, keys) is None,
    decreases keys.len() - i,
{
    if i < keys.len() {
        assert(keys.take(i + 1).drop_last() =~= keys.take(i));
        lemma_group_key_prefix_none(m, keys, i + 1);
    } else {
        assert(keys.take(i) =~= keys);
    }
}

/// Whether two lists of strings are equal.
fn strs_equal(a: &Vec<String>, b: &Vec<String>) -> (r: bool)
    ensures
        r == (strs(a@) == strs(b@)),
{
    if a.len() != b.len() {
        proof {
            assert(strs(a@).len() != strs(b@).len());
        }
        return false;
    }
    let mut i: usize = 0;
    while i < a.len()
        invariant
            i <= a@.len(),
            a@.len() == b@.len(),
            forall|k: int| 0 <= k < i ==> a@[k]@ == b@[k]@,
        decreases a@.len() - i,
    {
        if !eq_str(a[i].as_str(), b[i].as_str()) {
            proof {
                assert(strs(a@)[i as int] != strs(b@)[i as int]);
            }
            return false;
        }
        i = i + 1;
    }
    proof {
        assert(strs(a@) =~= strs(b@));
    }
    true
}

/// Whether `g` is one of `v`.
fn contains_group(v: &Vec<Vec<String>>, g: &Vec<String>) -> (r: bool)
    ensures
        r == v@.map_values(|x: Vec<String>| strs(x@)).contains(strs(g@)),
{
    let ghost vv = v@.map_values(|x: Vec<String>| strs(x@));
    let mut i: usize = 0;
    while i < v.len()
        invariant
            i <= v@.len(),
            vv == v@.map_values(|x: Vec<String>| strs(x@)),
            forall|k: int| 0 <= k < i ==> vv[k] != strs(g@),
        decreases v@.len() - i,
    {
        if strs_equal(&v[i], g) {
            proof {
                assert(vv[i as int] == strs(g@));
            }
            return true;
        }
        i = i + 1;
    }
    false
}

/// The distinct grouping values of the selected measurements named `name`
/// of the first `n` commits, in the order of first appearance.
fn group_values(
    commits: &[Commit],
    n: usize,
    rel: &Vec<Vec<usize>>,
    name: &str,
    keys: &Vec<String>,
    Ghost(ps): Ghost<Seq<Seq<char>>>,
    Ghost(kv): Ghost<Seq<KeyValue>>,
) -> (r: Vec<Vec<String>>)
    requires
        n <= commits@.len(),
        rel@.len() == n,
        forall|c: int|
            0 <= c < n ==> positions((#[trigger] rel@[c])@) == selected_positions(
                commit_models(commits@)[c],
                ps,
                kv,
            ),
        forall|c: int, i: int|
            0 <= c < n && 0 <= i < rel@[c]@.len() ==> (#[trigger] rel@[c]@[i]) < commits@[c].measurements@.len(),
    ensures
        r@.map_values(|x: Vec<String>| strs(x@)) == distinct(
            flat_groups(commit_models(commits@), n as int, ps, kv, name@, strs(keys@)),
        ),
{
    let ghost cm = commit_models(commits@);
    let ghost ks = strs(keys@);
    let mut acc: Vec<Vec<String>> = Vec::new();
    let mut c: usize = 0;
    while c < n
        invariant
            c <= n,
            n <= commits@.len(),
            rel@.len() == n,
            cm == commit_models(commits@),
            ks == strs(keys@),
            forall|c2: int|
                0 <= c2 < n ==> positions((#[trigger] rel@[c2])@) == selected_positions(cm[c2], ps, kv),
            forall|c2: int, i: int|
                0 <= c2 < n && 0 <= i < rel@[c2]@.len() ==> (#[trigger] rel@[c2]@[i]) < commits@[c2].measurements@.len(),
            acc@.map_values(|x: Vec<String>| strs(x@)) == distinct(flat_groups(cm, c as int, ps, kv, name@, ks)),
        decreases n - c,
    {
        let row = &rel[c];
        let ms = &commits[c].measurements;
        let ghost base = flat_groups(cm, c as int, ps, kv, name@, ks);
        let ghost sel = positions(row@);
        assert(cm[c as int] == ms@.map_values(|m: MeasurementData| m@));
        let mut k: usize = 0;
        while k < row.len()
            invariant
                c < n,
                n <= commits@.len(),
                *row == rel@[c as int],
                *ms == commits@[c as int].measurements,
                cm == commit_models(commits@),
                ks == strs(keys@),
                cm[c as int] == ms@.map_values(|m: MeasurementData| m@),
                forall|i: int| 0 <= i < row@.len() ==> (#[trigger] row@[i]) < ms@.len(),
                sel == positions(row@),
                k <= row@.len(),
                acc@.map_values(|x: Vec<String>| strs(x@)) == distinct(
                    base + row_groups(cm[c as int], sel.take(k as int), name@, ks),
                ),
            decreases row@.len() - k,
        {
            let j = row[k];
            let m = &ms[j];
            let ghost prev_rows = row_groups(cm[c as int], sel.take(k as int), name@, ks);
            proof {
                assert(sel.take(k + 1).drop_last() =~= sel.take(k as int));
                assert(sel.take(k + 1).last() == j as int);
                assert(cm[c as int][j as int] == m@);
            }
            if eq_str(m.name.as_str(), name) {
                match group_key_of(m, keys) {
                    Some(g) => {
                        proof {
                            let gv = strs(g@);
                            assert(row_groups(cm[c as int], sel.take(k + 1), name@, ks) == prev_rows.push(gv));
                            assert(base + prev_rows.push(gv) =~= (base + prev_rows).push(gv));
                            lemma_distinct_push(base + prev_rows, gv);
                        }
                        if !contains_group(&acc, &g) {
                            let ghost before = acc@.map_values(|x: Vec<String>| strs(x@));
                            let ghost gv = strs(g@);
                            acc.push(g);
                            proof {
                                assert(acc@.map_values(|x: Vec<String>| strs(x@)) =~= before.push(gv));
                            }
                        }
                    },
                    None => {},
                }
            }
            k = k + 1;
        }
        proof {
            assert(sel.take(row@.len() as int) =~= sel);
            assert(flat_groups(cm, c + 1, ps, kv, name@, ks) == base + row_groups(
                cm[c as int],
                sel,
                name@,
                ks,
            ));
        }
        c = c + 1;
    }
    acc
}

/// Whether a measurement belongs to a trace.
fn in_trace_exec(m: &MeasurementData, name: &str, keys: &Vec<String>, values: &Vec<String>) -> (r: bool)
    ensures
        r == in_trace(m@, name@, strs(keys@), strs(values@)),
{
    if !eq_str(m.name.as_str(), name) {
        return false;
    }
    if values.len() == 0 {
        return true;
    }
    let ghost ks = strs(keys@);
    let ghost vs = strs(values@);
    let mut i: usize = 0;
    while i < keys.len() && i < values.len()
        invariant
            i <= keys@.len(),
            i <= values@.len(),
            ks == strs(keys@),
            vs == strs(values@),
            forall|q: int| 0 <= q < i ==> kv_get(m@.key_values, #[trigger] ks[q]) == Some(vs[q]),
        decreases keys@.len() - i,
    {
        match kv_lookup(&m.key_values, &keys[i]) {
            Some(idx) => {
                if !eq_str(m.key_values[idx].1.as_str(), values[i].as_str()) {
                    proof {
                        assert(kv_get(m@.key_values, ks[i as int]) != Some(vs[i as int]));
                    }
                    return false;
                }
            },
            None => {
                proof {
                    assert(kv_get(m@.key_values, ks[i as int]) != Some(vs[i as int]));
                }
                return false;
            },
        }
        i = i + 1;
    }
    true
}

/// A trace as plain values: name, grouping values, and the positions of its
/// measurements in each covered commit.
pub type TraceModel = (Seq<char>, Seq<Seq<char>>, Seq<Seq<int>>);

/// The plain values of a trace.
pub open spec fn trace_view(t: TraceGroup) -> TraceModel {
    (t.name@, strs(t.group_value@), t.members@.map_values(|v: Vec<usize>| positions(v@)))
}

/// The grouping values of the traces of `name`: one trace without values
/// where there are no grouping keys.
pub open spec fn groups_of_name(
    commits: Seq<Seq<MeasurementModel>>,
    n: int,
    patterns: Seq<Seq<char>>,
    kvs: Seq<KeyValue>,
    name: Seq<char>,
    keys: Seq<Seq<char>>,
) -> Seq<Seq<Seq<char>>> {
    if keys.len() == 0 {
        seq![Seq::empty()]
    } else {
        distinct(flat_groups(commits, n, patterns, kvs, name, keys))
    }
}

/// The positions of the measurements of each of the first `n` commits that a
/// trace draws.
pub open spec fn trace_members(
    commits: Seq<Seq<MeasurementModel>>,
    n: int,
    patterns: Seq<Seq<char>>,
    kvs: Seq<KeyValue>,
    name: Seq<char>,
    keys: Seq<Seq<char>>,
    values: Seq<Seq<char>>,
) -> Seq<Seq<int>> {
    Seq::new(
        n as nat,
        |c: int|
            trace_positions(
                commits[c],
                selected_positions(commits[c], patterns, kvs),
                name,
                keys,
                values,
            ),
    )
}

/// The traces of the first `i` names; the first name without any
/// measurement that has all the grouping keys is an error.
pub open spec fn traces_upto(
    commits: Seq<Seq<MeasurementModel>>,
    n: int,
    patterns: Seq<Seq<char>>,
    kvs: Seq<KeyValue>,
    names: Seq<Seq<char>>,
    keys: Seq<Seq<char>>,
    i: int,
) -> Result<Seq<TraceModel>, Seq<char>>
    decreases i,
{
    if i <= 0 {
        Ok(Seq::empty())
    } else {
        match traces_upto(commits, n, patterns, kvs, names, keys, i - 1) {
            Err(e) => Err(e),
            Ok(prev) => {
                let name = names[i - 1];
                let gs = groups_of_name(commits, n, patterns, kvs, name, keys);
                if gs.len() == 0 {
                    Err(name)
                } else {
                    Ok(
                        prev + gs.map_values(
                            |g: Seq<Seq<char>>|
                                (name, g, trace_members(commits, n, patterns, kvs, name, keys, g)),
                        ),
                    )
                }
            },
        }
    }
}

proof fn lemma_traces_err(
    commits: Seq<Seq<MeasurementModel>>,
    n: int,
    patterns: Seq<Seq<char>>,
    kvs: Seq<KeyValue>,
    names: Seq<Seq<char>>,
    keys: Seq<Seq<char>>,
    i: int,
    j: int,
)
    requires
        0 < i <= j,
        traces_upto(commits, n, patterns, kvs, names, keys, i) is Err,
    ensures
        traces_upto(commits, n, patterns, kvs, names, keys, j) == traces_upto(
            commits,
            n,
            patterns,
            kvs,
            names,
            keys,
            i,
        ),
    decreases j - i,
{
    if j > i {
        lemma_traces_err(commits, n, patterns, kvs, names, keys, i, j - 1);
    }
}

/// The positions of the measurements of each covered commit in one trace.
fn members_of(
    commits: &[Commit],
    n: usize,
    rel: &Vec<Vec<usize>>,
    name: &str,
    keys: &Vec<String>,
    values: &Vec<String>,
    Ghost(ps): Ghost<Seq<Seq<char>>>,
    Ghost(kv): Ghost<Seq<KeyValue>>,
) -> (r: Vec<Vec<usize>>)
    requires
        n <= commits@.len(),
        rel@.len() == n,
        forall|c: int|
            0 <= c < n ==> positions((#[trigger] rel@[c])@) == selected_positions(
                commit_models(commits@)[c],
                ps,
                kv,
            ),
        forall|c: int, i: int|
            0 <= c < n && 0 <= i < rel@[c]@.len() ==> (#[trigger] rel@[c]@[i]) < commits@[c].measurements@.len(),
    ensures
        r@.map_values(|v: Vec<usize>| positions(v@)) == trace_members(
            commit_models(commits@),
            n as int,
            ps,
            kv,
            name@,
            strs(keys@),
            strs(values@),
        ),
{
    let ghost cm = commit_models(commits@);
    let ghost ks = strs(keys@);
    let ghost vs = strs(values@);
    let ghost target = trace_members(cm, n as int, ps, kv, name@, ks, vs);
    let mut out: Vec<Vec<usize>> = Vec::new();
    let mut c: usize = 0;
    while c < n
        invariant
            c <= n,
            n <= commits@.len(),
            rel@.len() == n,
            cm == commit_models(commits@),
            ks == strs(keys@),
            vs == strs(values@),
            target == trace_members(cm, n as int, ps, kv, name@, ks, vs),
            forall|c2: int|
                0 <= c2 < n ==> positions((#[trigger] rel@[c2])@) == selected_positions(cm[c2], ps, kv),
            forall|c2: int, i: int|
                0 <= c2 < n && 0 <= i < rel@[c2]@.len() ==> (#[trigger] rel@[c2]@[i]) < commits@[c2].measurements@.len(),
            out@.len() == c,
            forall|q: int| 0 <= q < c ==> positions((#[trigger] out@[q])@) == target[q],
        decreases n - c,
    {
        let row = &rel[c];
        let ms = &commits[c].measurements;
        let ghost sel = positions(row@);
        assert(cm[c as int] == ms@.map_values(|m: MeasurementData| m@));
        let mut picked: Vec<usize> = Vec::new();
        let mut k: usize = 0;
        while k < row.len()
            invariant
                c < n,
                n <= commits@.len(),
                *row == rel@[c as int],
                *ms == commits@[c as int].measurements,
                cm == commit_models(commits@),
                cm[c as int] == ms@.map_values(|m: MeasurementData| m@),
                ks == strs(keys@),
                vs == strs(values@),
                forall|i: int| 0 <= i < row@.len() ==> (#[trigger] row@[i]) < ms@.len(),
                sel == positions(row@),
                k <= row@.len(),
                positions(picked@) == trace_positions(cm[c as int], sel.take(k as int), name@, ks, vs),
            decreases row@.len() - k,
        {
            let j = row[k];
            proof {
                assert(sel.take(k + 1).drop_last() =~= sel.take(k as int));
                assert(sel.take(k + 1).last() == j as int);
                assert(cm[c as int][j as int] == ms@[j as int]@);
            }
            if in_trace_exec(&ms[j], name, keys, values) {
                let ghost before = positions(picked@);
                picked.push(j);
                proof {
                    assert(positions(picked@) =~= before.push(j as int));
                }
            }
            k = k + 1;
        }
        proof {
            assert(sel.take(row@.len() as int) =~= sel);
            assert(target[c as int] == trace_positions(cm[c as int], sel, name@, ks, vs));
        }
        out.push(picked);
        c = c + 1;
    }
    proof {
        assert(out@.map_values(|v: Vec<usize>| positions(v@)) =~= target);
    }
    out
}

/// The filter patterns of a section: its one pattern, or none.
pub open spec fn section_patterns(filter: Option<Seq<char>>) -> Seq<Seq<char>> {
    match filter {
        Some(p) => seq![p],
        None => Seq::empty(),
    }
}

/// Plans a section of a report over `commits`, newest first: the commits
/// it covers (its depth where that is not more than there are), its
/// measurements (those whose name matches its filter and that carry its
/// key-values), their names in the order of first appearance, and for each
/// name the traces by the values of its grouping keys.
pub fn plan_section(commits: &[Commit], section: &SectionConfig) -> (r: Result<
    SectionPlan,
    SectionPlanError,
>)
    ensures
        ({
            let cm = commit_models(commits@);
            let n = section_commit_count(commits@.len(), section.depth) as int;
            let ps = section_patterns(section@.params.measurement_filter);
            let kv = section@.params.key_value_filter;
            let keys = section@.params.separate_by;
            let names = distinct(flat_names(cm, n, ps, kv));
            match section@.params.measurement_filter {
                Some(p) if !crate::filter::regex_valid(p) => r matches Err(
                    SectionPlanError::InvalidFilter(q),
                ) && q@ == p,
                _ => match traces_upto(cm, n, ps, kv, names, keys, names.len() as int) {
                    Err(name) => r matches Err(SectionPlanError::NoMeasurementHasKeys { section: s, name: m })
                        && s@ == section.id@ && m@ == name,
                    Ok(ts) => r matches Ok(plan) && plan.commit_count == n && plan.groups@.map_values(
                        |t: TraceGroup| trace_view(t),
                    ) == ts,
                },
            }
        }),
{
    let ghost cm = commit_models(commits@);
    let n: usize = match section.depth {
        Some(d) => if d <= commits.len() {
            d
        } else {
            commits.len()
        },
        None => commits.len(),
    };
    let filters: Vec<Filter> = match &section.measurement_filter {
        Some(p) => {
            let mut one: Vec<String> = Vec::new();
            one.push(copy_str(p.as_str()));
            match compile_filters(one.as_slice()) {
                Ok(fs) => {
                    proof {
                        assert(patterns_of(fs@) =~= seq![p@]);
                    }
                    fs
                },
                Err(_) => {
                    return Err(SectionPlanError::InvalidFilter(copy_str(p.as_str())));
                },
            }
        },
        None => {
            let fs: Vec<Filter> = Vec::new();
            assert(patterns_of(fs@) =~= Seq::<Seq<char>>::empty());
            fs
        },
    };
    let ghost ps = patterns_of(filters@);
    assert(ps == section_patterns(section@.params.measurement_filter));
    assert(section@.params.measurement_filter matches Some(p) ==> crate::filter::regex_valid(p)) by {
        if section@.params.measurement_filter is Some {
            assert(crate::filter::regex_valid(ps[0]));
        }
    }
    let ghost kv = kv_view(section.key_value_filter@);
    let mut rel: Vec<Vec<usize>> = Vec::new();
    let mut c: usize = 0;
    while c < n
        invariant
            c <= n,
            n <= commits@.len(),
            cm == commit_models(commits@),
            ps == patterns_of(filters@),
            kv == kv_view(section.key_value_filter@),
            rel@.len() == c,
            forall|c2: int|
                0 <= c2 < c ==> positions((#[trigger] rel@[c2])@) == selected_positions(cm[c2], ps, kv),
            forall|c2: int, i: int|
                0 <= c2 < c && 0 <= i < rel@[c2]@.len() ==> (#[trigger] rel@[c2]@[i]) < commits@[c2].measurements@.len(),
        decreases n - c,
    {
        let row = select_positions(&commits[c].measurements, filters.as_slice(), section.key_value_filter.as_slice());
        proof {
            assert(cm[c as int] == commits@[c as int].measurements@.map_values(|m: MeasurementData| m@));
        }
        rel.push(row);
        c = c + 1;
    }
    let names = section_names(commits, n, &rel, Ghost(ps), Ghost(kv));
    let ghost valid = section@.params.measurement_filter matches Some(p) ==> crate::filter::regex_valid(p);
    assert(valid);
    let ghost ks = strs(section.separate_by@);
    let ghost nm = strs(names@);
    let mut groups: Vec<TraceGroup> = Vec::new();
    assert(groups@.map_values(|t: TraceGroup| trace_view(t)) =~= Seq::<TraceModel>::empty());
    proof {
        assert(section@.params.separate_by =~= ks);
        assert(n as int == section_commit_count(commits@.len(), section.depth) as int);
    }
    let mut i: usize = 0;
    while i < names.len()
        invariant
            i <= names@.len(),
            n <= commits@.len(),
            rel@.len() == n,
            cm == commit_models(commits@),
            ps == patterns_of(filters@),
            kv == kv_view(section.key_value_filter@),
            ks == strs(section.separate_by@),
            nm == strs(names@),
            valid,
            valid == (section@.params.measurement_filter matches Some(p) ==> crate::filter::regex_valid(p)),
            nm == distinct(flat_names(cm, n as int, ps, kv)),
            ps == section_patterns(section@.params.measurement_filter),
            n as int == section_commit_count(commits@.len(), section.depth) as int,
            section@.params.separate_by == ks,
            kv == section@.params.key_value_filter,
            forall|c2: int|
                0 <= c2 < n ==> positions((#[trigger] rel@[c2])@) == selected_positions(cm[c2], ps, kv),
            forall|c2: int, q: int|
                0 <= c2 < n && 0 <= q < rel@[c2]@.len() ==> (#[trigger] rel@[c2]@[q]) < commits@[c2].measurements@.len(),
            traces_upto(cm, n as int, ps, kv, nm, ks, i as int) == Ok::<Seq<TraceModel>, Seq<char>>(
                groups@.map_values(|t: TraceGroup| trace_view(t)),
            ),
        decreases names@.len() - i,
    {
        let name = names[i].as_str();
        let gvs: Vec<Vec<String>> = if section.separate_by.len() == 0 {
            let mut one: Vec<Vec<String>> = Vec::new();
            let e: Vec<String> = Vec::new();
            assert(strs(e@) =~= Seq::<Seq<char>>::empty());
            one.push(e);
            proof {
                assert(one@.map_values(|x: Vec<String>| strs(x@)) =~= seq![Seq::<Seq<char>>::empty()]);
            }
            one
        } else {
            group_values(commits, n, &rel, name, &section.separate_by, Ghost(ps), Ghost(kv))
        };
        let ghost gs = groups_of_name(cm, n as int, ps, kv, nm[i as int], ks);
        assert(gvs@.map_values(|x: Vec<String>| strs(x@)) == gs);
        if gvs.len() == 0 {
            proof {
                assert(gs.len() == 0);
                assert(traces_upto(cm, n as int, ps, kv, nm, ks, i + 1) == Err::<Seq<TraceModel>, Seq<char>>(
                    nm[i as int],
                ));
                lemma_traces_err(cm, n as int, ps, kv, nm, ks, i + 1, nm.len() as int);
            }
            return Err(
                SectionPlanError::NoMeasurementHasKeys {
                    section: copy_str(section.id.as_str()),
                    name: copy_str(name),
                },
            );
        }
        let ghost before = groups@.map_values(|t: TraceGroup| trace_view(t));
        let mut g: usize = 0;
        while g < gvs.len()
            invariant
                g <= gvs@.len(),
                i < names@.len(),
                n <= commits@.len(),
                rel@.len() == n,
                cm == commit_models(commits@),
                ks == strs(section.separate_by@),
                nm == strs(names@),
                name@ == nm[i as int],
                gs == gvs@.map_values(|x: Vec<String>| strs(x@)),
                forall|c2: int|
                    0 <= c2 < n ==> positions((#[trigger] rel@[c2])@) == selected_positions(cm[c2], ps, kv),
                forall|c2: int, q: int|
                    0 <= c2 < n && 0 <= q < rel@[c2]@.len() ==> (#[trigger] rel@[c2]@[q]) < commits@[c2].measurements@.len(),
                groups@.map_values(|t: TraceGroup| trace_view(t)) == before + gs.take(g as int).map_values(
                    |gv: Seq<Seq<char>>| (nm[i as int], gv, trace_members(cm, n as int, ps, kv, nm[i as int], ks, gv)),
                ),
            decreases gvs@.len() - g,
        {
            let members = members_of(commits, n, &rel, name, &section.separate_by, &gvs[g], Ghost(ps), Ghost(kv));
            let mut gv_copy: Vec<String> = Vec::new();
            let mut q: usize = 0;
            while q < gvs[g].len()
                invariant
                    g < gvs@.len(),
                    q <= gvs@[g as int]@.len(),
                    gv_copy@.len() == q,
                    forall|z: int| 0 <= z < q ==> (#[trigger] gv_copy@[z])@ == gvs@[g as int]@[z]@,
                decreases gvs@[g as int]@.len() - q,
            {
                gv_copy.push(copy_str(gvs[g][q].as_str()));
                q = q + 1;
            }
            let ghost prev = groups@.map_values(|t: TraceGroup| trace_view(t));
            let t = TraceGroup { name: copy_str(name), group_value: gv_copy, members };
            let ghost tv = trace_view(t);
            groups.push(t);
            proof {
                assert(strs(gv_copy@) =~= gs[g as int]);
                assert(groups@.map_values(|t: TraceGroup| trace_view(t)) =~= prev.push(tv));
                let mapped = |gv: Seq<Seq<char>>| (nm[i as int], gv, trace_members(cm, n as int, ps, kv, nm[i as int], ks, gv));
                assert(gs.take(g + 1).map_values(mapped) =~= gs.take(g as int).map_values(mapped).push(mapped(gs[g as int])));
            }
            g = g + 1;
        }
        proof {
            assert(gs.take(gvs@.len() as int) =~= gs);
        }
        i = i + 1;
    }
    Ok(SectionPlan { commit_count: n, groups })
}

/// Whether a section may draw `m` in the trace of `name` with grouping
/// values `g`: it has the name, its name passes the filter patterns, it has
/// the value of every key-value filter pair, and the value `g[i]` for every
/// grouping key `keys[i]`.
pub open spec fn drawable(
    m: MeasurementModel,
    name: Seq<char>,
    patterns: Seq<Seq<char>>,
    kvs: Seq<KeyValue>,
    keys: Seq<Seq<char>>,
    g: Seq<Seq<char>>,
) -> bool {
    &&& m.name == name
    &&& matches_any_spec(m.name, patterns)
    &&& forall|q: int| 0 <= q < kvs.len() ==> kv_get(m.key_values, #[trigger] kvs[q].0) == Some(kvs[q].1)
    &&& g.len() == keys.len()
    &&& forall|i: int| 0 <= i < keys.len() ==> kv_get(m.key_values, #[trigger] keys[i]) == Some(g[i])
}

/// The positions a section selects in a commit are those of its
/// measurements whose name passes the filter patterns and that have the
/// value of every key-value filter pair, each once and in order.
pub proof fn lemma_selected_positions(ms: Seq<MeasurementModel>, patterns: Seq<Seq<char>>, kvs: Seq<KeyValue>)
    ensures
        forall|j: int|
            0 <= j < selected_positions(ms, patterns, kvs).len() ==> {
                let p = #[trigger] selected_positions(ms, patterns, kvs)[j];
                &&& 0 <= p < ms.len()
                &&& matches_any_spec(ms[p].name, patterns)
                &&& forall|q: int|
                    0 <= q < kvs.len() ==> kv_get(ms[p].key_values, #[trigger] kvs[q].0) == Some(kvs[q].1)
            },
        forall|i: int|
            0 <= i < ms.len() && matches_any_spec(ms[i].name, patterns) && (forall|q: int|
                0 <= q < kvs.len() ==> kv_get(ms[i].key_values, #[trigger] kvs[q].0) == Some(kvs[q].1))
                ==> #[trigger] selected_positions(ms, patterns, kvs).contains(i),
        forall|a: int, b: int|
            0 <= a < b < selected_positions(ms, patterns, kvs).len() ==> #[trigger] selected_positions(
                ms,
                patterns,
                kvs,
            )[a] < #[trigger] selected_positions(ms, patterns, kvs)[b],
    decreases ms.len(),
{
    if ms.len() > 0 {
        let pm = ms.drop_last();
        lemma_selected_positions(pm, patterns, kvs);
        let prev = selected_positions(pm, patterns, kvs);
        let sp = selected_positions(ms, patterns, kvs);
        assert forall|j: int| 0 <= j < sp.len() implies {
            let p = #[trigger] sp[j];
            &&& 0 <= p < ms.len()
            &&& matches_any_spec(ms[p].name, patterns)
            &&& forall|q: int|
                0 <= q < kvs.len() ==> kv_get(ms[p].key_values, #[trigger] kvs[q].0) == Some(kvs[q].1)
        } by {
            if j < prev.len() {
                assert(sp[j] == prev[j]);
                assert(ms[prev[j]] == pm[prev[j]]);
            } else {
                assert(sp[j] == ms.len() - 1);
                assert(selected(ms.last(), patterns, kvs));
            }
        }
        assert forall|i: int|
            0 <= i < ms.len() && matches_any_spec(ms[i].name, patterns) && (forall|q: int|
                0 <= q < kvs.len() ==> kv_get(ms[i].key_values, #[trigger] kvs[q].0) == Some(kvs[q].1))
                implies #[trigger] sp.contains(i) by {
            assert(selected(ms[i], patterns, kvs));
            if i < ms.len() - 1 {
                assert(pm[i] == ms[i]);
                assert(prev.contains(i));
                let j = choose|j: int| 0 <= j < prev.len() && prev[j] == i;
                assert(sp[j] == prev[j]);
            } else {
                assert(sp[sp.len() - 1] == i);
            }
        }
        assert forall|a: int, b: int| 0 <= a < b < sp.len() implies #[trigger] sp[a] < #[trigger] sp[b] by {
            if b < prev.len() {
                assert(sp[a] == prev[a] && sp[b] == prev[b]);
            } else {
                assert(sp[a] == prev[a]);
                assert(0 <= prev[a] < pm.len());
            }
        }
    }
}

proof fn lemma_trace_positions(
    ms: Seq<MeasurementModel>,
    sel: Seq<int>,
    name: Seq<char>,
    keys: Seq<Seq<char>>,
    values: Seq<Seq<char>>,
)
    ensures
        forall|j: int|
            0 <= j < trace_positions(ms, sel, name, keys, values).len() ==> sel.contains(
                #[trigger] trace_positions(ms, sel, name, keys, values)[j],
            ) && in_trace(ms[trace_positions(ms, sel, name, keys, values)[j]], name, keys, values),
        forall|k: int|
            0 <= k < sel.len() && in_trace(ms[#[trigger] sel[k]], name, keys, values) ==> trace_positions(
                ms,
                sel,
                name,
                keys,
                values,
            ).contains(sel[k]),
    decreases sel.len(),
{
    if sel.len() > 0 {
        let ps = sel.drop_last();
        lemma_trace_positions(ms, ps, name, keys, values);
        let prev = trace_positions(ms, ps, name, keys, values);
        let tp = trace_positions(ms, sel, name, keys, values);
        assert forall|k: int| 0 <= k < sel.len() && in_trace(ms[#[trigger] sel[k]], name, keys, values) implies tp.contains(
            sel[k],
        ) by {
            if k < ps.len() {
                assert(ps[k] == sel[k]);
                assert(prev.contains(ps[k]));
                let j = choose|j: int| 0 <= j < prev.len() && prev[j] == ps[k];
                assert(tp[j] == prev[j]);
            } else {
                assert(tp[tp.len() - 1] == sel[k]);
            }
        }
        assert forall|j: int| 0 <= j < tp.len() implies sel.contains(#[trigger] tp[j]) && in_trace(
            ms[tp[j]],
            name,
            keys,
            values,
        ) by {
            if j < prev.len() {
                assert(tp[j] == prev[j]);
                let k = choose|k: int| 0 <= k < ps.len() && ps[k] == prev[j];
                assert(sel[k] == ps[k]);
            } else {
                assert(tp[j] == sel.last());
                assert(sel[sel.len() - 1] == sel.last());
            }
        }
    }
}

proof fn lemma_group_key_values(m: MeasurementModel, keys: Seq<Seq<char>>)
    ensures
        group_key(m, keys) matches Some(g) ==> g.len() == keys.len() && forall|i: int|
            0 <= i < keys.len() ==> kv_get(m.key_values, #[trigger] keys[i]) == Some(g[i]),
    decreases keys.len(),
{
    if keys.len() > 0 {
        let pk = keys.drop_last();
        lemma_group_key_values(m, pk);
        if group_key(m, keys) is Some {
            let g = group_key(m, keys).unwrap();
            let pg = group_key(m, pk).unwrap();
            assert forall|i: int| 0 <= i < keys.len() implies kv_get(m.key_values, #[trigger] keys[i]) == Some(g[i]) by {
                if i < keys.len() - 1 {
                    assert(keys[i] == pk[i]);
                    assert(g[i] == pg[i]);
                }
            }
        }
    }
}

proof fn lemma_row_groups_len(ms: Seq<MeasurementModel>, sel: Seq<int>, name: Seq<char>, keys: Seq<Seq<char>>)
    ensures
        forall|j: int|
            0 <= j < row_groups(ms, sel, name, keys).len() ==> (#[trigger] row_groups(ms, sel, name, keys)[j]).len()
                == keys.len(),
    decreases sel.len(),
{
    if sel.len() > 0 {
        lemma_row_groups_len(ms, sel.drop_last(), name, keys);
        lemma_group_key_values(ms[sel.last()], keys);
        let prev = row_groups(ms, sel.drop_last(), name, keys);
        let rg = row_groups(ms, sel, name, keys);
        assert forall|j: int| 0 <= j < rg.len() implies (#[trigger] rg[j]).len() == keys.len() by {
            if j < prev.len() {
                assert(rg[j] == prev[j]);
            }
        }
    }
}

proof fn lemma_flat_groups_len(
    commits: Seq<Seq<MeasurementModel>>,
    n: int,
    patterns: Seq<Seq<char>>,
    kvs: Seq<KeyValue>,
    name: Seq<char>,
    keys: Seq<Seq<char>>,
)
    ensures
        forall|j: int|
            0 <= j < flat_groups(commits, n, patterns, kvs, name, keys).len() ==> (#[trigger] flat_groups(
                commits,
                n,
                patterns,
                kvs,
                name,
                keys,
            )[j]).len() == keys.len(),
    decreases n,
{
    if n > 0 {
        lemma_flat_groups_len(commits, n - 1, patterns, kvs, name, keys);
        let prev = flat_groups(commits, n - 1, patterns, kvs, name, keys);
        let row = row_groups(
            commits[n - 1],
            selected_positions(commits[n - 1], patterns, kvs),
            name,
            keys,
        );
        lemma_row_groups_len(commits[n - 1], selected_positions(commits[n - 1], patterns, kvs), name, keys);
        let fg = flat_groups(commits, n, patterns, kvs, name, keys);
        assert(fg == prev + row);
        assert forall|j: int| 0 <= j < fg.len() implies (#[trigger] fg[j]).len() == keys.len() by {
            if j < prev.len() {
                assert(fg[j] == prev[j]);
            } else {
                assert(fg[j] == row[j - prev.len()]);
            }
        }
    }
}

proof fn lemma_distinct_from<A>(s: Seq<A>)
    ensures
        forall|x: A| #[trigger] distinct(s).contains(x) ==> s.contains(x),
    decreases s.len(),
{
    if s.len() > 0 {
        lemma_distinct_from(s.drop_last());
        let prev = distinct(s.drop_last());
        assert forall|x: A| #[trigger] distinct(s).contains(x) implies s.contains(x) by {
            if prev.contains(x) {
                assert(s.drop_last().contains(x));
                let k = choose|k: int| 0 <= k < s.drop_last().len() && s.drop_last()[k] == x;
                assert(s[k] == x);
            } else {
                let d = distinct(s);
                let k = choose|k: int| 0 <= k < d.len() && d[k] == x;
                if k < prev.len() {
                    assert(d[k] == prev[k]);
                }
                assert(s[s.len() - 1] == x);
            }
        }
    }
}

/// Every measurement that a trace of a section draws is one the section may
/// draw there: in each covered commit, a trace named `name` with grouping
/// values `g` holds only positions of measurements named `name` whose name
/// passes the filter patterns, that have every key-value filter pair, and
/// that have the value `g[i]` for every grouping key `keys[i]`; each trace
/// covers the `n` commits, and holds every such measurement of each.
pub proof fn lemma_section_traces(
    commits: Seq<Seq<MeasurementModel>>,
    n: int,
    patterns: Seq<Seq<char>>,
    kvs: Seq<KeyValue>,
    names: Seq<Seq<char>>,
    keys: Seq<Seq<char>>,
    i: int,
)
    requires
        0 <= n <= commits.len(),
        0 <= i <= names.len(),
    ensures
        traces_upto(commits, n, patterns, kvs, names, keys, i) matches Ok(ts) ==> forall|t: int|
            0 <= t < ts.len() ==> (#[trigger] ts[t]).2.len() == n && forall|c: int, j: int|
                0 <= c < n && 0 <= j < ts[t].2[c].len() ==> 0 <= #[trigger] ts[t].2[c][j] < commits[c].len()
                    && drawable(commits[c][ts[t].2[c][j]], ts[t].0, patterns, kvs, keys, ts[t].1),
        traces_upto(commits, n, patterns, kvs, names, keys, i) matches Ok(ts) ==> forall|t: int, c: int, p: int|
            0 <= t < ts.len() && 0 <= c < n && 0 <= p < commits[c].len() && drawable(
                #[trigger] commits[c][p],
                ts[t].0,
                patterns,
                kvs,
                keys,
                ts[t].1,
            ) ==> (#[trigger] ts[t]).2[c].contains(p),
    decreases i,
{
    if i > 0 {
        lemma_section_traces(commits, n, patterns, kvs, names, keys, i - 1);
        if let Ok(ts) = traces_upto(commits, n, patterns, kvs, names, keys, i) {
            let prev = traces_upto(commits, n, patterns, kvs, names, keys, i - 1)->Ok_0;
            let name = names[i - 1];
            let gs = groups_of_name(commits, n, patterns, kvs, name, keys);
            assert(ts == prev + gs.map_values(
                |g: Seq<Seq<char>>| (name, g, trace_members(commits, n, patterns, kvs, name, keys, g)),
            ));
            lemma_flat_groups_len(commits, n, patterns, kvs, name, keys);
            lemma_distinct_from(flat_groups(commits, n, patterns, kvs, name, keys));
            assert forall|t: int| #![trigger gs[t]] 0 <= t < gs.len() implies gs[t].len() == keys.len() by {
                if keys.len() == 0 {
                    assert(gs[t] == Seq::<Seq<char>>::empty());
                } else {
                    let fg = flat_groups(commits, n, patterns, kvs, name, keys);
                    assert(distinct(fg).contains(gs[t])) by {
                        assert(distinct(fg)[t] == gs[t]);
                    }
                    let k = choose|k: int| 0 <= k < fg.len() && fg[k] == gs[t];
                    assert(fg[k].len() == keys.len());
                }
            }
            assert forall|t: int, c: int, p: int|
                0 <= t < ts.len() && 0 <= c < n && 0 <= p < commits[c].len() && drawable(
                    #[trigger] commits[c][p],
                    ts[t].0,
                    patterns,
                    kvs,
                    keys,
                    ts[t].1,
                ) implies (#[trigger] ts[t]).2[c].contains(p) by {
                if t >= prev.len() {
                    let g = gs[t - prev.len()];
                    assert(g.len() == keys.len());
                    assert(ts[t] == (name, g, trace_members(commits, n, patterns, kvs, name, keys, g)));
                    let sp = selected_positions(commits[c], patterns, kvs);
                    lemma_selected_positions(commits[c], patterns, kvs);
                    lemma_trace_positions(commits[c], sp, name, keys, g);
                    assert(sp.contains(p));
                    let k = choose|k: int| 0 <= k < sp.len() && sp[k] == p;
                    assert(in_trace(commits[c][sp[k]], name, keys, g));
                }
            }
            assert forall|t: int| 0 <= t < ts.len() implies (#[trigger] ts[t]).2.len() == n && forall|c: int, j: int|
                0 <= c < n && 0 <= j < ts[t].2[c].len() ==> 0 <= #[trigger] ts[t].2[c][j] < commits[c].len()
                    && drawable(commits[c][ts[t].2[c][j]], ts[t].0, patterns, kvs, keys, ts[t].1) by {
                if t >= prev.len() {
                    let g = gs[t - prev.len()];
                    assert(ts[t] == (name, g, trace_members(commits, n, patterns, kvs, name, keys, g)));
                    assert(g.len() == keys.len()) by {
                        if keys.len() == 0 {
                            assert(g == Seq::<Seq<char>>::empty());
                        } else {
                            let fg = flat_groups(commits, n, patterns, kvs, name, keys);
                            assert(distinct(fg).contains(g)) by {
                                assert(distinct(fg)[t - prev.len()] == g);
                            }
                            assert(fg.contains(g));
                            let k = choose|k: int| 0 <= k < fg.len() && fg[k] == g;
                            assert(fg[k].len() == keys.len());
                        }
                    }
                    assert forall|c: int, j: int|
                        0 <= c < n && 0 <= j < ts[t].2[c].len() implies 0 <= #[trigger] ts[t].2[c][j]
                        < commits[c].len() && drawable(
                        commits[c][ts[t].2[c][j]],
                        ts[t].0,
                        patterns,
                        kvs,
                        keys,
                        ts[t].1,
                    ) by {
                        let sp = selected_positions(commits[c], patterns, kvs);
                        lemma_selected_positions(commits[c], patterns, kvs);
                        lemma_trace_positions(commits[c], sp, name, keys, g);
                        let tp = trace_positions(commits[c], sp, name, keys, g);
                        assert(ts[t].2[c] == tp);
                        let p = tp[j];
                        assert(sp.contains(p));
                        let k = choose|k: int| 0 <= k < sp.len() && sp[k] == p;
                        assert(sp[k] == p);
                        assert(in_trace(commits[c][p], name, keys, g));
                        let m = commits[c][p];
                        assert forall|q: int| 0 <= q < keys.len() implies kv_get(m.key_values, #[trigger] keys[q]) == Some(g[q]) by {
                            if g.len() > 0 {
                                assert(q < g.len());
                            }
                        }
                    }
                }
            }
        }
    }
}

} // verus!
