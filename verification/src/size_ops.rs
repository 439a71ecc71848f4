//! How much space the measurements take: the sizes of the notes, split by
//! measurement name, and the object counts of the repository.
use vstd::prelude::*;
use crate::num::{parse_u64, parse_unsigned};
use crate::serialization::{deserialize, deserialize_spec};
use crate::text::{eq_str, strs};
use crate::git::{GitError, GitOutput};
use crate::text::string_of;
use crate::stats::eq_str_chars;
use crate::text::{chars_of, lines_chars, lines_of, split_chars, split_on, trim, trim_chars};

verus! {

/// Statistics of the object store, as `git count-objects -v` reports them,
/// with sizes in bytes.
#[derive(Debug, Clone, Copy, PartialEq, Eq)]
pub struct RepoStats {
    /// Number of loose objects.
    pub loose_objects: u64,
    /// Size of the loose objects in bytes.
    pub loose_size: u64,
    /// Number of packed objects.
    pub packed_objects: u64,
    /// Size of the pack files in bytes.
    pub pack_size: u64,
}

/// The key and value of a line `key: value` of `git count-objects -v`; a
/// value that is not a number counts as zero.
pub open spec fn count_line(line: Seq<char>) -> Option<(Seq<char>, nat)> {
    let parts = split_on(line, ':');
    if parts.len() == 2 {
        Some(
            (
                trim(parts[0]),
                match parse_unsigned(trim(parts[1]), 10, u64::MAX as nat) {
                    Some(v) => v,
                    None => 0,
                },
            ),
        )
    } else {
        None
    }
}

/// The value of the last line with key `key`, or zero.
pub open spec fn count_value(lines: Seq<Seq<char>>, key: Seq<char>) -> nat
    decreases lines.len(),
{
    if lines.len() == 0 {
        0
    } else {
        match count_line(lines.last()) {
            Some((k, v)) => if k == key {
                v
            } else {
                count_value(lines.drop_last(), key)
            },
            None => count_value(lines.drop_last(), key),
        }
    }
}

/// Whether the sizes that `output` reports, in KiB, fit in a `u64` once
/// converted to bytes.
pub open spec fn count_sizes_fit(output: Seq<char>) -> bool {
    &&& count_value(lines_of(output), "size"@) * 1024 <= u64::MAX
    &&& count_value(lines_of(output), "size-pack"@) * 1024 <= u64::MAX
}

/// Reads the output of `git count-objects -v`: `count`, `size`, `in-pack`
/// and `size-pack`, the sizes converted from KiB to bytes.
pub fn parse_count_objects(output: &str) -> (r: RepoStats)
    requires
        count_sizes_fit(output@),
    ensures
        r.loose_objects == count_value(lines_of(output@), "count"@),
        r.loose_size == count_value(lines_of(output@), "size"@) * 1024,
        r.packed_objects == count_value(lines_of(output@), "in-pack"@),
        r.pack_size == count_value(lines_of(output@), "size-pack"@) * 1024,
{
    let c = chars_of(output);
    let lines = lines_chars(c.as_slice());
    let ghost ls = lines_of(output@);
    let mut loose_objects: u64 = 0;
    let mut loose_size: u64 = 0;
    let mut packed_objects: u64 = 0;
    let mut pack_size: u64 = 0;
    let mut i: usize = 0;
    while i < lines.len()
        invariant
            i <= lines@.len(),
            lines@.len() == ls.len(),
            forall|j: int| 0 <= j < lines@.len() ==> #[trigger] lines@[j]@ == ls[j],
            loose_objects == count_value(ls.take(i as int), "count"@),
            loose_size == count_value(ls.take(i as int), "size"@),
            packed_objects == count_value(ls.take(i as int), "in-pack"@),
            pack_size == count_value(ls.take(i as int), "size-pack"@),
        decreases lines@.len() - i,
    {
        proof {
            assert(ls.take(i + 1).drop_last() =~= ls.take(i as int));
            assert(ls.take(i + 1).last() == ls[i as int]);
        }
        let parts = split_chars(lines[i].as_slice(), ':');
        if parts.len() == 2 {
            let key = trim_chars(parts[0].as_slice());
            let val = trim_chars(parts[1].as_slice());
            let value: u64 = match parse_u64(val.as_slice()) {
                Some(v) => v,
                None => 0,
            };
            proof {
                reveal_strlit("count");
                reveal_strlit("size");
                reveal_strlit("in-pack");
                reveal_strlit("size-pack");
                assert("count"@ != "size"@ && "count"@ != "in-pack"@ && "count"@ != "size-pack"@)
                    by {
                    assert("count"@[0] != "size"@[0]);
                    assert("count"@.len() != "in-pack"@.len());
                    assert("count"@.len() != "size-pack"@.len());
                }
                assert("size"@ != "in-pack"@ && "size"@ != "size-pack"@) by {
                    assert("size"@.len() != "in-pack"@.len());
                    assert("size"@.len() != "size-pack"@.len());
                }
                assert("in-pack"@ != "size-pack"@) by {
                    assert("in-pack"@.len() != "size-pack"@.len());
                }
            }
            if eq_str_chars(key.as_slice(), "count") {
                loose_objects = value;
            } else if eq_str_chars(key.as_slice(), "size") {
                loose_size = value;
            } else if eq_str_chars(key.as_slice(), "in-pack") {
                packed_objects = value;
            } else if eq_str_chars(key.as_slice(), "size-pack") {
                pack_size = value;
            }
        }
        i = i + 1;
    }
    proof {
        assert(ls.take(lines@.len() as int) =~= ls);
    }
    RepoStats {
        loose_objects,
        loose_size: loose_size * 1024,
        packed_objects,
        pack_size: pack_size * 1024,
    }
}


/// The statistics of the object store from the result of
/// `git count-objects -v`; a failure is handed on.
pub fn get_repo_stats(result: Result<GitOutput, GitError>) -> (r: Result<RepoStats, GitError>)
    requires
        result matches Ok(o) ==> count_sizes_fit(o.stdout@),
    ensures
        match result {
            Ok(o) => r matches Ok(s) && s.loose_objects == count_value(lines_of(o.stdout@), "count"@)
                && s.loose_size == count_value(lines_of(o.stdout@), "size"@) * 1024
                && s.packed_objects == count_value(lines_of(o.stdout@), "in-pack"@)
                && s.pack_size == count_value(lines_of(o.stdout@), "size-pack"@) * 1024,
            Err(e) => r == Err::<RepoStats, GitError>(e),
        },
{
    match result {
        Ok(o) => Ok(parse_count_objects(o.stdout.as_str())),
        Err(e) => Err(e),
    }
}

/// The space that the measurements of one name take.
#[derive(Debug, Clone, Copy, PartialEq, Eq)]
pub struct MeasurementSizeInfo {
    /// The bytes attributed to the measurements of this name.
    pub total_bytes: u64,
    /// How many measurements of this name there are.
    pub count: usize,
}

/// The size attributed to one measurement name.
#[derive(Debug, Clone)]
pub struct NamedSize {
    pub name: String,
    pub info: MeasurementSizeInfo,
}

/// The space that the measurement notes take.
#[derive(Debug, Clone)]
pub struct NotesSizeInfo {
    /// The total size of the notes in bytes.
    pub total_bytes: u64,
    /// The number of commits with measurements.
    pub note_count: usize,
    /// The sizes by measurement name, where a breakdown was asked for; each
    /// name occurs once, in the order in which it was first met.
    pub by_measurement: Option<Vec<NamedSize>>,
}

/// The breakdown as (name, bytes, count) triples.
pub open spec fn size_view(v: Seq<NamedSize>) -> Seq<(Seq<char>, int, int)> {
    v.map_values(|e: NamedSize| (e.name@, e.info.total_bytes as int, e.info.count as int))
}

/// Whether no name occurs twice.
pub open spec fn names_distinct(e: Seq<(Seq<char>, int, int)>) -> bool {
    forall|i: int, j: int| 0 <= i < j < e.len() ==> (#[trigger] e[i]).0 != (#[trigger] e[j]).0
}

/// Whether `name` has an entry.
pub open spec fn has_name(e: Seq<(Seq<char>, int, int)>, name: Seq<char>) -> bool {
    exists|i: int| 0 <= i < e.len() && (#[trigger] e[i]).0 == name
}

/// One more measurement of `name`, which gets `per` bytes.
pub open spec fn add_occurrence(e: Seq<(Seq<char>, int, int)>, name: Seq<char>, per: int) -> Seq<
    (Seq<char>, int, int),
> {
    if has_name(e, name) {
        let i = choose|i: int| 0 <= i < e.len() && (#[trigger] e[i]).0 == name;
        e.update(i, (name, e[i].1 + per, e[i].2 + 1))
    } else {
        e.push((name, per, 1))
    }
}

/// One more measurement for each of `names`, in order, each getting `per` bytes.
pub open spec fn add_occurrences(e: Seq<(Seq<char>, int, int)>, names: Seq<Seq<char>>, per: int) -> Seq<
    (Seq<char>, int, int),
>
    decreases names.len(),
{
    if names.len() == 0 {
        e
    } else {
        add_occurrence(add_occurrences(e, names.drop_last(), per), names.last(), per)
    }
}

/// The names of the measurements that a note holds.
pub open spec fn note_names(content: Seq<char>) -> Seq<Seq<char>> {
    deserialize_spec(content).map_values(|m: crate::data::MeasurementModel| m.name)
}

/// The breakdown after one note of `note_size` bytes: its size is split
/// evenly (rounding down) among the measurements it holds.
pub open spec fn accumulate_spec(e: Seq<(Seq<char>, int, int)>, content: Seq<char>, note_size: nat) -> Seq<
    (Seq<char>, int, int),
> {
    let names = note_names(content);
    if names.len() == 0 {
        e
    } else {
        add_occurrences(e, names, note_size as int / names.len() as int)
    }
}

/// The sum of the byte counts of a breakdown.
pub open spec fn sum_totals(e: Seq<(Seq<char>, int, int)>) -> int
    decreases e.len(),
{
    if e.len() == 0 {
        0
    } else {
        sum_totals(e.drop_last()) + e.last().1
    }
}

/// The sum of the measurement counts of a breakdown.
pub open spec fn sum_counts(e: Seq<(Seq<char>, int, int)>) -> int
    decreases e.len(),
{
    if e.len() == 0 {
        0
    } else {
        sum_counts(e.drop_last()) + e.last().2
    }
}

/// Whether every byte count and measurement count is at least zero.
pub open spec fn nonnegative(e: Seq<(Seq<char>, int, int)>) -> bool {
    forall|i: int| 0 <= i < e.len() ==> 0 <= (#[trigger] e[i]).1 && 0 <= e[i].2
}

proof fn lemma_sums_update(e: Seq<(Seq<char>, int, int)>, i: int, x: (Seq<char>, int, int))
    requires
        0 <= i < e.len(),
    ensures
        sum_totals(e.update(i, x)) == sum_totals(e) - e[i].1 + x.1,
        sum_counts(e.update(i, x)) == sum_counts(e) - e[i].2 + x.2,
    decreases e.len(),
{
    let u = e.update(i, x);
    if i == e.len() - 1 {
        assert(u.drop_last() =~= e.drop_last());
    } else {
        assert(u.drop_last() =~= e.drop_last().update(i, x));
        lemma_sums_update(e.drop_last(), i, x);
    }
}

proof fn lemma_entry_within_sums(e: Seq<(Seq<char>, int, int)>, i: int)
    requires
        0 <= i < e.len(),
        nonnegative(e),
    ensures
        e[i].1 <= sum_totals(e),
        e[i].2 <= sum_counts(e),
        0 <= sum_totals(e),
        0 <= sum_counts(e),
    decreases e.len(),
{
    let d = e.drop_last();
    assert(nonnegative(d)) by {
        assert forall|k: int| 0 <= k < d.len() implies 0 <= (#[trigger] d[k]).1 && 0 <= d[k].2 by {
            assert(d[k] == e[k]);
        }
    }
    assert(e.last() == e[e.len() - 1]);
    assert(0 <= e[e.len() - 1].1 && 0 <= e[e.len() - 1].2);
    assert(sum_totals(e) == sum_totals(d) + e.last().1);
    assert(sum_counts(e) == sum_counts(d) + e.last().2);
    if i < e.len() - 1 {
        lemma_entry_within_sums(d, i);
        assert(d[i] == e[i]);
    } else if e.len() > 1 {
        lemma_entry_within_sums(d, 0);
    }
}

/// The index of the entry of `name` in a breakdown.
fn find_entry(v: &Vec<NamedSize>, name: &str) -> (r: Option<usize>)
    ensures
        match r {
            Some(i) => i < v@.len() && size_view(v@)[i as int].0 == name@,
            None => !has_name(size_view(v@), name@),
        },
{
    let mut i: usize = 0;
    while i < v.len()
        invariant
            i <= v@.len(),
            forall|j: int| 0 <= j < i ==> (#[trigger] size_view(v@)[j]).0 != name@,
        decreases v@.len() - i,
    {
        if eq_str(v[i].name.as_str(), name) {
            return Some(i);
        }
        i = i + 1;
    }
    None
}

/// Attributes the size of one note to the measurements it holds: each gets
/// an even share of `note_size` (rounded down) and one more occurrence under
/// its name; a name not seen before gets a new entry at the end.
pub fn accumulate_measurement_sizes(content: &str, note_size: u64, by_name: &mut Vec<NamedSize>)
    requires
        names_distinct(size_view(old(by_name)@)),
        sum_totals(size_view(old(by_name)@)) + note_size <= u64::MAX,
        sum_counts(size_view(old(by_name)@)) + note_names(content@).len() <= usize::MAX,
    ensures
        size_view(final(by_name)@) == accumulate_spec(size_view(old(by_name)@), content@, note_size as nat),
        names_distinct(size_view(final(by_name)@)),
        sum_totals(size_view(final(by_name)@)) <= sum_totals(size_view(old(by_name)@)) + note_size,
        sum_counts(size_view(final(by_name)@)) == sum_counts(size_view(old(by_name)@)) + note_names(content@).len(),
{
    let ms = deserialize(content);
    let ghost names = note_names(content@);
    assert(names.len() == ms@.len());
    if ms.len() == 0 {
        return;
    }
    let n = ms.len();
    let per: u64 = note_size / (n as u64);
    proof {
        assert(per * n <= note_size) by (nonlinear_arith)
            requires per == note_size / (n as u64), n > 0;
    }
    let ghost start = size_view(by_name@);
    let mut j: usize = 0;
    while j < n
        invariant
            n == ms@.len(),
            n == names.len(),
            names == note_names(content@),
            forall|k: int| 0 <= k < n ==> (#[trigger] ms@[k]).name@ == names[k],
            j <= n,
            per * n <= note_size,
            start == size_view(old(by_name)@),
            sum_totals(start) + note_size <= u64::MAX,
            sum_counts(start) + n <= usize::MAX,
            size_view(by_name@) == add_occurrences(start, names.take(j as int), per as int),
            names_distinct(size_view(by_name@)),
            nonnegative(size_view(by_name@)),
            sum_totals(size_view(by_name@)) == sum_totals(start) + per * j,
            sum_counts(size_view(by_name@)) == sum_counts(start) + j,
        decreases n - j,
    {
        let ghost cur = size_view(by_name@);
        proof {
            assert(names.take(j + 1).drop_last() =~= names.take(j as int));
            assert(names.take(j + 1).last() == names[j as int]);
            assert(per * j + per <= per * n) by (nonlinear_arith)
                requires j < n;
            assert(per * (j + 1) == per * j + per) by (nonlinear_arith);
        }
        let name = &ms[j].name;
        match find_entry(by_name, name.as_str()) {
            Some(i) => {
                let old_entry = by_name[i].info;
                proof {
                    lemma_entry_within_sums(cur, i as int);
                }
                let updated = NamedSize {
                    name: string_of(chars_of(name.as_str()).as_slice()),
                    info: MeasurementSizeInfo {
                        total_bytes: old_entry.total_bytes + per,
                        count: old_entry.count + 1,
                    },
                };
                by_name.set(i, updated);
                proof {
                    assert(has_name(cur, names[j as int]));
                    let k = choose|k: int| 0 <= k < cur.len() && (#[trigger] cur[k]).0 == names[j as int];
                    assert(k == i as int) by {
                        if k != i as int {
                            if k < i as int {
                                assert(cur[k].0 != cur[i as int].0);
                            } else {
                                assert(cur[i as int].0 != cur[k].0);
                            }
                        }
                    }
                    let x = (names[j as int], cur[i as int].1 + per, cur[i as int].2 + 1);
                    assert(size_view(by_name@) =~= cur.update(i as int, x));
                    lemma_sums_update(cur, i as int, x);
                }
            },
            None => {
                let entry = NamedSize {
                    name: string_of(chars_of(name.as_str()).as_slice()),
                    info: MeasurementSizeInfo { total_bytes: per, count: 1 },
                };
                by_name.push(entry);
                proof {
                    assert(size_view(by_name@) =~= cur.push((names[j as int], per as int, 1)));
                    assert(size_view(by_name@).drop_last() =~= cur);
                }
            },
        }
        j = j + 1;
    }
    proof {
        assert(names.take(n as int) =~= names);
    }
}


/// The sum of note sizes.
pub open spec fn sum_sizes(s: Seq<u64>) -> int
    decreases s.len(),
{
    if s.len() == 0 {
        0
    } else {
        sum_sizes(s.drop_last()) + s.last()
    }
}

/// The number of measurements that the notes hold.
pub open spec fn measurements_in(contents: Seq<Seq<char>>) -> int
    decreases contents.len(),
{
    if contents.len() == 0 {
        0
    } else {
        measurements_in(contents.drop_last()) + note_names(contents.last()).len()
    }
}

/// The breakdown after the first `k` notes.
pub open spec fn breakdown_upto(contents: Seq<Seq<char>>, sizes: Seq<u64>, k: nat) -> Seq<
    (Seq<char>, int, int),
>
    decreases k,
{
    if k == 0 {
        Seq::empty()
    } else {
        accumulate_spec(
            breakdown_upto(contents, sizes, (k - 1) as nat),
            contents[k - 1],
            sizes[k - 1] as nat,
        )
    }
}

proof fn lemma_prefix_sums(s: Seq<u64>, i: int)
    requires
        0 <= i <= s.len(),
    ensures
        0 <= sum_sizes(s.take(i)) <= sum_sizes(s),
    decreases s.len() - i,
{
    if i < s.len() {
        lemma_prefix_sums(s, i + 1);
        assert(s.take(i + 1).drop_last() =~= s.take(i));
    } else {
        assert(s.take(i) =~= s);
    }
    lemma_sum_nonneg(s.take(i));
}

proof fn lemma_sum_nonneg(s: Seq<u64>)
    ensures
        0 <= sum_sizes(s),
    decreases s.len(),
{
    if s.len() > 0 {
        lemma_sum_nonneg(s.drop_last());
    }
}

proof fn lemma_prefix_measurements(c: Seq<Seq<char>>, i: int)
    requires
        0 <= i <= c.len(),
    ensures
        0 <= measurements_in(c.take(i)) <= measurements_in(c),
    decreases c.len() - i,
{
    if i < c.len() {
        lemma_prefix_measurements(c, i + 1);
        assert(c.take(i + 1).drop_last() =~= c.take(i));
    } else {
        assert(c.take(i) =~= c);
    }
    lemma_measurements_nonneg(c.take(i));
}

proof fn lemma_measurements_nonneg(c: Seq<Seq<char>>)
    ensures
        0 <= measurements_in(c),
    decreases c.len(),
{
    if c.len() > 0 {
        lemma_measurements_nonneg(c.drop_last());
    }
}

/// Why the sizes of the notes could not be put together.
#[derive(Debug, Clone, PartialEq, Eq)]
pub enum SizeError {
    /// `git cat-file` reported another number of sizes than there are notes.
    SizeCountMismatch { expected: usize, got: usize },
}

/// Puts together the size information of the measurement notes: `note_oids`
/// are the notes that `git notes list` printed, `sizes` the sizes that
/// `git cat-file --batch-check` reported for them, and `contents` the texts
/// of the notes, which are only read where a breakdown by measurement name
/// is asked for (`detailed`).
pub fn get_notes_size(detailed: bool, note_oids: &[String], sizes: &[u64], contents: &[String]) -> (r:
    Result<NotesSizeInfo, SizeError>)
    requires
        sum_sizes(sizes@) <= u64::MAX,
        detailed && note_oids@.len() > 0 && sizes@.len() == note_oids@.len() ==> contents@.len()
            == note_oids@.len() && measurements_in(strs(contents@)) <= usize::MAX,
    ensures
        note_oids@.len() == 0 ==> (r matches Ok(info) && info.total_bytes == 0 && info.note_count
            == 0 && (if detailed {
            info.by_measurement matches Some(v) && v@.len() == 0
        } else {
            info.by_measurement is None
        })),
        note_oids@.len() > 0 && sizes@.len() != note_oids@.len() ==> r == Err::<
            NotesSizeInfo,
            SizeError,
        >(SizeError::SizeCountMismatch { expected: note_oids@.len() as usize, got: sizes@.len() as usize }),
        note_oids@.len() > 0 && sizes@.len() == note_oids@.len() ==> (r matches Ok(info)
            && info.total_bytes == sum_sizes(sizes@) && info.note_count == note_oids@.len() && (
        if detailed {
            info.by_measurement matches Some(v) && size_view(v@) == breakdown_upto(
                strs(contents@),
                sizes@,
                note_oids@.len(),
            ) && names_distinct(size_view(v@)) && sum_totals(size_view(v@)) <= info.total_bytes
                && sum_counts(size_view(v@)) == measurements_in(strs(contents@))
        } else {
            info.by_measurement is None
        })),
{
    let note_count = note_oids.len();
    if note_count == 0 {
        return Ok(
            NotesSizeInfo {
                total_bytes: 0,
                note_count: 0,
                by_measurement: if detailed {
                    Some(Vec::new())
                } else {
                    None
                },
            },
        );
    }
    if sizes.len() != note_count {
        return Err(SizeError::SizeCountMismatch { expected: note_count, got: sizes.len() });
    }
    let mut total: u64 = 0;
    let mut i: usize = 0;
    while i < sizes.len()
        invariant
            i <= sizes@.len(),
            sum_sizes(sizes@) <= u64::MAX,
            total == sum_sizes(sizes@.take(i as int)),
        decreases sizes@.len() - i,
    {
        proof {
            assert(sizes@.take(i + 1).drop_last() =~= sizes@.take(i as int));
            lemma_prefix_sums(sizes@, i + 1);
        }
        total = total + sizes[i];
        i = i + 1;
    }
    proof {
        assert(sizes@.take(sizes@.len() as int) =~= sizes@);
    }
    if !detailed {
        return Ok(NotesSizeInfo { total_bytes: total, note_count, by_measurement: None });
    }
    let ghost cs = strs(contents@);
    let mut by_name: Vec<NamedSize> = Vec::new();
    let mut k: usize = 0;
    while k < note_count
        invariant
            note_count == note_oids@.len(),
            note_count == sizes@.len(),
            note_count == contents@.len(),
            cs == strs(contents@),
            sum_sizes(sizes@) <= u64::MAX,
            measurements_in(cs) <= usize::MAX,
            k <= note_count,
            size_view(by_name@) == breakdown_upto(cs, sizes@, k as nat),
            names_distinct(size_view(by_name@)),
            sum_totals(size_view(by_name@)) <= sum_sizes(sizes@.take(k as int)),
            sum_counts(size_view(by_name@)) == measurements_in(cs.take(k as int)),
        decreases note_count - k,
    {
        proof {
            assert(sizes@.take(k + 1).drop_last() =~= sizes@.take(k as int));
            assert(cs.take(k + 1).drop_last() =~= cs.take(k as int));
            assert(cs.take(k + 1).last() == cs[k as int]);
            assert(cs[k as int] == contents@[k as int]@);
            lemma_prefix_sums(sizes@, k + 1);
            lemma_prefix_measurements(cs, k + 1);
        }
        accumulate_measurement_sizes(contents[k].as_str(), sizes[k], &mut by_name);
        k = k + 1;
    }
    proof {
        assert(cs.take(note_count as int) =~= cs);
        assert(sizes@.take(note_count as int) =~= sizes@);
    }
    Ok(NotesSizeInfo { total_bytes: total, note_count, by_measurement: Some(by_name) })
}

} // verus!
