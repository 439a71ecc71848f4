//! Measurements imported from test runners and benchmark tools, and the
//! parts of reading their reports that do not involve floating point.
use vstd::prelude::*;
use crate::data::{KeyValue, kv_insert, kv_set, kv_unique, kv_view};
use crate::text::{
    chars_of, contains_chars, contains_seq, copy_str, eq_str, lines_chars, lines_of, split_chars, split_on,
    string_of, trim, trim_chars,
};

verus! {

/// Test execution status.
#[derive(Debug, Clone, Copy, PartialEq, Eq)]
pub enum TestStatus {
    Passed,
    Failed,
    Error,
    Skipped,
}

/// The name of a status as stored in measurement metadata.
pub open spec fn status_name(s: TestStatus) -> Seq<char> {
    match s {
        TestStatus::Passed => "passed"@,
        TestStatus::Failed => "failed"@,
        TestStatus::Error => "error"@,
        TestStatus::Skipped => "skipped"@,
    }
}

impl TestStatus {
    /// The lower-case name of the status.
    pub fn as_str(&self) -> (r: &'static str)
        ensures
            r@ == status_name(*self),
    {
        match self {
            TestStatus::Passed => "passed",
            TestStatus::Failed => "failed",
            TestStatus::Error => "error",
            TestStatus::Skipped => "skipped",
        }
    }
}

/// A test case from a test runner's report.
#[derive(Debug, Clone)]
pub struct TestMeasurement {
    pub name: String,
    /// Run time in nanoseconds, when the report gives one.
    pub duration_ns: Option<u64>,
    pub status: TestStatus,
    pub metadata: Vec<(String, String)>,
}

/// The parts of a benchmark id `group/name/input`: with one part only a
/// name, with two a group and a name, with more a group, a name and the
/// rest of the id (after the second `/`) as input.
pub open spec fn benchmark_id_parts(id: Seq<char>) -> (Option<Seq<char>>, Option<Seq<char>>, Option<Seq<char>>) {
    let parts = split_on(id, '/');
    if parts.len() == 1 {
        (None, Some(parts[0]), None)
    } else if parts.len() == 2 {
        (Some(parts[0]), Some(parts[1]), None)
    } else {
        (Some(parts[0]), Some(parts[1]), Some(join_slash(parts.skip(2))))
    }
}

/// `parts` joined with `/`.
pub open spec fn join_slash(parts: Seq<Seq<char>>) -> Seq<char>
    decreases parts.len(),
{
    if parts.len() == 0 {
        Seq::empty()
    } else if parts.len() == 1 {
        parts[0]
    } else {
        join_slash(parts.drop_last()).push('/') + parts.last()
    }
}

/// How often `c` occurs in `s`.
pub open spec fn count_char(s: Seq<char>, c: char) -> nat
    decreases s.len(),
{
    if s.len() == 0 {
        0
    } else {
        count_char(s.drop_last(), c) + if s.last() == c {
            1nat
        } else {
            0nat
        }
    }
}

proof fn lemma_join_slash_extend(ps: Seq<Seq<char>>, c: char)
    requires
        ps.len() >= 1,
    ensures
        join_slash(ps.update(ps.len() - 1, ps.last().push(c))) == join_slash(ps).push(c),
{
    let qs = ps.update(ps.len() - 1, ps.last().push(c));
    if ps.len() > 1 {
        assert(qs.drop_last() =~= ps.drop_last());
        assert(join_slash(ps.drop_last()).push('/') + ps.last().push(c) =~= (join_slash(
            ps.drop_last(),
        ).push('/') + ps.last()).push(c));
    }
}

/// The pieces of `s` between the `/`s hold no `/`, there is one more of
/// them than there are `/`s, and joined with `/` they give `s` back.
proof fn lemma_split_slash(s: Seq<char>)
    ensures
        split_on(s, '/').len() == count_char(s, '/') + 1,
        forall|i: int| 0 <= i < split_on(s, '/').len() ==> !(#[trigger] split_on(s, '/')[i]).contains('/'),
        join_slash(split_on(s, '/')) == s,
    decreases s.len(),
{
    if s.len() == 0 {
        assert(split_on(s, '/') =~= seq![Seq::<char>::empty()]);
    } else {
        let prev = split_on(s.drop_last(), '/');
        lemma_split_slash(s.drop_last());
        assert(s.drop_last().push(s.last()) =~= s);
        if s.last() == '/' {
            let cur = prev.push(Seq::<char>::empty());
            assert(cur.drop_last() =~= prev);
            assert(join_slash(cur) =~= s.drop_last().push('/') + Seq::<char>::empty());
            assert forall|i: int| 0 <= i < cur.len() implies !(#[trigger] cur[i]).contains('/') by {
                if i < prev.len() {
                    assert(cur[i] == prev[i]);
                }
            }
        } else {
            let cur = prev.update(prev.len() - 1, prev.last().push(s.last()));
            lemma_join_slash_extend(prev, s.last());
            assert forall|i: int| 0 <= i < cur.len() implies !(#[trigger] cur[i]).contains('/') by {
                if i < prev.len() - 1 {
                    assert(cur[i] == prev[i]);
                } else {
                    let x = prev.last().push(s.last());
                    assert(!prev[prev.len() - 1].contains('/'));
                    if x.contains('/') {
                        let j = choose|j: int| 0 <= j < x.len() && x[j] == '/';
                        if j < x.len() - 1 {
                            assert(prev.last()[j] == '/');
                        }
                    }
                }
            }
        }
    }
}

proof fn lemma_join_slash_first(ps: Seq<Seq<char>>)
    requires
        ps.len() >= 2,
    ensures
        join_slash(ps) == ps[0].push('/') + join_slash(ps.skip(1)),
    decreases ps.len(),
{
    if ps.len() == 2 {
        assert(ps.drop_last() =~= seq![ps[0]]);
        assert(ps.skip(1) =~= seq![ps[1]]);
        assert(join_slash(ps.drop_last()) == ps[0]);
        assert(join_slash(ps.skip(1)) == ps[1]);
        assert(ps.last() == ps[1]);
        assert(join_slash(ps) == join_slash(ps.drop_last()).push('/') + ps.last());
    } else {
        let dl = ps.drop_last();
        lemma_join_slash_first(dl);
        assert(ps.skip(1).drop_last() =~= dl.skip(1));
        assert(ps.skip(1).last() == ps.last());
        assert(dl[0] == ps[0]);
        assert(join_slash(ps) == join_slash(dl).push('/') + ps.last());
        assert(join_slash(ps.skip(1)) == join_slash(ps.skip(1).drop_last()).push('/') + ps.skip(1).last());
        assert(join_slash(ps) =~= ps[0].push('/') + join_slash(ps.skip(1)));
    }
}

/// The id that the parts of a benchmark id give when joined with `/`.
pub open spec fn rejoined_id(parts: (Option<Seq<char>>, Option<Seq<char>>, Option<Seq<char>>)) -> Seq<char> {
    let n = match parts.1 {
        Some(x) => x,
        None => Seq::empty(),
    };
    match (parts.0, parts.2) {
        (None, _) => n,
        (Some(g), None) => g.push('/') + n,
        (Some(g), Some(i)) => g.push('/') + n.push('/') + i,
    }
}

/// The parts of a benchmark id: there is always a name; a group exactly
/// where the id holds a `/`, and an input exactly where it holds two or
/// more; group and name hold no `/`; joined with `/` they give the id back.
pub proof fn lemma_benchmark_id_parts(id: Seq<char>)
    ensures
        ({
            let p = benchmark_id_parts(id);
            &&& p.1 is Some
            &&& !p.1.unwrap().contains('/')
            &&& (p.0 is Some <==> id.contains('/'))
            &&& (p.0 matches Some(g) ==> !g.contains('/'))
            &&& (p.2 is Some <==> count_char(id, '/') >= 2)
            &&& rejoined_id(p) == id
        }),
{
    let parts = split_on(id, '/');
    lemma_split_slash(id);
    assert(!parts[0].contains('/'));
    if parts.len() >= 2 {
        assert(!parts[1].contains('/'));
    }
    if parts.len() == 1 {
        assert(parts =~= seq![parts[0]]);
        if id.contains('/') {
            assert(parts[0] == id);
        }
    } else {
        lemma_join_slash_first(parts);
        if parts.len() == 2 {
            assert(parts.skip(1) =~= seq![parts[1]]);
        } else {
            lemma_join_slash_first(parts.skip(1));
            assert(parts.skip(1).skip(1) =~= parts.skip(2));
            assert(parts.skip(1)[0] == parts[1]);
        }
        assert(id.contains('/')) by {
            let g = parts[0];
            assert(id == join_slash(parts));
            assert(id[g.len() as int] == '/');
        }
    }
}

/// The mathematical value of an optional string.
pub open spec fn opt_str(o: Option<String>) -> Option<Seq<char>> {
    match o {
        Some(s) => Some(s@),
        None => None,
    }
}

/// Splits a benchmark id into group, name and input.
pub fn parse_benchmark_id(id: &str) -> (r: (Option<String>, Option<String>, Option<String>))
    ensures
        (opt_str(r.0), opt_str(r.1), opt_str(r.2)) == benchmark_id_parts(id@),
{
    let cs = chars_of(id);
    let parts = split_chars(cs.as_slice(), '/');
    proof {
        crate::text::lemma_split_nonempty(id@, '/');
    }
    if parts.len() == 1 {
        (None, Some(string_of(parts[0].as_slice())), None)
    } else if parts.len() == 2 {
        (Some(string_of(parts[0].as_slice())), Some(string_of(parts[1].as_slice())), None)
    } else {
        let ghost sp = split_on(id@, '/');
        let ghost rest = sp.skip(2);
        let mut input: Vec<char> = Vec::new();
        let mut i: usize = 2;
        while i < parts.len()
            invariant
                2 <= i <= parts@.len(),
                parts@.len() == sp.len(),
                rest == sp.skip(2),
                forall|j: int| 0 <= j < parts@.len() ==> #[trigger] parts@[j]@ == sp[j],
                input@ == join_slash(rest.take(i - 2)),
            decreases parts@.len() - i,
        {
            let ghost before = input@;
            if i > 2 {
                input.push('/');
            }
            crate::git::append(&mut input, parts[i].as_slice());
            proof {
                let q = rest.take(i - 2 + 1);
                assert(q.drop_last() =~= rest.take(i - 2));
                assert(q.last() == sp[i as int]);
                if i == 2 {
                    assert(q =~= seq![sp[2]]);
                    assert(input@ =~= sp[2]);
                } else {
                    assert(input@ =~= before.push('/') + sp[i as int]);
                }
            }
            i = i + 1;
        }
        assert(rest.take(i - 2) =~= rest);
        (Some(string_of(parts[0].as_slice())), Some(string_of(parts[1].as_slice())), Some(string_of(input.as_slice())))
    }
}

/// A test case of a JUnit report, as the XML gives it; its run time is
/// already converted to nanoseconds.
#[derive(Debug, Clone)]
pub struct JunitTestCase {
    pub name: String,
    /// The `classname` attribute; empty where it is missing.
    pub classname: String,
    pub time_ns: Option<u64>,
    pub failure: bool,
    pub error: bool,
    pub skipped: bool,
}

/// A test suite of a JUnit report.
#[derive(Debug, Clone)]
pub struct JunitTestSuite {
    /// The `name` attribute; empty where it is missing.
    pub name: String,
    pub testcases: Vec<JunitTestCase>,
}

/// The status of a test case: skipped before error before failure.
pub open spec fn case_status(c: JunitTestCase) -> TestStatus {
    if c.skipped {
        TestStatus::Skipped
    } else if c.error {
        TestStatus::Error
    } else if c.failure {
        TestStatus::Failed
    } else {
        TestStatus::Passed
    }
}

/// The metadata of a test case: its type, its class and suite where they
/// are not empty, and its status.
pub open spec fn case_metadata(c: JunitTestCase, suite: Seq<char>) -> Seq<KeyValue> {
    let a = seq![("type"@, "test"@)];
    let b = if c.classname@.len() > 0 {
        a.push(("classname"@, c.classname@))
    } else {
        a
    };
    let d = if suite.len() > 0 {
        b.push(("suite"@, suite))
    } else {
        b
    };
    d.push(("status"@, status_name(case_status(c))))
}

/// Whether a report holds several suites: its trimmed text mentions
/// `<testsuites`.
pub open spec fn is_testsuites_spec(input: Seq<char>) -> bool {
    contains_seq(trim(input), "<testsuites"@)
}

/// Reads JUnit XML reports.
#[derive(Debug, Clone, Copy)]
pub struct JunitXmlParser;

impl JunitXmlParser {
    /// Whether the report is read as several suites (`<testsuites>`) rather
    /// than one.
    pub fn is_testsuites(&self, input: &str) -> (b: bool)
        ensures
            b == is_testsuites_spec(input@),
    {
        let c = chars_of(input);
        let t = trim_chars(c.as_slice());
        let pat = chars_of("<testsuites");
        contains_chars(t.as_slice(), pat.as_slice())
    }

    /// The measurement of one test case of the suite `suite_name`.
    pub fn test_case_measurement(&self, c: &JunitTestCase, suite_name: &str) -> (r: TestMeasurement)
        ensures
            r.name@ == c.name@,
            r.duration_ns == c.time_ns,
            r.status == case_status(*c),
            kv_view(r.metadata@) == case_metadata(*c, suite_name@),
    {
        let status = if c.skipped {
            TestStatus::Skipped
        } else if c.error {
            TestStatus::Error
        } else if c.failure {
            TestStatus::Failed
        } else {
            TestStatus::Passed
        };
        let mut metadata: Vec<(String, String)> = Vec::new();
        metadata.push((copy_str("type"), copy_str("test")));
        if chars_of(c.classname.as_str()).len() > 0 {
            metadata.push((copy_str("classname"), copy_str(c.classname.as_str())));
        }
        if chars_of(suite_name).len() > 0 {
            metadata.push((copy_str("suite"), copy_str(suite_name)));
        }
        metadata.push((copy_str("status"), copy_str(status.as_str())));
        proof {
            reveal_strlit("type");
            reveal_strlit("test");
            reveal_strlit("classname");
            reveal_strlit("suite");
            reveal_strlit("status");
            assert(kv_view(metadata@) =~= case_metadata(*c, suite_name@));
        }
        TestMeasurement {
            name: copy_str(c.name.as_str()),
            duration_ns: c.time_ns,
            status,
            metadata,
        }
    }

    /// The measurements of all test cases of the suites, suite by suite, in
    /// the order of the report.
    pub fn measurements(&self, suites: &[JunitTestSuite]) -> (r: Vec<TestMeasurement>)
        ensures
            r@.len() == suite_case_count(suites@),
            forall|s: int, k: int|
                0 <= s < suites@.len() && 0 <= k < suites@[s].testcases@.len() ==> {
                    let m = #[trigger] r@[cases_before(suites@, s) + k];
                    let c = suites@[s].testcases@[k];
                    &&& m.name@ == c.name@
                    &&& m.duration_ns == c.time_ns
                    &&& m.status == case_status(c)
                    &&& kv_view(m.metadata@) == case_metadata(c, suites@[s].name@)
                },
    {
        let mut out: Vec<TestMeasurement> = Vec::new();
        let mut s: usize = 0;
        while s < suites.len()
            invariant
                s <= suites@.len(),
                out@.len() == cases_before(suites@, s as int),
                forall|t: int, k: int|
                    0 <= t < s && 0 <= k < suites@[t].testcases@.len() ==> {
                        let m = #[trigger] out@[cases_before(suites@, t) + k];
                        let c = suites@[t].testcases@[k];
                        &&& m.name@ == c.name@
                        &&& m.duration_ns == c.time_ns
                        &&& m.status == case_status(c)
                        &&& kv_view(m.metadata@) == case_metadata(c, suites@[t].name@)
                    },
            decreases suites@.len() - s,
        {
            let suite = &suites[s];
            let base = out.len();
            proof {
                lemma_cases_before_step(suites@, s as int);
            }
            let mut k: usize = 0;
            while k < suite.testcases.len()
                invariant
                    s < suites@.len(),
                    *suite == suites@[s as int],
                    base == cases_before(suites@, s as int),
                    k <= suite.testcases@.len(),
                    out@.len() == base + k,
                    forall|t: int, j: int|
                        0 <= t < s && 0 <= j < suites@[t].testcases@.len() ==> {
                            let m = #[trigger] out@[cases_before(suites@, t) + j];
                            let c = suites@[t].testcases@[j];
                            &&& m.name@ == c.name@
                            &&& m.duration_ns == c.time_ns
                            &&& m.status == case_status(c)
                            &&& kv_view(m.metadata@) == case_metadata(c, suites@[t].name@)
                        },
                    forall|j: int|
                        0 <= j < k ==> {
                            let m = #[trigger] out@[base + j];
                            let c = suite.testcases@[j];
                            &&& m.name@ == c.name@
                            &&& m.duration_ns == c.time_ns
                            &&& m.status == case_status(c)
                            &&& kv_view(m.metadata@) == case_metadata(c, suite.name@)
                        },
                decreases suite.testcases@.len() - k,
            {
                let m = self.test_case_measurement(&suite.testcases[k], suite.name.as_str());
                let ghost prev = out@;
                out.push(m);
                proof {
                    assert forall|t: int, j: int|
                        0 <= t < s && 0 <= j < suites@[t].testcases@.len() implies {
                        let m = #[trigger] out@[cases_before(suites@, t) + j];
                        let c = suites@[t].testcases@[j];
                        &&& m.name@ == c.name@
                        &&& m.duration_ns == c.time_ns
                        &&& m.status == case_status(c)
                        &&& kv_view(m.metadata@) == case_metadata(c, suites@[t].name@)
                    } by {
                        lemma_cases_before_mono(suites@, t + 1, s as int);
                        lemma_cases_before_step(suites@, t);
                        assert(out@[cases_before(suites@, t) + j] == prev[cases_before(suites@, t) + j]);
                    }
                    assert forall|j: int| 0 <= j < k + 1 implies {
                        let m = #[trigger] out@[base + j];
                        let c = suite.testcases@[j];
                        &&& m.name@ == c.name@
                        &&& m.duration_ns == c.time_ns
                        &&& m.status == case_status(c)
                        &&& kv_view(m.metadata@) == case_metadata(c, suite.name@)
                    } by {
                        if j < k {
                            assert(out@[base + j] == prev[base + j]);
                        }
                    }
                }
                k = k + 1;
            }
            proof {
                assert forall|t: int, j: int|
                    0 <= t < s + 1 && 0 <= j < suites@[t].testcases@.len() implies {
                    let m = #[trigger] out@[cases_before(suites@, t) + j];
                    let c = suites@[t].testcases@[j];
                    &&& m.name@ == c.name@
                    &&& m.duration_ns == c.time_ns
                    &&& m.status == case_status(c)
                    &&& kv_view(m.metadata@) == case_metadata(c, suites@[t].name@)
                } by {
                    if t == s {
                        assert(out@[base + j] == out@[cases_before(suites@, t) + j]);
                    }
                }
            }
            s = s + 1;
        }
        proof {
            lemma_cases_before_total(suites@);
        }
        out
    }
}

/// The number of test cases of the first `n` suites.
pub open spec fn cases_before(suites: Seq<JunitTestSuite>, n: int) -> int
    decreases n,
{
    if n <= 0 {
        0
    } else {
        cases_before(suites, n - 1) + suites[n - 1].testcases@.len()
    }
}

/// The number of test cases of all suites.
pub open spec fn suite_case_count(suites: Seq<JunitTestSuite>) -> int {
    cases_before(suites, suites.len() as int)
}

proof fn lemma_cases_before_step(suites: Seq<JunitTestSuite>, n: int)
    requires
        0 <= n,
    ensures
        cases_before(suites, n + 1) == cases_before(suites, n) + suites[n].testcases@.len(),
        0 <= cases_before(suites, n),
    decreases n,
{
    if n > 0 {
        lemma_cases_before_step(suites, n - 1);
    }
}

proof fn lemma_cases_before_mono(suites: Seq<JunitTestSuite>, a: int, b: int)
    requires
        0 <= a <= b,
    ensures
        cases_before(suites, a) <= cases_before(suites, b),
    decreases b - a,
{
    if a < b {
        lemma_cases_before_mono(suites, a, b - 1);
        lemma_cases_before_step(suites, b - 1);
    }
}

proof fn lemma_cases_before_total(suites: Seq<JunitTestSuite>)
    ensures
        suite_case_count(suites) == cases_before(suites, suites.len() as int),
{
}

/// Reads the line-delimited JSON messages of cargo-criterion.
#[derive(Debug, Clone, Copy)]
pub struct CriterionJsonParser;

/// The non-empty trimmed lines of a text with their one-based numbers.
pub open spec fn numbered_lines(lines: Seq<Seq<char>>) -> Seq<(int, Seq<char>)>
    decreases lines.len(),
{
    if lines.len() == 0 {
        Seq::empty()
    } else {
        let prev = numbered_lines(lines.drop_last());
        let t = trim(lines.last());
        if t.len() > 0 {
            prev.push((lines.len() as int, t))
        } else {
            prev
        }
    }
}

/// The metadata of a benchmark: its type, then its group (the report's own
/// group where it gives one, else the one read from the id), name and input
/// where there are such.
pub open spec fn criterion_metadata(id: Seq<char>, group: Option<Seq<char>>) -> Seq<KeyValue> {
    let (pg, name, input) = benchmark_id_parts(id);
    let g = match group {
        Some(g) => Some(g),
        None => pg,
    };
    let a = seq![("type"@, "bench"@)];
    let b = match g {
        Some(x) => a.push(("group"@, x)),
        None => a,
    };
    let c = match name {
        Some(x) => b.push(("bench_name"@, x)),
        None => b,
    };
    match input {
        Some(x) => c.push(("input"@, x)),
        None => c,
    }
}

/// What a criterion unit is worth in nanoseconds; an unknown unit is taken
/// as nanoseconds.
pub open spec fn nanos_per_unit(unit: Seq<char>) -> u64 {
    if unit == "us"@ {
        1_000
    } else if unit == "ms"@ {
        1_000_000
    } else if unit == "s"@ {
        1_000_000_000
    } else {
        1
    }
}

impl CriterionJsonParser {
    /// The lines that hold messages: the trimmed non-empty lines, each with
    /// its one-based line number.
    pub fn message_lines(&self, input: &str) -> (r: Vec<(usize, String)>)
        ensures
            r@.map_values(|p: (usize, String)| (p.0 as int, p.1@)) == numbered_lines(lines_of(input@)),
    {
        let c = chars_of(input);
        let lines = lines_chars(c.as_slice());
        let ghost ls = lines_of(input@);
        let mut out: Vec<(usize, String)> = Vec::new();
        let mut i: usize = 0;
        while i < lines.len()
            invariant
                i <= lines@.len(),
                lines@.len() == ls.len(),
                forall|k: int| 0 <= k < lines@.len() ==> #[trigger] lines@[k]@ == ls[k],
                out@.map_values(|p: (usize, String)| (p.0 as int, p.1@)) == numbered_lines(
                    ls.take(i as int),
                ),
            decreases lines@.len() - i,
        {
            proof {
                assert(ls.take(i + 1).drop_last() =~= ls.take(i as int));
                assert(ls.take(i + 1).last() == ls[i as int]);
            }
            let t = trim_chars(lines[i].as_slice());
            if t.len() > 0 {
                let ghost before = out@.map_values(|p: (usize, String)| (p.0 as int, p.1@));
                out.push((i + 1, string_of(t.as_slice())));
                proof {
                    assert(out@.map_values(|p: (usize, String)| (p.0 as int, p.1@)) =~= before.push(
                        ((i + 1) as int, trim(ls[i as int])),
                    ));
                }
            }
            i = i + 1;
        }
        proof {
            assert(ls.take(lines@.len() as int) =~= ls);
        }
        out
    }

    /// Whether a message reports a finished benchmark.
    pub fn is_benchmark_complete(&self, reason: &str) -> (b: bool)
        ensures
            b == (reason@ == "benchmark-complete"@),
    {
        eq_str(reason, "benchmark-complete")
    }

    /// The unit of a message, nanoseconds where it gives none.
    pub fn unit_or_default(&self, unit: Option<String>) -> (r: String)
        ensures
            r@ == match unit {
                Some(u) => u@,
                None => "ns"@,
            },
    {
        match unit {
            Some(u) => u,
            None => copy_str("ns"),
        }
    }

    /// The factor that converts a value in `unit` to nanoseconds.
    pub fn nanoseconds_factor(&self, unit: &str) -> (r: u64)
        ensures
            r == nanos_per_unit(unit@),
    {
        if eq_str(unit, "us") {
            1_000
        } else if eq_str(unit, "ms") {
            1_000_000
        } else if eq_str(unit, "s") {
            1_000_000_000
        } else {
            1
        }
    }

    /// The metadata of the benchmark with id `id`, where the report gives
    /// `group` as its group or none.
    pub fn benchmark_metadata(&self, id: &str, group: Option<String>) -> (r: Vec<(String, String)>)
        ensures
            kv_view(r@) == criterion_metadata(id@, opt_str(group)),
    {
        let (pg, name, input) = parse_benchmark_id(id);
        let g = match group {
            Some(g) => Some(g),
            None => pg,
        };
        let mut out: Vec<(String, String)> = Vec::new();
        out.push((copy_str("type"), copy_str("bench")));
        let ghost a = kv_view(out@);
        match g {
            Some(x) => out.push((copy_str("group"), x)),
            None => {},
        }
        match name {
            Some(x) => out.push((copy_str("bench_name"), x)),
            None => {},
        }
        match input {
            Some(x) => out.push((copy_str("input"), x)),
            None => {},
        }
        proof {
            reveal_strlit("type");
            reveal_strlit("bench");
            reveal_strlit("group");
            reveal_strlit("bench_name");
            reveal_strlit("input");
            assert(kv_view(out@) =~= criterion_metadata(id@, opt_str(group)));
        }
        out
    }
}

} // verus!
