//! Turning imported test results and benchmark statistics into measurements.
use vstd::prelude::*;
use crate::data::{KeyValue, MeasurementData, kv_insert, kv_set, kv_unique, kv_view};
use crate::parsers::{TestMeasurement, status_name};
use crate::serialization::join;
use crate::text::{
    chars_of, copy_str, eq_str, lowercase, push_str, split_chars, split_on, string_of, to_lowercase,
};

verus! {

/// How imported results become measurements.
#[derive(Debug, Clone)]
pub struct ConversionOptions {
    /// A prefix for the measurement names.
    pub prefix: Option<String>,
    /// Metadata added to every measurement.
    pub extra_metadata: Vec<(String, String)>,
    /// The epoch of the measurements.
    pub epoch: u32,
    /// The timestamp of the measurements, as the floating-point text that is stored.
    pub timestamp: String,
}

/// A measurement name: `[prefix::]type_prefix::id[::suffix]`.
pub open spec fn measurement_name(
    prefix: Option<Seq<char>>,
    type_prefix: Seq<char>,
    id: Seq<char>,
    suffix: Option<Seq<char>>,
) -> Seq<char> {
    let head = match prefix {
        Some(p) => seq![p],
        None => Seq::empty(),
    };
    let tail = match suffix {
        Some(s) => seq![s],
        None => Seq::empty(),
    };
    join(head + seq![type_prefix, id] + tail, "::"@)
}

/// The prefix of the options as plain text.
pub open spec fn prefix_of(options: ConversionOptions) -> Option<Seq<char>> {
    match options.prefix {
        Some(p) => Some(p@),
        None => None,
    }
}

proof fn lemma_join_two_more(parts: Seq<Seq<char>>, sep: Seq<char>, p: Seq<char>)
    requires
        parts.len() >= 1,
    ensures
        join(parts.push(p), sep) == join(parts, sep) + sep + p,
{
    assert(parts.push(p).drop_last() =~= parts);
}

/// Formats a measurement name from the type, the id, an optional suffix and
/// the prefix of the options.
pub fn format_measurement_name(
    type_prefix: &str,
    id: &str,
    suffix: Option<&str>,
    options: &ConversionOptions,
) -> (r: String)
    ensures
        r@ == measurement_name(
            prefix_of(*options),
            type_prefix@,
            id@,
            match suffix {
                Some(s) => Some(s@),
                None => None,
            },
        ),
{
    let ghost head = match prefix_of(*options) {
        Some(p) => seq![p],
        None => Seq::<Seq<char>>::empty(),
    };
    let mut out: Vec<char> = Vec::new();
    let ghost parts: Seq<Seq<char>>;
    match &options.prefix {
        Some(p) => {
            push_str(&mut out, p.as_str());
            push_str(&mut out, "::");
            push_str(&mut out, type_prefix);
            proof {
                assert(seq![p@].push(type_prefix@) =~= seq![p@, type_prefix@]);
                lemma_join_two_more(seq![p@], "::"@, type_prefix@);
                assert(join(seq![p@], "::"@) == p@);
                parts = seq![p@, type_prefix@];
            }
        },
        None => {
            push_str(&mut out, type_prefix);
            proof {
                parts = seq![type_prefix@];
                assert(join(parts, "::"@) == type_prefix@);
            }
        },
    }
    assert(parts =~= head + seq![type_prefix@]);
    assert(out@ =~= join(parts, "::"@));
    push_str(&mut out, "::");
    push_str(&mut out, id);
    proof {
        lemma_join_two_more(parts, "::"@, id@);
        assert(out@ =~= join(parts.push(id@), "::"@));
    }
    let ghost parts2 = parts.push(id@);
    assert(parts2 =~= head + seq![type_prefix@, id@]);
    match suffix {
        Some(s) => {
            push_str(&mut out, "::");
            push_str(&mut out, s);
            proof {
                lemma_join_two_more(parts2, "::"@, s@);
                assert(out@ =~= join(parts2.push(s@), "::"@));
                assert(parts2.push(s@) =~= head + seq![type_prefix@, id@] + seq![s@]);
            }
        },
        None => {
            assert(parts2 =~= head + seq![type_prefix@, id@] + Seq::<Seq<char>>::empty());
        },
    }
    string_of(out.as_slice())
}

/// `kvs` with each pair of `pairs` set in turn.
pub open spec fn kv_insert_all(kvs: Seq<KeyValue>, pairs: Seq<KeyValue>) -> Seq<KeyValue>
    decreases pairs.len(),
{
    if pairs.len() == 0 {
        kvs
    } else {
        let prev = kv_insert_all(kvs, pairs.drop_last());
        kv_insert(prev, pairs.last().0, pairs.last().1)
    }
}

/// Sets each pair of `pairs` in `kvs`, in order; a later pair overrides an
/// earlier one with the same key.
pub fn kv_set_all(kvs: &mut Vec<(String, String)>, pairs: &[(String, String)])
    requires
        kv_unique(kv_view(old(kvs)@)),
    ensures
        kv_view(final(kvs)@) == kv_insert_all(kv_view(old(kvs)@), kv_view(pairs@)),
        kv_unique(kv_view(final(kvs)@)),
{
    let ghost pv = kv_view(pairs@);
    let mut i: usize = 0;
    while i < pairs.len()
        invariant
            i <= pairs@.len(),
            pv == kv_view(pairs@),
            kv_unique(kv_view(kvs@)),
            kv_view(kvs@) == kv_insert_all(kv_view(old(kvs)@), pv.take(i as int)),
        decreases pairs@.len() - i,
    {
        proof {
            assert(pv.take(i + 1).drop_last() =~= pv.take(i as int));
            assert(pv.take(i + 1).last() == pv[i as int]);
        }
        let (k, v) = &pairs[i];
        kv_set(kvs, copy_str(k.as_str()), copy_str(v.as_str()));
        i = i + 1;
    }
    proof {
        assert(pv.take(pairs@.len() as int) =~= pv);
    }
}

/// The metadata of a converted test: type, status and unit, then the
/// test's own metadata, then the extra metadata of the options.
pub open spec fn test_metadata(test: TestMeasurement, extra: Seq<KeyValue>) -> Seq<KeyValue> {
    let base = seq![("type"@, "test"@), ("status"@, status_name(test.status)), ("unit"@, "ns"@)];
    kv_insert_all(kv_insert_all(base, kv_view(test.metadata@)), extra)
}

/// Converts a test result. A test without a run time has no performance to
/// track and gives nothing; one with a run time gives a measurement named
/// `[prefix::]test::<name>` whose value is `value`: the run time in
/// nanoseconds as the floating-point text that is stored, which the caller
/// formats from `duration_ns`.
pub fn convert_test(test: &TestMeasurement, value: &str, options: &ConversionOptions) -> (r: Vec<
    MeasurementData,
>)
    ensures
        test.duration_ns is None ==> r@.len() == 0,
        test.duration_ns is Some ==> r@.len() == 1 && r@[0]@.epoch == options.epoch
            && r@[0]@.name == measurement_name(prefix_of(*options), "test"@, test.name@, None)
            && r@[0]@.timestamp == options.timestamp@ && r@[0]@.val == value@
            && r@[0]@.key_values == test_metadata(*test, kv_view(options.extra_metadata@)),
{
    if test.duration_ns.is_none() {
        return Vec::new();
    }
    let name = format_measurement_name("test", test.name.as_str(), None, options);
    let mut kvs: Vec<(String, String)> = Vec::new();
    kvs.push((copy_str("type"), copy_str("test")));
    kvs.push((copy_str("status"), copy_str(test.status.as_str())));
    kvs.push((copy_str("unit"), copy_str("ns")));
    proof {
        reveal_strlit("type");
        reveal_strlit("status");
        reveal_strlit("unit");
        assert(kv_view(kvs@) =~= seq![
            ("type"@, "test"@),
            ("status"@, status_name(test.status)),
            ("unit"@, "ns"@),
        ]);
        assert(kv_unique(kv_view(kvs@))) by {
            assert("type"@[0] != "status"@[0]);
            assert("type"@[0] != "unit"@[0]);
            assert("status"@[0] != "unit"@[0]);
        }
    }
    kv_set_all(&mut kvs, test.metadata.as_slice());
    kv_set_all(&mut kvs, options.extra_metadata.as_slice());
    let m = MeasurementData {
        epoch: options.epoch,
        name,
        timestamp: copy_str(options.timestamp.as_str()),
        val: copy_str(value),
        key_values: kvs,
    };
    let mut out: Vec<MeasurementData> = Vec::new();
    out.push(m);
    out
}

/// What a unit of criterion's report is worth in nanoseconds, by its
/// lower-cased name; units that are not times are kept as they are.
pub open spec fn unit_factor(lower: Seq<char>) -> Option<u64> {
    if lower == "ns"@ {
        Some(1)
    } else if lower == "us"@ || lower == "\u{3bc}s"@ {
        Some(1_000)
    } else if lower == "ms"@ {
        Some(1_000_000)
    } else if lower == "s"@ {
        Some(1_000_000_000)
    } else {
        None
    }
}

/// The factor by which a value in `unit` is multiplied and the unit it is
/// then stored with: time units become nanoseconds, any other unit is kept
/// with a factor of one.
pub fn convert_benchmark_unit(unit: &str) -> (r: (u64, String))
    ensures
        match unit_factor(lowercase(unit@)) {
            Some(f) => r.0 == f && r.1@ == "ns"@,
            None => r.0 == 1 && r.1@ == unit@,
        },
{
    let lower = to_lowercase(unit);
    let l = lower.as_str();
    if eq_str(l, "ns") {
        (1, copy_str("ns"))
    } else if eq_str(l, "us") || eq_str(l, "\u{3bc}s") {
        (1_000, copy_str("ns"))
    } else if eq_str(l, "ms") {
        (1_000_000, copy_str("ns"))
    } else if eq_str(l, "s") {
        (1_000_000_000, copy_str("ns"))
    } else {
        (1, copy_str(unit))
    }
}

/// The group, name and input of a benchmark id: `group/name` or
/// `group/name/input`; any other id is the name of the group `unknown`.
pub open spec fn bench_id_split(id: Seq<char>) -> (Seq<char>, Seq<char>, Option<Seq<char>>) {
    let parts = split_on(id, '/');
    if parts.len() == 2 {
        (parts[0], parts[1], None)
    } else if parts.len() == 3 {
        (parts[0], parts[1], Some(parts[2]))
    } else {
        ("unknown"@, id, None)
    }
}

/// Splits a benchmark id into group, name and input.
pub fn split_bench_id(id: &str) -> (r: (String, String, Option<String>))
    ensures
        r.0@ == bench_id_split(id@).0,
        r.1@ == bench_id_split(id@).1,
        match r.2 {
            Some(s) => bench_id_split(id@).2 == Some(s@),
            None => bench_id_split(id@).2 is None,
        },
{
    let c = chars_of(id);
    let parts = split_chars(c.as_slice(), '/');
    if parts.len() == 2 {
        (string_of(parts[0].as_slice()), string_of(parts[1].as_slice()), None)
    } else if parts.len() == 3 {
        (
            string_of(parts[0].as_slice()),
            string_of(parts[1].as_slice()),
            Some(string_of(parts[2].as_slice())),
        )
    } else {
        (copy_str("unknown"), copy_str(id), None)
    }
}

/// The metadata of one statistic of a benchmark: type, group, name, input
/// where there is one, statistic and unit, then the benchmark's own
/// metadata, then the extra metadata of the options.
pub open spec fn bench_metadata(
    id: Seq<char>,
    stat: Seq<char>,
    unit: Seq<char>,
    own: Seq<KeyValue>,
    extra: Seq<KeyValue>,
) -> Seq<KeyValue> {
    let (group, name, input) = bench_id_split(id);
    let start = seq![("type"@, "bench"@), ("group"@, group), ("bench_name"@, name)];
    let with_input = match input {
        Some(i) => start.push(("input"@, i)),
        None => start,
    };
    let base = with_input + seq![("statistic"@, stat), ("unit"@, unit)];
    kv_insert_all(kv_insert_all(base, own), extra)
}

/// Converts the statistics of a benchmark: one measurement per statistic,
/// named `[prefix::]bench::<id>::<statistic>`, in the order given. `stats`
/// pairs the name of each statistic that the report has with the text of
/// its value in the unit that [`convert_benchmark_unit`] gives for `unit`.
pub fn convert_benchmark(
    id: &str,
    stats: &[(String, String)],
    unit: &str,
    metadata: &[(String, String)],
    options: &ConversionOptions,
) -> (r: Vec<MeasurementData>)
    ensures
        r@.len() == stats@.len(),
        forall|i: int|
            0 <= i < r@.len() ==> {
                let m = (#[trigger] r@[i])@;
                let unit_n = match unit_factor(lowercase(unit@)) {
                    Some(_) => "ns"@,
                    None => unit@,
                };
                &&& m.epoch == options.epoch
                &&& m.name == measurement_name(
                    prefix_of(*options),
                    "bench"@,
                    id@,
                    Some(stats@[i].0@),
                )
                &&& m.timestamp == options.timestamp@
                &&& m.val == stats@[i].1@
                &&& m.key_values == bench_metadata(
                    id@,
                    stats@[i].0@,
                    unit_n,
                    kv_view(metadata@),
                    kv_view(options.extra_metadata@),
                )
            },
{
    let (group, bench_name, input) = split_bench_id(id);
    let (_, unit_n) = convert_benchmark_unit(unit);
    let ghost un = match unit_factor(lowercase(unit@)) {
        Some(_) => "ns"@,
        None => unit@,
    };
    let mut out: Vec<MeasurementData> = Vec::new();
    let mut i: usize = 0;
    while i < stats.len()
        invariant
            i <= stats@.len(),
            out@.len() == i,
            group@ == bench_id_split(id@).0,
            bench_name@ == bench_id_split(id@).1,
            match input {
                Some(s) => bench_id_split(id@).2 == Some(s@),
                None => bench_id_split(id@).2 is None,
            },
            unit_n@ == un,
            un == match unit_factor(lowercase(unit@)) {
                Some(_) => "ns"@,
                None => unit@,
            },
            forall|k: int|
                0 <= k < i ==> {
                    let m = (#[trigger] out@[k])@;
                    &&& m.epoch == options.epoch
                    &&& m.name == measurement_name(
                        prefix_of(*options),
                        "bench"@,
                        id@,
                        Some(stats@[k].0@),
                    )
                    &&& m.timestamp == options.timestamp@
                    &&& m.val == stats@[k].1@
                    &&& m.key_values == bench_metadata(
                        id@,
                        stats@[k].0@,
                        un,
                        kv_view(metadata@),
                        kv_view(options.extra_metadata@),
                    )
                },
        decreases stats@.len() - i,
    {
        let (stat, value) = &stats[i];
        let name = format_measurement_name("bench", id, Some(stat.as_str()), options);
        let mut kvs: Vec<(String, String)> = Vec::new();
        kvs.push((copy_str("type"), copy_str("bench")));
        kvs.push((copy_str("group"), copy_str(group.as_str())));
        kvs.push((copy_str("bench_name"), copy_str(bench_name.as_str())));
        match &input {
            Some(inp) => {
                kvs.push((copy_str("input"), copy_str(inp.as_str())));
            },
            None => {},
        }
        kvs.push((copy_str("statistic"), copy_str(stat.as_str())));
        kvs.push((copy_str("unit"), copy_str(unit_n.as_str())));
        proof {
            reveal_strlit("type");
            reveal_strlit("group");
            reveal_strlit("bench_name");
            reveal_strlit("input");
            reveal_strlit("statistic");
            reveal_strlit("unit");
            let split = bench_id_split(id@);
            let start = seq![("type"@, "bench"@), ("group"@, split.0), ("bench_name"@, split.1)];
            let with_input = match split.2 {
                Some(x) => start.push(("input"@, x)),
                None => start,
            };
            let base = with_input + seq![("statistic"@, stats@[i as int].0@), ("unit"@, un)];
            assert(kv_view(kvs@) =~= base);
            let keys = seq!["type"@, "group"@, "bench_name"@, "input"@, "statistic"@, "unit"@];
            assert(keys[0][0] == 't' && keys[1][0] == 'g' && keys[2][0] == 'b' && keys[3][0] == 'i'
                && keys[4][0] == 's' && keys[5][0] == 'u');
            assert(kv_unique(kv_view(kvs@))) by {
                assert forall|a: int, b: int|
                    0 <= a < kv_view(kvs@).len() && 0 <= b < kv_view(kvs@).len() && a != b implies kv_view(
                    kvs@,
                )[a].0 != kv_view(kvs@)[b].0 by {
                    assert(kv_view(kvs@)[a].0[0] != kv_view(kvs@)[b].0[0]);
                }
            }
        }
        kv_set_all(&mut kvs, metadata);
        kv_set_all(&mut kvs, options.extra_metadata.as_slice());
        out.push(
            MeasurementData {
                epoch: options.epoch,
                name,
                timestamp: copy_str(options.timestamp.as_str()),
                val: copy_str(value.as_str()),
                key_values: kvs,
            },
        );
        i = i + 1;
    }
    out
}

/// How the unit of an imported measurement relates to the unit configured
/// for it.
#[derive(Debug, Clone, Copy, PartialEq, Eq)]
pub enum UnitCheck {
    /// The configured unit is the imported one.
    Matches,
    /// Another unit is configured.
    Mismatch,
    /// No unit is configured.
    Unconfigured,
}

/// Compares the unit of an imported measurement with the configured one.
pub fn validate_unit(unit: &str, configured: Option<&str>) -> (r: UnitCheck)
    ensures
        match configured {
            None => r == UnitCheck::Unconfigured,
            Some(c) => if c@ == unit@ {
                r == UnitCheck::Matches
            } else {
                r == UnitCheck::Mismatch
            },
        },
{
    match configured {
        None => UnitCheck::Unconfigured,
        Some(c) => if eq_str(c, unit) {
            UnitCheck::Matches
        } else {
            UnitCheck::Mismatch
        },
    }
}

} // verus!
