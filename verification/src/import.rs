//! Importing results of test runners and benchmarks: which parsed items are
//! kept, the epochs of the measurements, and the listing of a dry run.
use vstd::prelude::*;
use crate::data::{KeyValue, MeasurementData, MeasurementModel, kv_view};
use crate::filter::{Filter, FilterError, matches_any_filter, regex_is_match, regex_valid};
use crate::num::{decimal, push_decimal};
use crate::text::{copy_str, push_str, string_of, strs};

verus! {

/// Which of the parsed items (by test name or benchmark id) an import keeps:
/// all without a pattern, else those the pattern matches somewhere.
pub fn filter_imported(names: &[String], pattern: Option<&str>) -> (r: Result<Vec<bool>, FilterError>)
    ensures
        match pattern {
            None => r matches Ok(keep) && keep@.len() == names@.len() && forall|i: int|
                0 <= i < keep@.len() ==> #[trigger] keep@[i],
            Some(p) => if regex_valid(p@) {
                r matches Ok(keep) && keep@.len() == names@.len() && forall|i: int|
                    0 <= i < keep@.len() ==> #[trigger] keep@[i] == regex_is_match(p@, names@[i]@)
            } else {
                r matches Err(FilterError::InvalidPattern(q)) && q@ == p@
            },
        },
{
    let mut filters: Vec<Filter> = Vec::new();
    match pattern {
        Some(p) => match Filter::compile(p) {
            Some(f) => filters.push(f),
            None => return Err(FilterError::InvalidPattern(copy_str(p))),
        },
        None => {},
    }
    let mut keep: Vec<bool> = Vec::new();
    let mut i: usize = 0;
    while i < names.len()
        invariant
            i <= names@.len(),
            keep@.len() == i,
            pattern is None ==> filters@.len() == 0,
            pattern matches Some(p) ==> filters@.len() == 1 && filters@[0].pattern() == p@,
            forall|k: int|
                0 <= k < i ==> #[trigger] keep@[k] == match pattern {
                    None => true,
                    Some(p) => regex_is_match(p@, names@[k]@),
                },
        decreases names@.len() - i,
    {
        let b = matches_any_filter(names[i].as_str(), filters.as_slice());
        proof {
            let ps = crate::filter::patterns_of(filters@);
            if pattern is Some {
                assert(ps[0] == filters@[0].pattern());
                if b {
                    let j = choose|j: int| 0 <= j < ps.len() && regex_is_match(#[trigger] ps[j], names@[i as int]@);
                    assert(j == 0);
                }
            }
        }
        keep.push(b);
        i = i + 1;
    }
    Ok(keep)
}

/// Sets the epoch of each measurement to the one configured for it, or to
/// zero where none is.
pub fn assign_epochs(measurements: Vec<MeasurementData>, epochs: &[Option<u32>]) -> (r: Vec<
    MeasurementData,
>)
    requires
        epochs@.len() == measurements@.len(),
    ensures
        r@.len() == measurements@.len(),
        forall|i: int|
            0 <= i < r@.len() ==> (#[trigger] r@[i])@ == (MeasurementModel {
                epoch: match epochs@[i] {
                    Some(e) => e,
                    None => 0u32,
                },
                ..measurements@[i]@
            }),
{
    let mut out: Vec<MeasurementData> = Vec::new();
    let mut rest = measurements;
    let ghost orig = rest@;
    let total = rest.len();
    let mut i: usize = 0;
    while rest.len() > 0
        invariant
            i + rest@.len() == orig.len(),
            orig.len() == total,
            epochs@.len() == orig.len(),
            rest@ == orig.skip(i as int),
            out@.len() == i,
            forall|k: int|
                0 <= k < i ==> (#[trigger] out@[k])@ == (MeasurementModel {
                    epoch: match epochs@[k] {
                        Some(e) => e,
                        None => 0u32,
                    },
                    ..orig[k]@
                }),
        decreases rest@.len(),
    {
        let mut m = rest.remove(0);
        proof {
            assert(orig.skip(i as int)[0] == m);
            assert(rest@ =~= orig.skip(i + 1));
        }
        m.epoch = match epochs[i] {
            Some(e) => e,
            None => 0,
        };
        out.push(m);
        i = i + 1;
    }
    out
}

/// The lines of key-values of a measurement in a verbose listing.
pub open spec fn kv_lines(kvs: Seq<KeyValue>) -> Seq<char>
    decreases kvs.len(),
{
    if kvs.len() == 0 {
        Seq::empty()
    } else {
        kv_lines(kvs.drop_last()) + "    "@ + kvs.last().0 + ": "@ + kvs.last().1 + "\n"@
    }
}

/// The lines of the measurements in a listing.
pub open spec fn listing_lines(ms: Seq<MeasurementModel>, verbose: bool) -> Seq<char>
    decreases ms.len(),
{
    if ms.len() == 0 {
        Seq::empty()
    } else {
        let m = ms.last();
        listing_lines(ms.drop_last(), verbose) + "  "@ + m.name + " = "@ + m.val + " (epoch: "@
            + decimal(m.epoch as nat) + ")\n"@ + if verbose {
            kv_lines(m.key_values)
        } else {
            Seq::empty()
        }
    }
}

/// The listing of the measurements to import: each with its value and
/// epoch, with its key-values where `verbose`, then their number.
pub fn import_listing(measurements: &[MeasurementData], verbose: bool) -> (r: String)
    ensures
        r@ == "\nMeasurements to import:\n"@ + listing_lines(
            measurements@.map_values(|m: MeasurementData| m@),
            verbose,
        ) + "\nTotal: "@ + decimal(measurements@.len() as nat) + " measurements\n"@,
{
    let ghost mv = measurements@.map_values(|m: MeasurementData| m@);
    let mut out: Vec<char> = Vec::new();
    push_str(&mut out, "\nMeasurements to import:\n");
    let ghost head = out@;
    let mut i: usize = 0;
    while i < measurements.len()
        invariant
            i <= measurements@.len(),
            mv == measurements@.map_values(|m: MeasurementData| m@),
            out@ == head + listing_lines(mv.take(i as int), verbose),
        decreases measurements@.len() - i,
    {
        let m = &measurements[i];
        let ghost before = out@;
        push_str(&mut out, "  ");
        push_str(&mut out, m.name.as_str());
        push_str(&mut out, " = ");
        push_str(&mut out, m.val.as_str());
        push_str(&mut out, " (epoch: ");
        push_decimal(&mut out, m.epoch as u64);
        push_str(&mut out, ")\n");
        let ghost mid = out@;
        if verbose {
            let ghost kv = kv_view(m.key_values@);
            let mut j: usize = 0;
            while j < m.key_values.len()
                invariant
                    j <= m.key_values@.len(),
                    kv == kv_view(m.key_values@),
                    out@ == mid + kv_lines(kv.take(j as int)),
                decreases m.key_values@.len() - j,
            {
                let (k, v) = &m.key_values[j];
                push_str(&mut out, "    ");
                push_str(&mut out, k.as_str());
                push_str(&mut out, ": ");
                push_str(&mut out, v.as_str());
                push_str(&mut out, "\n");
                proof {
                    assert(kv.take(j + 1).drop_last() =~= kv.take(j as int));
                    assert(kv.take(j + 1).last() == kv[j as int]);
                    assert(out@ =~= mid + kv_lines(kv.take(j + 1)));
                }
                j = j + 1;
            }
            proof {
                assert(kv.take(m.key_values@.len() as int) =~= kv);
            }
        }
        proof {
            assert(mv.take(i + 1).drop_last() =~= mv.take(i as int));
            assert(mv.take(i + 1).last() == m@);
            assert(out@ =~= head + listing_lines(mv.take(i + 1), verbose));
        }
        i = i + 1;
    }
    proof {
        assert(mv.take(measurements@.len() as int) =~= mv);
    }
    push_str(&mut out, "\nTotal: ");
    push_decimal(&mut out, measurements.len() as u64);
    push_str(&mut out, " measurements\n");
    string_of(out.as_slice())
}

} // verus!
