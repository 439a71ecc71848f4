//! The choices that the statistics of git-perf are parameterized by: how a
//! commit's measurements are reduced to one value, and how dispersion is
//! measured. The statistics themselves work on floating-point values and
//! are computed by the application.
use vstd::prelude::*;
use crate::text::{chars_of, eq_chars};

verus! {

/// How several measurements of one commit are reduced to one value.
#[derive(Debug, Clone, Copy, PartialEq, Eq)]
pub enum ReductionFunc {
    Min,
    Max,
    Median,
    Mean,
}

/// How the spread of historical measurements is measured.
#[derive(Debug, Clone, Copy, PartialEq, Eq)]
pub enum DispersionMethod {
    StandardDeviation,
    MedianAbsoluteDeviation,
}

/// `c` with ASCII upper-case letters made lower-case.
pub open spec fn ascii_lower(c: char) -> char {
    if 'A' <= c <= 'Z' {
        ((c as u32) + 32) as char
    } else {
        c
    }
}

/// Whether `a` and `b` are equal when ASCII letters are compared without
/// regard to case, as `str::eq_ignore_ascii_case` tests.
pub open spec fn eq_ignore_ascii_case(a: Seq<char>, b: Seq<char>) -> bool {
    a.len() == b.len() && forall|i: int| 0 <= i < a.len() ==> ascii_lower(a[i]) == ascii_lower(b[i])
}

fn ascii_lower_exec(c: char) -> (r: char)
    ensures
        r == ascii_lower(c),
{
    if 'A' <= c && c <= 'Z' {
        let u = (c as u32) + 32;
        let v = (c as u8) + 32;
        proof {
            assert(u == v as u32);
        }
        v as char
    } else {
        c
    }
}

/// Whether `a` equals `b` ignoring ASCII case.
pub fn eq_ignore_ascii_case_chars(a: &[char], b: &[char]) -> (r: bool)
    ensures
        r == eq_ignore_ascii_case(a@, b@),
{
    if a.len() != b.len() {
        return false;
    }
    let mut i: usize = 0;
    while i < a.len()
        invariant
            a@.len() == b@.len(),
            i <= a@.len(),
            forall|k: int| 0 <= k < i ==> ascii_lower(a@[k]) == ascii_lower(b@[k]),
        decreases a@.len() - i,
    {
        if ascii_lower_exec(a[i]) != ascii_lower_exec(b[i]) {
            return false;
        }
        i = i + 1;
    }
    true
}

/// Whether `s` equals the literal `lit`, ignoring ASCII case.
pub fn eq_ignore_case_str(s: &[char], lit: &str) -> (r: bool)
    ensures
        r == eq_ignore_ascii_case(s@, lit@),
{
    let l = chars_of(lit);
    eq_ignore_ascii_case_chars(s, l.as_slice())
}

/// Whether `s` equals the literal `lit`.
pub fn eq_str_chars(s: &[char], lit: &str) -> (r: bool)
    ensures
        r == (s@ == lit@),
{
    let l = chars_of(lit);
    eq_chars(s, l.as_slice())
}

/// The reduction function that a name denotes, ignoring case.
pub open spec fn reduction_func_of(s: Seq<char>) -> Option<ReductionFunc> {
    if eq_ignore_ascii_case(s, "min"@) {
        Some(ReductionFunc::Min)
    } else if eq_ignore_ascii_case(s, "max"@) {
        Some(ReductionFunc::Max)
    } else if eq_ignore_ascii_case(s, "median"@) {
        Some(ReductionFunc::Median)
    } else if eq_ignore_ascii_case(s, "mean"@) {
        Some(ReductionFunc::Mean)
    } else {
        None
    }
}

/// The lower-case name of a reduction function.
pub open spec fn reduction_func_name(f: ReductionFunc) -> Seq<char> {
    match f {
        ReductionFunc::Min => "min"@,
        ReductionFunc::Max => "max"@,
        ReductionFunc::Median => "median"@,
        ReductionFunc::Mean => "mean"@,
    }
}

impl ReductionFunc {
    /// Reads a reduction function name (`min`, `max`, `median` or `mean`, in
    /// any case).
    pub fn from_str(s: &str) -> (r: Option<ReductionFunc>)
        ensures
            r == reduction_func_of(s@),
    {
        let c = chars_of(s);
        if eq_ignore_case_str(c.as_slice(), "min") {
            Some(ReductionFunc::Min)
        } else if eq_ignore_case_str(c.as_slice(), "max") {
            Some(ReductionFunc::Max)
        } else if eq_ignore_case_str(c.as_slice(), "median") {
            Some(ReductionFunc::Median)
        } else if eq_ignore_case_str(c.as_slice(), "mean") {
            Some(ReductionFunc::Mean)
        } else {
            None
        }
    }

    /// The lower-case name of the reduction function, which reads back as
    /// the same function.
    pub fn name(&self) -> (r: &'static str)
        ensures
            r@ == reduction_func_name(*self),
            reduction_func_of(r@) == Some(*self),
    {
        proof {
            reveal_strlit("min");
            reveal_strlit("max");
            reveal_strlit("median");
            reveal_strlit("mean");
            assert(eq_ignore_ascii_case("min"@, "min"@));
            assert(ascii_lower("max"@[1]) != ascii_lower("min"@[1]));
            assert(!eq_ignore_ascii_case("max"@, "min"@));
            assert(eq_ignore_ascii_case("max"@, "max"@));
            assert(!eq_ignore_ascii_case("median"@, "min"@));
            assert(!eq_ignore_ascii_case("median"@, "max"@));
            assert(eq_ignore_ascii_case("median"@, "median"@));
            assert(!eq_ignore_ascii_case("mean"@, "min"@));
            assert(!eq_ignore_ascii_case("mean"@, "max"@));
            assert(!eq_ignore_ascii_case("mean"@, "median"@));
            assert(eq_ignore_ascii_case("mean"@, "mean"@));
        }
        match self {
            ReductionFunc::Min => "min",
            ReductionFunc::Max => "max",
            ReductionFunc::Median => "median",
            ReductionFunc::Mean => "mean",
        }
    }
}

/// The dispersion method that a name denotes (`stddev` or `mad`).
pub open spec fn dispersion_method_of(s: Seq<char>) -> Option<DispersionMethod> {
    if s == "stddev"@ {
        Some(DispersionMethod::StandardDeviation)
    } else if s == "mad"@ {
        Some(DispersionMethod::MedianAbsoluteDeviation)
    } else {
        None
    }
}

/// The short name of a dispersion method.
pub open spec fn dispersion_method_name(m: DispersionMethod) -> Seq<char> {
    match m {
        DispersionMethod::StandardDeviation => "stddev"@,
        DispersionMethod::MedianAbsoluteDeviation => "mad"@,
    }
}

impl DispersionMethod {
    /// Reads a dispersion method name.
    pub fn from_str(s: &str) -> (r: Option<DispersionMethod>)
        ensures
            r == dispersion_method_of(s@),
    {
        let c = chars_of(s);
        if eq_str_chars(c.as_slice(), "stddev") {
            Some(DispersionMethod::StandardDeviation)
        } else if eq_str_chars(c.as_slice(), "mad") {
            Some(DispersionMethod::MedianAbsoluteDeviation)
        } else {
            None
        }
    }

    /// The short name of the method (`stddev` or `mad`), which reads back as
    /// the same method.
    pub fn name(&self) -> (r: &'static str)
        ensures
            r@ == dispersion_method_name(*self),
            dispersion_method_of(r@) == Some(*self),
    {
        match self {
            DispersionMethod::StandardDeviation => {
                let r = "stddev";
                assert(dispersion_method_of(r@) == Some(DispersionMethod::StandardDeviation));
                r
            },
            DispersionMethod::MedianAbsoluteDeviation => {
                let r = "mad";
                proof {
                    reveal_strlit("mad");
                    reveal_strlit("stddev");
                    assert(r@ != "stddev"@) by {
                        assert(r@.len() != "stddev"@.len());
                    }
                }
                r
            },
        }
    }
}

} // verus!
