//! Report templates: the `{{SECTION[id] param: value ...}}` placeholders of a
//! multi-section template and the parameters they carry.
use vstd::prelude::*;
use crate::data::kv_view;
use crate::num::{parse_unsigned, parse_usize};
use crate::stats::{eq_ignore_ascii_case, eq_ignore_case_str, eq_str_chars, ReductionFunc};
use crate::text::{
    chars_of, lines_chars, lines_of, matches_at, occurs_at, slice_range, split_chars,
    split_once_chars, split_once_spec, split_on, string_of, trim, trim_chars,
};

verus! {

/// Paths and title that a report template is configured with.
#[derive(Debug, Clone)]
pub struct ReportTemplateConfig {
    pub template_path: Option<String>,
    pub custom_css_path: Option<String>,
    pub title: Option<String>,
}

/// Why a template or one of its section placeholders was refused.
#[derive(Debug, Clone, PartialEq, Eq)]
pub enum SectionError {
    /// The text holds no section placeholder.
    InvalidPlaceholder(String),
    /// A key-value pair without `=`.
    InvalidKeyValueFilter(String),
    /// A key-value pair with an empty key.
    EmptyKey(String),
    /// A key-value pair with an empty value.
    EmptyValue(String),
    /// An aggregate-by value that names no reduction.
    InvalidAggregateBy(String),
    /// A depth that is not a `usize`.
    InvalidDepth(String),
    /// A boolean parameter with another value than true/false.
    InvalidBoolean { param: String, value: String },
    /// Two sections with the same id.
    DuplicateSectionId(String),
}

/// A key-value filter pair, or the error for the pair, as the filter reads
/// one comma-separated piece.
#[verifier::opaque]
pub open spec fn kv_pair_spec(piece: Seq<char>) -> Result<(Seq<char>, Seq<char>), SectionErrorKind> {
    let p = trim(piece);
    match split_once_spec(p, '=') {
        None => Err(SectionErrorKind::InvalidKeyValueFilter(p)),
        Some((k, v)) => if trim(k).len() == 0 {
            Err(SectionErrorKind::EmptyKey(p))
        } else if trim(v).len() == 0 {
            Err(SectionErrorKind::EmptyValue(p))
        } else {
            Ok((trim(k), trim(v)))
        },
    }
}

/// The errors of section parsing as mathematical values.
pub enum SectionErrorKind {
    InvalidPlaceholder(Seq<char>),
    InvalidKeyValueFilter(Seq<char>),
    EmptyKey(Seq<char>),
    EmptyValue(Seq<char>),
    InvalidAggregateBy(Seq<char>),
    InvalidDepth(Seq<char>),
    InvalidBoolean(Seq<char>, Seq<char>),
    DuplicateSectionId(Seq<char>),
}

/// The mathematical value of a [`SectionError`].
pub open spec fn error_view(e: SectionError) -> SectionErrorKind {
    match e {
        SectionError::InvalidPlaceholder(s) => SectionErrorKind::InvalidPlaceholder(s@),
        SectionError::InvalidKeyValueFilter(s) => SectionErrorKind::InvalidKeyValueFilter(s@),
        SectionError::EmptyKey(s) => SectionErrorKind::EmptyKey(s@),
        SectionError::EmptyValue(s) => SectionErrorKind::EmptyValue(s@),
        SectionError::InvalidAggregateBy(s) => SectionErrorKind::InvalidAggregateBy(s@),
        SectionError::InvalidDepth(s) => SectionErrorKind::InvalidDepth(s@),
        SectionError::InvalidBoolean { param, value } => SectionErrorKind::InvalidBoolean(param@, value@),
        SectionError::DuplicateSectionId(s) => SectionErrorKind::DuplicateSectionId(s@),
    }
}

/// The pairs of a key-value filter `key1=value1,key2=value2`, or the error of
/// its first bad piece.
pub open spec fn kv_filter_spec(pieces: Seq<Seq<char>>) -> Result<Seq<(Seq<char>, Seq<char>)>, SectionErrorKind>
    decreases pieces.len(),
{
    if pieces.len() == 0 {
        Ok(Seq::empty())
    } else {
        match kv_filter_spec(pieces.drop_last()) {
            Err(e) => Err(e),
            Ok(acc) => match kv_pair_spec(pieces.last()) {
                Err(e) => Err(e),
                Ok(p) => Ok(acc.push(p)),
            },
        }
    }
}

/// Reads one piece of a key-value filter.
fn parse_kv_pair(piece: &[char]) -> (r: Result<(String, String), SectionError>)
    ensures
        match kv_pair_spec(piece@) {
            Ok(p) => r matches Ok(q) && q.0@ == p.0 && q.1@ == p.1,
            Err(e) => r matches Err(err) && error_view(err) == e,
        },
{
    reveal(kv_pair_spec);
    let p = trim_chars(piece);
    match split_once_chars(p.as_slice(), '=') {
        None => Err(SectionError::InvalidKeyValueFilter(string_of(p.as_slice()))),
        Some((k, v)) => {
            let kt = trim_chars(k.as_slice());
            let vt = trim_chars(v.as_slice());
            if kt.len() == 0 {
                Err(SectionError::EmptyKey(string_of(p.as_slice())))
            } else if vt.len() == 0 {
                Err(SectionError::EmptyValue(string_of(p.as_slice())))
            } else {
                Ok((string_of(kt.as_slice()), string_of(vt.as_slice())))
            }
        },
    }
}

/// Parses key-value filter pairs from `key1=value1,key2=value2`; keys and
/// values are trimmed and must not be empty.
pub fn parse_key_value_filter(value: &str) -> (r: Result<Vec<(String, String)>, SectionError>)
    ensures
        match kv_filter_spec(split_on(value@, ',')) {
            Ok(ps) => r matches Ok(v) && kv_view(v@) == ps,
            Err(e) => r matches Err(err) && error_view(err) == e,
        },
{
    let cs = chars_of(value);
    let pieces = split_chars(cs.as_slice(), ',');
    let ghost sp = split_on(value@, ',');
    let mut out: Vec<(String, String)> = Vec::new();
    let mut i: usize = 0;
    assert(sp.take(0) =~= Seq::<Seq<char>>::empty());
    assert(kv_view(out@) =~= Seq::<(Seq<char>, Seq<char>)>::empty());
    while i < pieces.len()
        invariant
            i <= pieces@.len(),
            pieces@.len() == sp.len(),
            sp == split_on(value@, ','),
            forall|j: int| 0 <= j < pieces@.len() ==> #[trigger] pieces@[j]@ == sp[j],
            kv_filter_spec(sp.take(i as int)) == Ok::<Seq<(Seq<char>, Seq<char>)>, SectionErrorKind>(kv_view(out@)),
        decreases pieces@.len() - i,
    {
        proof {
            assert(sp.take(i + 1).drop_last() =~= sp.take(i as int));
            assert(sp.take(i + 1).last() == sp[i as int]);
        }
        match parse_kv_pair(pieces[i].as_slice()) {
            Err(e) => {
                proof {
                    assert(kv_pair_spec(sp[i as int]) == Err::<(Seq<char>, Seq<char>), SectionErrorKind>(error_view(e)));
                    assert(kv_filter_spec(sp.take(i + 1)) == Err::<Seq<(Seq<char>, Seq<char>)>, SectionErrorKind>(error_view(e)));
                    lemma_kv_filter_prefix_err(sp, i + 1);
                    assert(kv_filter_spec(split_on(value@, ',')) == Err::<Seq<(Seq<char>, Seq<char>)>, SectionErrorKind>(error_view(e)));
                }
                return Err(e);
            },
            Ok(p) => {
                let ghost before = kv_view(out@);
                out.push(p);
                assert(kv_view(out@) =~= before.push((p.0@, p.1@)));
            },
        }
        i = i + 1;
    }
    assert(sp.take(i as int) =~= sp);
    Ok(out)
}

proof fn lemma_kv_filter_prefix_err(pieces: Seq<Seq<char>>, n: int)
    requires
        0 <= n <= pieces.len(),
        kv_filter_spec(pieces.take(n)) is Err,
    ensures
        kv_filter_spec(pieces) == kv_filter_spec(pieces.take(n)),
    decreases pieces.len() - n,
{
    if n < pieces.len() {
        assert(pieces.take(n + 1).drop_last() =~= pieces.take(n));
        lemma_kv_filter_prefix_err(pieces, n + 1);
    } else {
        assert(pieces.take(n) =~= pieces);
    }
}

/// The trimmed non-empty pieces of a comma-separated list.
pub open spec fn comma_list_spec(pieces: Seq<Seq<char>>) -> Seq<Seq<char>>
    decreases pieces.len(),
{
    if pieces.len() == 0 {
        Seq::empty()
    } else {
        let prev = comma_list_spec(pieces.drop_last());
        let t = trim(pieces.last());
        if t.len() == 0 {
            prev
        } else {
            prev.push(t)
        }
    }
}

/// Splits a comma-separated list, trims each item and drops empty ones.
pub fn parse_comma_separated_list(value: &str) -> (r: Vec<String>)
    ensures
        r@.len() == comma_list_spec(split_on(value@, ',')).len(),
        forall|i: int| 0 <= i < r@.len() ==> (#[trigger] r@[i])@ == comma_list_spec(split_on(value@, ','))[i],
{
    let cs = chars_of(value);
    let pieces = split_chars(cs.as_slice(), ',');
    let ghost sp = split_on(value@, ',');
    let mut out: Vec<String> = Vec::new();
    let mut i: usize = 0;
    while i < pieces.len()
        invariant
            i <= pieces@.len(),
            pieces@.len() == sp.len(),
            forall|j: int| 0 <= j < pieces@.len() ==> #[trigger] pieces@[j]@ == sp[j],
            out@.len() == comma_list_spec(sp.take(i as int)).len(),
            forall|j: int| 0 <= j < out@.len() ==> (#[trigger] out@[j])@ == comma_list_spec(sp.take(i as int))[j],
        decreases pieces@.len() - i,
    {
        proof {
            assert(sp.take(i + 1).drop_last() =~= sp.take(i as int));
            assert(sp.take(i + 1).last() == sp[i as int]);
        }
        let t = trim_chars(pieces[i].as_slice());
        if t.len() > 0 {
            out.push(string_of(t.as_slice()));
        }
        i = i + 1;
    }
    assert(sp.take(i as int) =~= sp);
    out
}

/// The aggregation an `aggregate-by` value names: `none` for raw data.
pub open spec fn aggregate_by_spec(value: Seq<char>) -> Option<Option<ReductionFunc>> {
    if value == "none"@ {
        Some(None)
    } else if value == "min"@ {
        Some(Some(ReductionFunc::Min))
    } else if value == "max"@ {
        Some(Some(ReductionFunc::Max))
    } else if value == "median"@ {
        Some(Some(ReductionFunc::Median))
    } else if value == "mean"@ {
        Some(Some(ReductionFunc::Mean))
    } else {
        None
    }
}

/// Reads an `aggregate-by` value.
pub fn parse_aggregate_by(value: &str) -> (r: Result<Option<ReductionFunc>, SectionError>)
    ensures
        match aggregate_by_spec(value@) {
            Some(a) => r == Ok::<Option<ReductionFunc>, SectionError>(a),
            None => r matches Err(e) && error_view(e) == SectionErrorKind::InvalidAggregateBy(value@),
        },
{
    let c = chars_of(value);
    parse_aggregate_by_chars(c.as_slice())
}

fn parse_aggregate_by_chars(c: &[char]) -> (r: Result<Option<ReductionFunc>, SectionError>)
    ensures
        match aggregate_by_spec(c@) {
            Some(a) => r == Ok::<Option<ReductionFunc>, SectionError>(a),
            None => r matches Err(e) && error_view(e) == SectionErrorKind::InvalidAggregateBy(c@),
        },
{
    if eq_str_chars(c, "none") {
        Ok(None)
    } else if eq_str_chars(c, "min") {
        Ok(Some(ReductionFunc::Min))
    } else if eq_str_chars(c, "max") {
        Ok(Some(ReductionFunc::Max))
    } else if eq_str_chars(c, "median") {
        Ok(Some(ReductionFunc::Median))
    } else if eq_str_chars(c, "mean") {
        Ok(Some(ReductionFunc::Mean))
    } else {
        Err(SectionError::InvalidAggregateBy(string_of(c)))
    }
}

/// Reads a depth, a `usize`.
pub fn parse_depth(value: &str) -> (r: Result<usize, SectionError>)
    ensures
        match parse_unsigned(value@, 10, usize::MAX as nat) {
            Some(d) => r == Ok::<usize, SectionError>(d as usize),
            None => r matches Err(e) && error_view(e) == SectionErrorKind::InvalidDepth(value@),
        },
{
    let c = chars_of(value);
    parse_depth_chars(c.as_slice())
}

fn parse_depth_chars(c: &[char]) -> (r: Result<usize, SectionError>)
    ensures
        match parse_unsigned(c@, 10, usize::MAX as nat) {
            Some(d) => r == Ok::<usize, SectionError>(d as usize),
            None => r matches Err(e) && error_view(e) == SectionErrorKind::InvalidDepth(c@),
        },
{
    match parse_usize(c) {
        Some(d) => Ok(d),
        None => Err(SectionError::InvalidDepth(string_of(c))),
    }
}

/// The boolean a value denotes: `true`/`yes` (any case) or `1`, and
/// `false`/`no` (any case) or `0`.
pub open spec fn boolean_spec(value: Seq<char>) -> Option<bool> {
    if eq_ignore_ascii_case(value, "true"@) || eq_ignore_ascii_case(value, "yes"@) || value == "1"@ {
        Some(true)
    } else if eq_ignore_ascii_case(value, "false"@) || eq_ignore_ascii_case(value, "no"@) || value
        == "0"@ {
        Some(false)
    } else {
        None
    }
}

/// Reads a boolean parameter; `param_name` names it in the error.
pub fn parse_boolean(value: &str, param_name: &str) -> (r: Result<bool, SectionError>)
    ensures
        match boolean_spec(value@) {
            Some(b) => r == Ok::<bool, SectionError>(b),
            None => r matches Err(e) && error_view(e) == SectionErrorKind::InvalidBoolean(
                param_name@,
                value@,
            ),
        },
{
    let c = chars_of(value);
    let p = chars_of(param_name);
    parse_boolean_chars(c.as_slice(), p.as_slice())
}

fn parse_boolean_chars(c: &[char], param_name: &[char]) -> (r: Result<bool, SectionError>)
    ensures
        match boolean_spec(c@) {
            Some(b) => r == Ok::<bool, SectionError>(b),
            None => r matches Err(e) && error_view(e) == SectionErrorKind::InvalidBoolean(
                param_name@,
                c@,
            ),
        },
{
    if eq_ignore_case_str(c, "true") || eq_ignore_case_str(c, "yes") || eq_str_chars(c, "1") {
        Ok(true)
    } else if eq_ignore_case_str(c, "false") || eq_ignore_case_str(c, "no") || eq_str_chars(c, "0") {
        Ok(false)
    } else {
        Err(SectionError::InvalidBoolean { param: string_of(param_name), value: string_of(c) })
    }
}

/// The text that opens a section placeholder.
pub open spec fn section_open() -> Seq<char> {
    seq!['{', '{', 'S', 'E', 'C', 'T', 'I', 'O', 'N', '[']
}

/// The text that closes a section placeholder.
pub open spec fn section_close() -> Seq<char> {
    seq!['}', '}']
}

/// The first index at or after `from` where `c` stands.
pub open spec fn first_from(s: Seq<char>, from: int, c: char) -> Option<int>
    decreases s.len() - from,
{
    if from < 0 || from >= s.len() {
        None
    } else if s[from] == c {
        Some(from)
    } else {
        first_from(s, from + 1, c)
    }
}

/// The first index at or after `from` where `pat` occurs.
pub open spec fn first_seq_from(s: Seq<char>, from: int, pat: Seq<char>) -> Option<int>
    decreases s.len() + 1 - from,
{
    if from < 0 || from > s.len() {
        None
    } else if occurs_at(s, pat, from) {
        Some(from)
    } else {
        first_seq_from(s, from + 1, pat)
    }
}

/// The placeholder that starts at `i`, as the pattern
/// `\{\{SECTION\[([^\]]+)\](.*?)\}\}` matches it there: the position of the `]`
/// that ends the non-empty id, and the position of the first `}}` after it.
pub open spec fn placeholder_at(s: Seq<char>, i: int) -> Option<(int, int)> {
    if !occurs_at(s, section_open(), i) {
        None
    } else {
        match first_from(s, i + 10, ']') {
            None => None,
            Some(k) => if k == i + 10 {
                None
            } else {
                match first_seq_from(s, k + 1, section_close()) {
                    None => None,
                    Some(e) => Some((k, e)),
                }
            },
        }
    }
}

/// The leftmost placeholder at or after `p`: its start, the end of its id,
/// and the start of its closing `}}`.
pub open spec fn find_section(s: Seq<char>, p: int) -> Option<(int, int, int)>
    decreases s.len() + 1 - p,
{
    if p < 0 || p > s.len() {
        None
    } else {
        match placeholder_at(s, p) {
            Some((k, e)) => Some((p, k, e)),
            None => find_section(s, p + 1),
        }
    }
}

fn first_from_exec(s: &[char], from: usize, c: char) -> (r: Option<usize>)
    ensures
        r matches Some(k) ==> first_from(s@, from as int, c) == Some(k as int) && from <= k < s@.len(),
        r is None ==> first_from(s@, from as int, c) is None,
    decreases s@.len() - from,
{
    if from >= s.len() {
        None
    } else if s[from] == c {
        Some(from)
    } else {
        first_from_exec(s, from + 1, c)
    }
}

fn first_seq_from_exec(s: &[char], from: usize, pat: &[char]) -> (r: Option<usize>)
    ensures
        r matches Some(k) ==> first_seq_from(s@, from as int, pat@) == Some(k as int) && from <= k
            && k + pat@.len() <= s@.len(),
        r is None ==> first_seq_from(s@, from as int, pat@) is None,
    decreases s@.len() + 1 - from,
{
    if from > s.len() {
        None
    } else if matches_at(s, pat, from) {
        Some(from)
    } else if from == s.len() {
        proof {
            assert(first_seq_from(s@, from + 1, pat@) is None);
        }
        None
    } else {
        first_seq_from_exec(s, from + 1, pat)
    }
}

fn placeholder_at_exec(s: &[char], i: usize) -> (r: Option<(usize, usize)>)
    ensures
        r matches Some((k, e)) ==> placeholder_at(s@, i as int) == Some((k as int, e as int)) && i + 10
            < k && k < e && e + 2 <= s@.len(),
        r is None ==> placeholder_at(s@, i as int) is None,
{
    let open: Vec<char> = vec!['{', '{', 'S', 'E', 'C', 'T', 'I', 'O', 'N', '['];
    let close: Vec<char> = vec!['}', '}'];
    assert(open@ =~= section_open());
    assert(close@ =~= section_close());
    if !matches_at(s, open.as_slice(), i) {
        return None;
    }
    assert(i + 10 <= s@.len());
    assert(s@.len() == s.len());
    match first_from_exec(s, i + 10, ']') {
        None => None,
        Some(k) => {
            if k == i + 10 {
                None
            } else {
                match first_seq_from_exec(s, k + 1, close.as_slice()) {
                    None => None,
                    Some(e) => Some((k, e)),
                }
            }
        },
    }
}

fn find_section_exec(s: &[char], p: usize) -> (r: Option<(usize, usize, usize)>)
    requires
        p <= s@.len(),
    ensures
        r matches Some((i, k, e)) ==> find_section(s@, p as int) == Some((i as int, k as int, e as int))
            && p <= i && i + 10 < k && k < e && e + 2 <= s@.len(),
        r is None ==> find_section(s@, p as int) is None,
{
    let mut q = p;
    while q <= s.len()
        invariant
            p <= q <= s@.len() + 1,
            s@.len() == s.len(),
            find_section(s@, p as int) == find_section(s@, q as int),
        decreases s@.len() + 1 - q,
    {
        match placeholder_at_exec(s, q) {
            Some((k, e)) => {
                return Some((q, k, e));
            },
            None => {},
        }
        if q == s.len() {
            proof {
                assert(find_section(s@, q + 1) is None);
            }
            return None;
        }
        q = q + 1;
    }
    None
}

/// A section's parameters as mathematical values.
pub struct SectionParams {
    pub measurement_filter: Option<Seq<char>>,
    pub key_value_filter: Seq<(Seq<char>, Seq<char>)>,
    pub separate_by: Seq<Seq<char>>,
    pub aggregate_by: Option<ReductionFunc>,
    pub depth: Option<nat>,
    pub show_epochs: bool,
    pub detect_changes: bool,
}

/// The parameters of a section without any parameter line.
pub open spec fn default_params() -> SectionParams {
    SectionParams {
        measurement_filter: None,
        key_value_filter: Seq::empty(),
        separate_by: Seq::empty(),
        aggregate_by: None,
        depth: None,
        show_epochs: false,
        detect_changes: false,
    }
}

/// The effect of one `param: value` line: a known parameter is set (a later
/// line overrides an earlier one), an unknown one and a line without `:`
/// are ignored, and a bad value is an error.
pub open spec fn apply_param_line(st: SectionParams, line: Seq<char>) -> Result<SectionParams, SectionErrorKind> {
    let l = trim(line);
    if l.len() == 0 {
        Ok(st)
    } else {
        match split_once_spec(l, ':') {
            None => Ok(st),
            Some((k0, v0)) => {
                let key = trim(k0);
                let value = trim(v0);
                if key == "measurement-filter"@ {
                    Ok(SectionParams { measurement_filter: Some(value), ..st })
                } else if key == "key-value-filter"@ {
                    match kv_filter_spec(split_on(value, ',')) {
                        Ok(p) => Ok(SectionParams { key_value_filter: p, ..st }),
                        Err(e) => Err(e),
                    }
                } else if key == "separate-by"@ {
                    Ok(SectionParams { separate_by: comma_list_spec(split_on(value, ',')), ..st })
                } else if key == "aggregate-by"@ {
                    match aggregate_by_spec(value) {
                        Some(a) => Ok(SectionParams { aggregate_by: a, ..st }),
                        None => Err(SectionErrorKind::InvalidAggregateBy(value)),
                    }
                } else if key == "depth"@ {
                    match parse_unsigned(value, 10, usize::MAX as nat) {
                        Some(d) => Ok(SectionParams { depth: Some(d), ..st }),
                        None => Err(SectionErrorKind::InvalidDepth(value)),
                    }
                } else if key == "show-epochs"@ {
                    match boolean_spec(value) {
                        Some(b) => Ok(SectionParams { show_epochs: b, ..st }),
                        None => Err(SectionErrorKind::InvalidBoolean("show-epochs"@, value)),
                    }
                } else if key == "detect-changes"@ {
                    match boolean_spec(value) {
                        Some(b) => Ok(SectionParams { detect_changes: b, ..st }),
                        None => Err(SectionErrorKind::InvalidBoolean("detect-changes"@, value)),
                    }
                } else {
                    Ok(st)
                }
            },
        }
    }
}

/// The parameters that the lines `ls` set, in order, stopping at the first error.
pub open spec fn apply_param_lines(ls: Seq<Seq<char>>) -> Result<SectionParams, SectionErrorKind>
    decreases ls.len(),
{
    if ls.len() == 0 {
        Ok(default_params())
    } else {
        match apply_param_lines(ls.drop_last()) {
            Err(e) => Err(e),
            Ok(st) => apply_param_line(st, ls.last()),
        }
    }
}

/// Whether `k` names a section parameter.
pub open spec fn known_param(k: Seq<char>) -> bool {
    k == "measurement-filter"@ || k == "key-value-filter"@ || k == "separate-by"@ || k
        == "aggregate-by"@ || k == "depth"@ || k == "show-epochs"@ || k == "detect-changes"@
}

/// Whether the comma at `p` of a parameter line starts another parameter:
/// the text after it, up to the next `:`, is the name of a parameter. A
/// comma inside a value (as in `key-value-filter: a=1,b=2`) does not.
pub open spec fn param_break(l: Seq<char>, p: int) -> bool {
    0 <= p < l.len() && l[p] == ',' && match split_once_spec(l.skip(p + 1), ':') {
        Some((k, _)) => known_param(trim(k)),
        None => false,
    }
}

/// The pieces of the first `n` characters of `l`, cut at each parameter
/// break (the comma itself is dropped).
pub open spec fn pieces_upto(l: Seq<char>, n: int) -> Seq<Seq<char>>
    decreases n,
{
    if n <= 0 {
        seq![Seq::<char>::empty()]
    } else {
        let prev = pieces_upto(l, n - 1);
        if param_break(l, n - 1) {
            prev.push(Seq::<char>::empty())
        } else {
            prev.update(prev.len() - 1, prev.last().push(l[n - 1]))
        }
    }
}

/// The parameters of one line of a placeholder: the line cut at each
/// parameter break, so that `depth: 5, show-epochs: true` gives two.
pub open spec fn param_pieces(l: Seq<char>) -> Seq<Seq<char>> {
    pieces_upto(l, l.len() as int)
}

/// The parameters of all lines, in order.
pub open spec fn param_items(ls: Seq<Seq<char>>) -> Seq<Seq<char>>
    decreases ls.len(),
{
    if ls.len() == 0 {
        Seq::empty()
    } else {
        param_items(ls.drop_last()) + param_pieces(ls.last())
    }
}

proof fn lemma_pieces_nonempty(l: Seq<char>, n: int)
    ensures
        pieces_upto(l, n).len() >= 1,
    decreases n,
{
    if n > 0 {
        lemma_pieces_nonempty(l, n - 1);
    }
}

fn is_known_param(k: &[char]) -> (b: bool)
    ensures
        b == known_param(k@),
{
    eq_str_chars(k, "measurement-filter") || eq_str_chars(k, "key-value-filter") || eq_str_chars(
        k,
        "separate-by",
    ) || eq_str_chars(k, "aggregate-by") || eq_str_chars(k, "depth") || eq_str_chars(
        k,
        "show-epochs",
    ) || eq_str_chars(k, "detect-changes")
}

fn is_param_break(l: &[char], p: usize) -> (b: bool)
    requires
        p < l@.len(),
    ensures
        b == param_break(l@, p as int),
{
    if l[p] != ',' {
        return false;
    }
    let rest = slice_range(l, p + 1, l.len());
    assert(rest@ =~= l@.skip(p + 1));
    match split_once_chars(rest.as_slice(), ':') {
        None => false,
        Some((k, _)) => {
            let t = trim_chars(k.as_slice());
            is_known_param(t.as_slice())
        },
    }
}

/// The views of a list of character vectors.
pub open spec fn char_views(v: Seq<Vec<char>>) -> Seq<Seq<char>> {
    v.map_values(|x: Vec<char>| x@)
}

fn param_pieces_exec(l: &[char]) -> (r: Vec<Vec<char>>)
    ensures
        char_views(r@) == param_pieces(l@),
{
    let mut out: Vec<Vec<char>> = Vec::new();
    out.push(Vec::new());
    assert(char_views(out@) =~= pieces_upto(l@, 0));
    let mut n: usize = 0;
    while n < l.len()
        invariant
            n <= l@.len(),
            char_views(out@) == pieces_upto(l@, n as int),
        decreases l@.len() - n,
    {
        proof {
            lemma_pieces_nonempty(l@, n as int);
        }
        if is_param_break(l, n) {
            out.push(Vec::new());
            assert(char_views(out@) =~= pieces_upto(l@, n + 1));
        } else {
            let ghost before = char_views(out@);
            let mut cur = out.pop().unwrap();
            cur.push(l[n]);
            out.push(cur);
            assert(char_views(out@) =~= before.update(before.len() - 1, before.last().push(l@[n as int])));
        }
        n = n + 1;
    }
    out
}

fn param_items_exec(ls: &Vec<Vec<char>>) -> (r: Vec<Vec<char>>)
    ensures
        char_views(r@) == param_items(char_views(ls@)),
{
    let ghost lv = char_views(ls@);
    let mut out: Vec<Vec<char>> = Vec::new();
    let mut j: usize = 0;
    assert(lv.take(0) =~= Seq::<Seq<char>>::empty());
    while j < ls.len()
        invariant
            j <= ls@.len(),
            lv == char_views(ls@),
            char_views(out@) == param_items(lv.take(j as int)),
        decreases ls@.len() - j,
    {
        let pieces = param_pieces_exec(ls[j].as_slice());
        let ghost before = char_views(out@);
        let mut q: usize = 0;
        while q < pieces.len()
            invariant
                q <= pieces@.len(),
                char_views(out@) == before + char_views(pieces@).take(q as int),
            decreases pieces@.len() - q,
        {
            let ghost mid = char_views(out@);
            let piece = slice_range(pieces[q].as_slice(), 0, pieces[q].len());
            assert(piece@ =~= pieces@[q as int]@);
            out.push(piece);
            assert(char_views(out@) =~= mid.push(char_views(pieces@)[q as int]));
            assert(char_views(out@) =~= before + char_views(pieces@).take(q + 1));
            q = q + 1;
        }
        proof {
            assert(lv.take(j + 1).drop_last() =~= lv.take(j as int));
            assert(lv.take(j + 1).last() == ls@[j as int]@);
            assert(char_views(pieces@).take(q as int) =~= char_views(pieces@));
        }
        j = j + 1;
    }
    assert(lv.take(ls@.len() as int) =~= lv);
    out
}

/// A parsed section as mathematical values.
pub struct SectionModel {
    pub id: Seq<char>,
    pub placeholder: Seq<char>,
    pub params: SectionParams,
}

/// The section that a placeholder text describes: the first placeholder in
/// it, with its trimmed id and the parameters of its trimmed body: one per
/// line, or several on a line separated by `, ` before each parameter name.
pub open spec fn parse_section_spec(placeholder: Seq<char>) -> Result<SectionModel, SectionErrorKind> {
    match find_section(placeholder, 0) {
        None => Err(SectionErrorKind::InvalidPlaceholder(placeholder)),
        Some((i, k, e)) => {
            let id = trim(placeholder.subrange(i + 10, k));
            let body = trim(placeholder.subrange(k + 1, e));
            match apply_param_lines(param_items(lines_of(body))) {
                Err(err) => Err(err),
                Ok(params) => Ok(SectionModel { id, placeholder, params }),
            }
        },
    }
}

/// Configuration for a single report section of a multi-section template.
#[derive(Debug, Clone)]
pub struct SectionConfig {
    /// Section identifier (e.g., "test-overview", "bench-median")
    pub id: String,
    /// Original placeholder text to replace
    pub placeholder: String,
    /// Regex pattern for selecting measurements
    pub measurement_filter: Option<String>,
    /// Key-value pairs to match
    pub key_value_filter: Vec<(String, String)>,
    /// Metadata keys to split traces by
    pub separate_by: Vec<String>,
    /// Aggregation function (none means raw data)
    pub aggregate_by: Option<ReductionFunc>,
    /// Number of commits (overrides global depth)
    pub depth: Option<usize>,
    /// Show epoch boundaries for this section
    pub show_epochs: bool,
    /// Detect and show change points for this section
    pub detect_changes: bool,
}

/// The strings of `v` as sequences.
pub open spec fn strings_view(v: Seq<String>) -> Seq<Seq<char>> {
    v.map_values(|s: String| s@)
}

/// The mathematical value of an optional string.
pub open spec fn opt_view(o: Option<String>) -> Option<Seq<char>> {
    match o {
        Some(s) => Some(s@),
        None => None,
    }
}

/// The mathematical value of an optional `usize`.
pub open spec fn opt_nat(o: Option<usize>) -> Option<nat> {
    match o {
        Some(d) => Some(d as nat),
        None => None,
    }
}

impl View for SectionConfig {
    type V = SectionModel;

    open spec fn view(&self) -> SectionModel {
        SectionModel {
            id: self.id@,
            placeholder: self.placeholder@,
            params: SectionParams {
                measurement_filter: opt_view(self.measurement_filter),
                key_value_filter: kv_view(self.key_value_filter@),
                separate_by: strings_view(self.separate_by@),
                aggregate_by: self.aggregate_by,
                depth: opt_nat(self.depth),
                show_epochs: self.show_epochs,
                detect_changes: self.detect_changes,
            },
        }
    }
}

/// The parameters of a section being read.
struct ParamsExec {
    measurement_filter: Option<String>,
    key_value_filter: Vec<(String, String)>,
    separate_by: Vec<String>,
    aggregate_by: Option<ReductionFunc>,
    depth: Option<usize>,
    show_epochs: bool,
    detect_changes: bool,
}

spec fn params_view(p: ParamsExec) -> SectionParams {
    SectionParams {
        measurement_filter: opt_view(p.measurement_filter),
        key_value_filter: kv_view(p.key_value_filter@),
        separate_by: strings_view(p.separate_by@),
        aggregate_by: p.aggregate_by,
        depth: opt_nat(p.depth),
        show_epochs: p.show_epochs,
        detect_changes: p.detect_changes,
    }
}

fn apply_param_line_exec(st: ParamsExec, line: &[char]) -> (r: Result<ParamsExec, SectionError>)
    ensures
        match apply_param_line(params_view(st), line@) {
            Ok(p) => r matches Ok(q) && params_view(q) == p,
            Err(e) => r matches Err(err) && error_view(err) == e,
        },
{
    let l = trim_chars(line);
    if l.len() == 0 {
        return Ok(st);
    }
    match split_once_chars(l.as_slice(), ':') {
        None => Ok(st),
        Some((k0, v0)) => {
            let key = trim_chars(k0.as_slice());
            let value = trim_chars(v0.as_slice());
            let k = key.as_slice();
            if eq_str_chars(k, "measurement-filter") {
                Ok(ParamsExec { measurement_filter: Some(string_of(value.as_slice())), ..st })
            } else if eq_str_chars(k, "key-value-filter") {
                let vs = string_of(value.as_slice());
                match parse_key_value_filter(vs.as_str()) {
                    Ok(p) => Ok(ParamsExec { key_value_filter: p, ..st }),
                    Err(e) => Err(e),
                }
            } else if eq_str_chars(k, "separate-by") {
                let vs = string_of(value.as_slice());
                let list = parse_comma_separated_list(vs.as_str());
                assert(strings_view(list@) =~= comma_list_spec(split_on(value@, ',')));
                Ok(ParamsExec { separate_by: list, ..st })
            } else if eq_str_chars(k, "aggregate-by") {
                match parse_aggregate_by_chars(value.as_slice()) {
                    Ok(a) => Ok(ParamsExec { aggregate_by: a, ..st }),
                    Err(e) => Err(e),
                }
            } else if eq_str_chars(k, "depth") {
                match parse_depth_chars(value.as_slice()) {
                    Ok(d) => Ok(ParamsExec { depth: Some(d), ..st }),
                    Err(e) => Err(e),
                }
            } else if eq_str_chars(k, "show-epochs") {
                let name = chars_of("show-epochs");
                match parse_boolean_chars(value.as_slice(), name.as_slice()) {
                    Ok(b) => Ok(ParamsExec { show_epochs: b, ..st }),
                    Err(e) => Err(e),
                }
            } else if eq_str_chars(k, "detect-changes") {
                let name = chars_of("detect-changes");
                match parse_boolean_chars(value.as_slice(), name.as_slice()) {
                    Ok(b) => Ok(ParamsExec { detect_changes: b, ..st }),
                    Err(e) => Err(e),
                }
            } else {
                Ok(st)
            }
        },
    }
}

proof fn lemma_params_prefix_err(ls: Seq<Seq<char>>, n: int)
    requires
        0 <= n <= ls.len(),
        apply_param_lines(ls.take(n)) is Err,
    ensures
        apply_param_lines(ls) == apply_param_lines(ls.take(n)),
    decreases ls.len() - n,
{
    if n < ls.len() {
        assert(ls.take(n + 1).drop_last() =~= ls.take(n));
        lemma_params_prefix_err(ls, n + 1);
    } else {
        assert(ls.take(n) =~= ls);
    }
}

impl SectionConfig {
    /// Parses a section placeholder `{{SECTION[id] param: value ... }}`.
    pub fn parse(placeholder: &str) -> (r: Result<SectionConfig, SectionError>)
        ensures
            match parse_section_spec(placeholder@) {
                Ok(m) => r matches Ok(c) && c@ == m,
                Err(e) => r matches Err(err) && error_view(err) == e,
            },
    {
        let s = chars_of(placeholder);
        Self::parse_chars(s.as_slice())
    }

    fn parse_chars(s: &[char]) -> (r: Result<SectionConfig, SectionError>)
        ensures
            match parse_section_spec(s@) {
                Ok(m) => r matches Ok(c) && c@ == m,
                Err(e) => r matches Err(err) && error_view(err) == e,
            },
    {
        let (i, k, e) = match find_section_exec(s, 0) {
            None => {
                return Err(SectionError::InvalidPlaceholder(string_of(s)));
            },
            Some(t) => t,
        };
        let id_raw = slice_range(s, i + 10, k);
        let id = trim_chars(id_raw.as_slice());
        let body_raw = slice_range(s, k + 1, e);
        let body = trim_chars(body_raw.as_slice());
        let body_lines = lines_chars(body.as_slice());
        proof {
            assert(char_views(body_lines@) =~= lines_of(body@));
        }
        let ls = param_items_exec(&body_lines);
        let ghost lv = param_items(lines_of(body@));
        proof {
            assert(id_raw@ == s@.subrange(i + 10, k as int));
            assert(body@ == trim(s@.subrange(k + 1, e as int)));
        }
        let mut st = ParamsExec {
            measurement_filter: None,
            key_value_filter: Vec::new(),
            separate_by: Vec::new(),
            aggregate_by: None,
            depth: None,
            show_epochs: false,
            detect_changes: false,
        };
        proof {
            assert(kv_view(st.key_value_filter@) =~= Seq::<(Seq<char>, Seq<char>)>::empty());
            assert(strings_view(st.separate_by@) =~= Seq::<Seq<char>>::empty());
            assert(params_view(st) == default_params());
            assert(lv.take(0) =~= Seq::<Seq<char>>::empty());
        }
        let mut j: usize = 0;
        while j < ls.len()
            invariant
                j <= ls@.len(),
                ls@.len() == lv.len(),
                lv == param_items(lines_of(body@)),
                body@ == trim(s@.subrange(k + 1, e as int)),
                find_section(s@, 0) == Some((i as int, k as int, e as int)),
                forall|x: int| 0 <= x < ls@.len() ==> #[trigger] ls@[x]@ == lv[x],
                apply_param_lines(lv.take(j as int)) == Ok::<SectionParams, SectionErrorKind>(params_view(st)),
            decreases ls@.len() - j,
        {
            proof {
                assert(lv.take(j + 1).drop_last() =~= lv.take(j as int));
                assert(lv.take(j + 1).last() == lv[j as int]);
            }
            match apply_param_line_exec(st, ls[j].as_slice()) {
                Ok(next) => {
                    st = next;
                },
                Err(err) => {
                    proof {
                        assert(apply_param_lines(lv.take(j + 1)) == Err::<SectionParams, SectionErrorKind>(error_view(err)));
                        lemma_params_prefix_err(lv, j + 1);
                        assert(apply_param_lines(param_items(lines_of(body@))) == Err::<SectionParams, SectionErrorKind>(error_view(err)));
                    }
                    return Err(err);
                },
            }
            j = j + 1;
        }
        assert(lv.take(j as int) =~= lv);
        let c = SectionConfig {
            id: string_of(id.as_slice()),
            placeholder: string_of(s),
            measurement_filter: st.measurement_filter,
            key_value_filter: st.key_value_filter,
            separate_by: st.separate_by,
            aggregate_by: st.aggregate_by,
            depth: st.depth,
            show_epochs: st.show_epochs,
            detect_changes: st.detect_changes,
        };
        proof {
            assert(c@.params =~~= params_view(st));
        }
        Ok(c)
    }
}

/// The sections of a template from position `p` on, in order: each
/// leftmost placeholder after the previous one, parsed; an error for the
/// first placeholder that does not parse or whose id is in `seen` or was
/// used by an earlier section.
pub open spec fn sections_spec(s: Seq<char>, p: int, seen: Seq<Seq<char>>) -> Result<Seq<SectionModel>, SectionErrorKind>
    decreases s.len() + 1 - p,
{
    if p < 0 || p > s.len() {
        Ok(Seq::empty())
    } else {
        match find_section(s, p) {
            None => Ok(Seq::empty()),
            Some((i, k, e)) => if e + 2 <= p || e + 2 > s.len() {
                Ok(Seq::empty())
            } else {
                match parse_section_spec(s.subrange(i, e + 2)) {
                    Err(x) => Err(x),
                    Ok(sec) => if seen.contains(sec.id) {
                        Err(SectionErrorKind::DuplicateSectionId(sec.id))
                    } else {
                        match sections_spec(s, e + 2, seen.push(sec.id)) {
                            Err(x) => Err(x),
                            Ok(rest) => Ok(seq![sec] + rest),
                        }
                    },
                }
            },
        }
    }
}

/// `acc` put in front of the sections of a result.
pub open spec fn prepend(acc: Seq<SectionModel>, r: Result<Seq<SectionModel>, SectionErrorKind>) -> Result<Seq<SectionModel>, SectionErrorKind> {
    match r {
        Ok(rest) => Ok(acc + rest),
        Err(e) => Err(e),
    }
}

/// The sections of `v` as mathematical values.
pub open spec fn sections_view(v: Seq<SectionConfig>) -> Seq<SectionModel> {
    v.map_values(|c: SectionConfig| c@)
}

fn contains_string(v: &Vec<String>, s: &String) -> (b: bool)
    ensures
        b == strings_view(v@).contains(s@),
{
    let mut i: usize = 0;
    while i < v.len()
        invariant
            i <= v@.len(),
            forall|j: int| 0 <= j < i ==> v@[j]@ != s@,
        decreases v@.len() - i,
    {
        if v[i] == *s {
            assert(strings_view(v@)[i as int] == s@);
            return true;
        }
        i = i + 1;
    }
    proof {
        if strings_view(v@).contains(s@) {
            let j = choose|j: int| 0 <= j < strings_view(v@).len() && strings_view(v@)[j] == s@;
            assert(v@[j]@ == s@);
        }
    }
    false
}

/// Parses all section placeholders of a template, in order; section ids
/// must be unique.
#[verifier::rlimit(30)]
pub fn parse_template_sections(template: &str) -> (r: Result<Vec<SectionConfig>, SectionError>)
    ensures
        match sections_spec(template@, 0, Seq::empty()) {
            Ok(ms) => r matches Ok(v) && sections_view(v@) == ms,
            Err(e) => r matches Err(err) && error_view(err) == e,
        },
{
    let s = chars_of(template);
    let mut out: Vec<SectionConfig> = Vec::new();
    let mut seen: Vec<String> = Vec::new();
    let mut p: usize = 0;
    proof {
        assert(sections_view(out@) =~= Seq::<SectionModel>::empty());
        assert(strings_view(seen@) =~= Seq::<Seq<char>>::empty());
        assert(Seq::<SectionModel>::empty() + Seq::<SectionModel>::empty() =~= Seq::<SectionModel>::empty());
        match sections_spec(s@, 0, Seq::empty()) {
            Ok(rest) => {
                assert(Seq::<SectionModel>::empty() + rest =~= rest);
            },
            Err(_) => {},
        }
    }
    loop
        invariant
            p <= s@.len(),
            s@ == template@,
            s@.len() == s.len(),
            sections_spec(s@, 0, Seq::empty()) == prepend(sections_view(out@), sections_spec(s@, p as int, strings_view(seen@))),
        decreases s@.len() + 1 - p,
    {
        let ghost sv = strings_view(seen@);
        let ghost before = sections_view(out@);
        match find_section_exec(s.as_slice(), p) {
            None => {
                assert(sections_spec(s@, p as int, sv) == Ok::<Seq<SectionModel>, SectionErrorKind>(Seq::empty()));
                assert(before + Seq::<SectionModel>::empty() =~= before);
                return Ok(out);
            },
            Some((i, k, e)) => {
                let ph = slice_range(s.as_slice(), i, e + 2);
                assert(ph@ == s@.subrange(i as int, e + 2));
                match SectionConfig::parse_chars(ph.as_slice()) {
                    Err(x) => {
                        assert(sections_spec(s@, p as int, sv) == Err::<Seq<SectionModel>, SectionErrorKind>(error_view(x)));
                        return Err(x);
                    },
                    Ok(sec) => {
                        if contains_string(&seen, &sec.id) {
                            let err = SectionError::DuplicateSectionId(string_of(chars_of(sec.id.as_str()).as_slice()));
                            assert(sections_spec(s@, p as int, sv) == Err::<Seq<SectionModel>, SectionErrorKind>(error_view(err)));
                            return Err(err);
                        }
                        let ghost rest = sections_spec(s@, e + 2, sv.push(sec@.id));
                        assert(sections_spec(s@, p as int, sv) == match rest {
                            Ok(rs) => Ok::<Seq<SectionModel>, SectionErrorKind>(seq![sec@] + rs),
                            Err(x) => Err::<Seq<SectionModel>, SectionErrorKind>(x),
                        });
                        let idc = string_of(chars_of(sec.id.as_str()).as_slice());
                        seen.push(idc);
                        out.push(sec);
                        proof {
                            assert(strings_view(seen@) =~= sv.push(sec@.id));
                            assert(sections_view(out@) =~= before.push(sec@));
                            match rest {
                                Ok(rs) => {
                                    assert(before + (seq![sec@] + rs) =~= before.push(sec@) + rs);
                                },
                                Err(_) => {},
                            }
                        }
                        p = e + 2;
                    },
                }
            },
        }
    }
}

/// No two sections of a parsed template have the same id.
pub proof fn lemma_section_ids_unique(s: Seq<char>, p: int, seen: Seq<Seq<char>>)
    ensures
        sections_spec(s, p, seen) matches Ok(ms) ==> (forall|a: int| 0 <= a < ms.len() ==> !seen.contains(#[trigger] ms[a].id))
            && forall|a: int, b: int| 0 <= a < b < ms.len() ==> ms[a].id != ms[b].id,
    decreases s.len() + 1 - p,
{
    if 0 <= p <= s.len() {
        match find_section(s, p) {
            None => {},
            Some((i, k, e)) => {
                if !(e + 2 <= p || e + 2 > s.len()) {
                    match parse_section_spec(s.subrange(i, e + 2)) {
                        Err(_) => {},
                        Ok(sec) => {
                            if !seen.contains(sec.id) {
                                lemma_section_ids_unique(s, e + 2, seen.push(sec.id));
                                match sections_spec(s, e + 2, seen.push(sec.id)) {
                                    Err(_) => {},
                                    Ok(rest) => {
                                        let ms = seq![sec] + rest;
                                        assert forall|a: int| 0 <= a < ms.len() implies !seen.contains(#[trigger] ms[a].id) by {
                                            if a > 0 {
                                                assert(ms[a] == rest[a - 1]);
                                                if seen.contains(ms[a].id) {
                                                    let j = choose|j: int| 0 <= j < seen.len() && seen[j] == ms[a].id;
                                                    assert(seen.push(sec.id)[j] == seen[j]);
                                                }
                                            }
                                        }
                                        assert forall|a: int, b: int| 0 <= a < b < ms.len() implies ms[a].id != ms[b].id by {
                                            assert(ms[b] == rest[b - 1]);
                                            if a == 0 {
                                                assert(seen.push(sec.id)[seen.len() as int] == sec.id);
                                            } else {
                                                assert(ms[a] == rest[a - 1]);
                                            }
                                        }
                                    },
                                }
                            }
                        },
                    }
                }
            },
        }
    }
}

} // verus!
