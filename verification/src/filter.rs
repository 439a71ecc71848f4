//! Selecting measurements by name with regular expressions.
use vstd::prelude::*;
use crate::text::{chars_of, string_of};

verus! {

#[verifier::external_type_specification]
#[verifier::external_body]
pub struct ExRegex(regex::Regex);

#[verifier::external_type_specification]
#[verifier::external_body]
pub struct ExRegexError(regex::Error);

/// Whether `regex::Regex::new` accepts `pattern`.
pub uninterp spec fn regex_valid(pattern: Seq<char>) -> bool;

/// Whether the regex compiled from `pattern` matches somewhere in `text`
/// (`regex::Regex::is_match`).
pub uninterp spec fn regex_is_match(pattern: Seq<char>, text: Seq<char>) -> bool;

/// Compiles `pattern` with `regex::Regex::new`; whether it succeeds depends
/// on the pattern alone.
#[verifier::external_body]
fn regex_new(pattern: &str) -> (r: Result<regex::Regex, regex::Error>)
    ensures
        r is Ok <==> regex_valid(pattern@),
{
    regex::Regex::new(pattern)
}

/// Whether `c` has a meaning in a regex and is escaped by `regex::escape`
/// (`regex_syntax::is_meta_character`).
pub open spec fn is_meta(c: char) -> bool {
    c == '\\' || c == '.' || c == '+' || c == '*' || c == '?' || c == '(' || c == ')' || c == '|'
        || c == '[' || c == ']' || c == '{' || c == '}' || c == '^' || c == '$' || c == '#' || c
        == '&' || c == '-' || c == '~'
}

/// `s` with a backslash before every meta character.
pub open spec fn escape_spec(s: Seq<char>) -> Seq<char>
    decreases s.len(),
{
    if s.len() == 0 {
        s
    } else {
        let prev = escape_spec(s.drop_last());
        if is_meta(s.last()) {
            prev + seq!['\\', s.last()]
        } else {
            prev.push(s.last())
        }
    }
}

/// `regex::escape`: puts a backslash before every meta character of
/// `pattern`, so that the result matches `pattern` literally.
#[verifier::external_body]
fn regex_escape(pattern: &str) -> (r: String)
    ensures
        r@ == escape_spec(pattern@),
{
    regex::escape(pattern)
}

/// A compiled name filter. Only [`Filter::compile`] makes one, so the regex
/// it holds is always the one compiled from `pattern`.
pub struct Filter {
    pattern: String,
    regex: regex::Regex,
}

impl Filter {
    /// The pattern this filter was compiled from.
    pub closed spec fn pattern(&self) -> Seq<char> {
        self.pattern@
    }

    /// Compiles `pattern`.
    pub fn compile(pattern: &str) -> (r: Option<Filter>)
        ensures
            r is Some <==> regex_valid(pattern@),
            r matches Some(f) ==> f.pattern() == pattern@,
    {
        match regex_new(pattern) {
            Ok(regex) => Some(Filter { pattern: string_of(chars_of(pattern).as_slice()), regex }),
            Err(_) => None,
        }
    }

    /// The pattern this filter was compiled from.
    pub fn as_str(&self) -> (r: &str)
        ensures
            r@ == self.pattern(),
    {
        self.pattern.as_str()
    }
}

/// `regex::Regex::is_match` on the regex of `f`, which was compiled from
/// `f.pattern()`. As the regex documentation gives it, a pattern made of
/// `^`, a text escaped with `regex::escape` and `$` matches exactly that
/// text: the escaped text is a literal, and without multi-line mode `^` and
/// `$` match only at the start and the end of the haystack.
#[verifier::external_body]
fn filter_is_match(f: &Filter, text: &str) -> (b: bool)
    ensures
        b == regex_is_match(f.pattern(), text@),
        forall|m: Seq<char>| #[trigger] anchored_spec(m) == f.pattern() ==> (b <==> text@ == m),
{
    f.regex.is_match(text)
}

/// Why a list of patterns could not be compiled.
#[derive(Debug, Clone)]
pub enum FilterError {
    /// The first pattern that is not a valid regex.
    InvalidPattern(String),
}

/// Compiles every pattern, in order; fails on the first invalid one.
pub fn compile_filters(patterns: &[String]) -> (r: Result<Vec<Filter>, FilterError>)
    ensures
        r is Ok <==> forall|i: int| 0 <= i < patterns@.len() ==> regex_valid(#[trigger] patterns@[i]@),
        r matches Ok(fs) ==> fs@.len() == patterns@.len() && forall|i: int|
            0 <= i < fs@.len() ==> (#[trigger] fs@[i]).pattern() == patterns@[i]@,
        r matches Err(FilterError::InvalidPattern(p)) ==> exists|i: int|
            0 <= i < patterns@.len() && !regex_valid(#[trigger] patterns@[i]@) && p@ == patterns@[i]@
                && forall|j: int| 0 <= j < i ==> regex_valid(patterns@[j]@),
{
    let mut out: Vec<Filter> = Vec::new();
    let mut i: usize = 0;
    while i < patterns.len()
        invariant
            i <= patterns@.len(),
            out@.len() == i,
            forall|j: int| 0 <= j < i ==> regex_valid(#[trigger] patterns@[j]@),
            forall|j: int| 0 <= j < i ==> (#[trigger] out@[j]).pattern() == patterns@[j]@,
        decreases patterns@.len() - i,
    {
        match Filter::compile(patterns[i].as_str()) {
            Some(f) => out.push(f),
            None => {
                return Err(
                    FilterError::InvalidPattern(string_of(chars_of(patterns[i].as_str()).as_slice())),
                );
            },
        }
        i = i + 1;
    }
    Ok(out)
}

/// The exact-match pattern for a measurement name: the escaped name between
/// `^` and `$`.
pub open spec fn anchored_spec(name: Seq<char>) -> Seq<char> {
    seq!['^'] + escape_spec(name) + seq!['$']
}

/// Converts measurement names into patterns that match exactly those names.
pub fn measurements_to_anchored_regex(measurements: &[String]) -> (r: Vec<String>)
    ensures
        r@.len() == measurements@.len(),
        forall|i: int| 0 <= i < r@.len() ==> (#[trigger] r@[i])@ == anchored_spec(measurements@[i]@),
{
    let mut out: Vec<String> = Vec::new();
    let mut i: usize = 0;
    while i < measurements.len()
        invariant
            i <= measurements@.len(),
            out@.len() == i,
            forall|j: int| 0 <= j < i ==> (#[trigger] out@[j])@ == anchored_spec(measurements@[j]@),
        decreases measurements@.len() - i,
    {
        let esc = regex_escape(measurements[i].as_str());
        let mut cs: Vec<char> = Vec::new();
        cs.push('^');
        let ec = chars_of(esc.as_str());
        crate::git::append(&mut cs, ec.as_slice());
        cs.push('$');
        out.push(string_of(cs.as_slice()));
        proof {
            assert(out@[i as int]@ =~= anchored_spec(measurements@[i as int]@));
        }
        i = i + 1;
    }
    out
}

/// The measurement names as exact-match patterns, followed by the filter
/// patterns as they are.
pub fn combine_measurements_and_filters(measurements: &[String], filter_patterns: &[String]) -> (r:
    Vec<String>)
    ensures
        r@.len() == measurements@.len() + filter_patterns@.len(),
        forall|i: int| 0 <= i < measurements@.len() ==> (#[trigger] r@[i])@ == anchored_spec(measurements@[i]@),
        forall|i: int| 0 <= i < filter_patterns@.len() ==> (#[trigger] r@[measurements@.len() + i])@
            == filter_patterns@[i]@,
{
    let mut combined = measurements_to_anchored_regex(measurements);
    let ghost n = combined@.len();
    let mut i: usize = 0;
    while i < filter_patterns.len()
        invariant
            i <= filter_patterns@.len(),
            n == measurements@.len(),
            combined@.len() == n + i,
            forall|j: int| 0 <= j < n ==> (#[trigger] combined@[j])@ == anchored_spec(measurements@[j]@),
            forall|j: int| 0 <= j < i ==> (#[trigger] combined@[n + j])@ == filter_patterns@[j]@,
        decreases filter_patterns@.len() - i,
    {
        combined.push(string_of(chars_of(filter_patterns[i].as_str()).as_slice()));
        i = i + 1;
    }
    combined
}

/// Whether `name` passes the filters: always when there are none, else when
/// any of them matches.
pub open spec fn matches_any_spec(name: Seq<char>, patterns: Seq<Seq<char>>) -> bool {
    patterns.len() == 0 || exists|i: int| 0 <= i < patterns.len() && regex_is_match(#[trigger] patterns[i], name)
}

/// The patterns of a list of filters.
pub open spec fn patterns_of(filters: Seq<Filter>) -> Seq<Seq<char>> {
    filters.map_values(|f: Filter| f.pattern())
}

/// Whether `p` is the exact-match pattern of some name.
pub open spec fn is_anchored(p: Seq<char>) -> bool {
    exists|m: Seq<char>| #[trigger] anchored_spec(m) == p
}

/// The name whose exact-match pattern `p` is.
pub open spec fn anchored_name(p: Seq<char>) -> Seq<char> {
    choose|m: Seq<char>| #[trigger] anchored_spec(m) == p
}

proof fn lemma_escape_len(s: Seq<char>)
    ensures
        escape_spec(s).len() >= s.len(),
    decreases s.len(),
{
    if s.len() > 0 {
        lemma_escape_len(s.drop_last());
    }
}

proof fn lemma_escape_injective(a: Seq<char>, b: Seq<char>)
    requires
        escape_spec(a) == escape_spec(b),
    ensures
        a == b,
    decreases a.len() + b.len(),
{
    lemma_escape_len(a);
    lemma_escape_len(b);
    if a.len() == 0 || b.len() == 0 {
        assert(a.len() == 0 && b.len() == 0);
        assert(a =~= b);
    } else {
        let e = escape_spec(a);
        let pa = escape_spec(a.drop_last());
        let pb = escape_spec(b.drop_last());
        assert(e.last() == a.last());
        assert(e.last() == b.last());
        if is_meta(a.last()) {
            assert(pa =~= e.subrange(0, e.len() - 2));
            assert(pb =~= e.subrange(0, e.len() - 2));
        } else {
            assert(pa =~= e.subrange(0, e.len() - 1));
            assert(pb =~= e.subrange(0, e.len() - 1));
        }
        lemma_escape_injective(a.drop_last(), b.drop_last());
        assert(a =~= a.drop_last().push(a.last()));
        assert(b =~= b.drop_last().push(b.last()));
    }
}

/// The exact-match pattern of a name stands for that name and no other.
pub proof fn lemma_anchored_name(m: Seq<char>)
    ensures
        is_anchored(anchored_spec(m)),
        anchored_name(anchored_spec(m)) == m,
{
    let p = anchored_spec(m);
    assert(anchored_spec(m) == p);
    let m2 = anchored_name(p);
    assert(anchored_spec(m2) == p);
    assert(escape_spec(m) =~= p.subrange(1, p.len() - 1));
    assert(escape_spec(m2) =~= p.subrange(1, p.len() - 1));
    lemma_escape_injective(m, m2);
}

/// Whether `name` matches any of `filters` (no filters match every name).
/// Where every filter is the exact-match pattern of a name, `name` matches
/// exactly when it is one of those names.
pub fn matches_any_filter(name: &str, filters: &[Filter]) -> (b: bool)
    ensures
        b == matches_any_spec(name@, patterns_of(filters@)),
        filters@.len() > 0 && (forall|i: int|
            0 <= i < filters@.len() ==> is_anchored(#[trigger] filters@[i].pattern())) ==> (b
            <==> exists|i: int|
            0 <= i < filters@.len() && name@ == anchored_name(#[trigger] filters@[i].pattern())),
{
    let ghost ps = patterns_of(filters@);
    if filters.len() == 0 {
        return true;
    }
    let mut i: usize = 0;
    while i < filters.len()
        invariant
            i <= filters@.len(),
            ps == patterns_of(filters@),
            forall|j: int| 0 <= j < i ==> !regex_is_match(#[trigger] ps[j], name@),
            forall|j: int|
                0 <= j < i && is_anchored(#[trigger] filters@[j].pattern()) ==> name@ != anchored_name(
                    filters@[j].pattern(),
                ),
        decreases filters@.len() - i,
    {
        let hit = filter_is_match(&filters[i], name);
        proof {
            let p = filters@[i as int].pattern();
            if is_anchored(p) {
                let m = anchored_name(p);
                assert(anchored_spec(m) == p);
                assert(hit <==> name@ == m);
            }
        }
        if hit {
            assert(ps[i as int] == filters@[i as int].pattern());
            return true;
        }
        i = i + 1;
    }
    false
}

/// Filters compiled from the exact-match patterns of some names meet the
/// condition of [`matches_any_filter`] under which it answers by name, and
/// the names it then accepts are exactly those names.
pub proof fn lemma_name_filters_match_exactly(names: Seq<Seq<char>>, filters: Seq<Filter>, name: Seq<char>)
    requires
        filters.len() == names.len(),
        forall|i: int| 0 <= i < names.len() ==> (#[trigger] filters[i]).pattern() == anchored_spec(names[i]),
    ensures
        forall|i: int| 0 <= i < filters.len() ==> is_anchored(#[trigger] filters[i].pattern()),
        (exists|i: int| 0 <= i < filters.len() && name == anchored_name(#[trigger] filters[i].pattern()))
            <==> names.contains(name),
{
    assert forall|i: int| 0 <= i < filters.len() implies is_anchored(#[trigger] filters[i].pattern())
        && anchored_name(filters[i].pattern()) == names[i] by {
        lemma_anchored_name(names[i]);
    }
    if names.contains(name) {
        let k = choose|k: int| 0 <= k < names.len() && names[k] == name;
        assert(name == anchored_name(filters[k].pattern()));
    }
    if exists|i: int| 0 <= i < filters.len() && name == anchored_name(#[trigger] filters[i].pattern()) {
        let k = choose|k: int| 0 <= k < filters.len() && name == anchored_name(#[trigger] filters[k].pattern());
        assert(names[k] == name);
    }
}

} // verus!
