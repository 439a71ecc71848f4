//! Reading the values of command-line options.
use vstd::prelude::*;
use crate::text::{chars_of, copy_str, find_char, first_index, slice_range, string_of, words, words_chars};

verus! {

/// Why an option value was refused.
#[derive(Debug, Clone, PartialEq, Eq)]
pub enum CliParseError {
    /// The value holds white space between words.
    Spaces(String),
    /// A `key=value` pair without `=`.
    NoEquals(String),
}

/// Whether a value is one word at most (white space around it is allowed).
pub open spec fn spaceless(s: Seq<char>) -> bool {
    words(s).len() <= 1
}

/// Accepts a string, key or value without white space between words.
pub fn parse_spaceless_string(s: &str) -> (r: Result<String, CliParseError>)
    ensures
        spaceless(s@) ==> (r matches Ok(v) && v@ == s@),
        !spaceless(s@) ==> (r matches Err(CliParseError::Spaces(v)) && v@ == s@),
{
    let c = chars_of(s);
    let w = words_chars(c.as_slice());
    if w.len() > 1 {
        Err(CliParseError::Spaces(copy_str(s)))
    } else {
        Ok(copy_str(s))
    }
}

/// A `key=value` pair split at its first `=`, where both sides are spaceless.
pub open spec fn key_value_spec(s: Seq<char>) -> Option<(Seq<char>, Seq<char>)> {
    match first_index(s, '=') {
        Some(p) => Some((s.take(p), s.skip(p + 1))),
        None => None,
    }
}

/// Reads a `key=value` option.
pub fn parse_key_value(s: &str) -> (r: Result<(String, String), CliParseError>)
    ensures
        match key_value_spec(s@) {
            None => r matches Err(CliParseError::NoEquals(v)) && v@ == s@,
            Some((k, v)) => if !spaceless(k) {
                r matches Err(CliParseError::Spaces(e)) && e@ == k
            } else if !spaceless(v) {
                r matches Err(CliParseError::Spaces(e)) && e@ == v
            } else {
                r matches Ok((a, b)) && a@ == k && b@ == v
            },
        },
{
    let c = chars_of(s);
    let pos = match find_char(c.as_slice(), '=') {
        Some(p) => p,
        None => return Err(CliParseError::NoEquals(copy_str(s))),
    };
    let n = c.len();
    assert(pos < n);
    let k = string_of(slice_range(c.as_slice(), 0, pos).as_slice());
    let v = string_of(slice_range(c.as_slice(), pos + 1, n).as_slice());
    proof {
        assert(k@ =~= s@.take(pos as int));
        assert(v@ =~= s@.skip(pos + 1));
    }
    let key = match parse_spaceless_string(k.as_str()) {
        Ok(x) => x,
        Err(e) => return Err(e),
    };
    let value = match parse_spaceless_string(v.as_str()) {
        Ok(x) => x,
        Err(e) => return Err(e),
    };
    Ok((key, value))
}

} // verus!
