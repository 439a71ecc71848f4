//! Character-level text handling shared by the parsers and formatters of the
//! library: conversion between strings and character vectors, Unicode
//! whitespace trimming, splitting at a separator, line splitting and
//! substring search.
use vstd::prelude::*;

verus! {

broadcast use vstd::string::group_string_axioms;

/// The characters of `s`.
pub fn chars_of(s: &str) -> (v: Vec<char>)
    ensures
        v@ == s@,
{
    let mut v: Vec<char> = Vec::new();
    for c in it: s.chars()
        invariant
            v@ == it.seq().take(it.index() as int),
            it.seq() == s@,
    {
        v.push(c);
    }
    v
}

/// Appends one character to a string (std's `String::push`).
#[verifier::external_body]
fn push_char(s: &mut String, c: char)
    ensures
        final(s)@ == old(s)@.push(c),
{
    s.push(c);
}

/// The string made of the characters of `v`.
pub fn string_of(v: &[char]) -> (s: String)
    ensures
        s@ == v@,
{
    let mut s = String::new();
    let mut i: usize = 0;
    while i < v.len()
        invariant
            i <= v@.len(),
            s@ == v@.take(i as int),
        decreases v@.len() - i,
    {
        push_char(&mut s, v[i]);
        i = i + 1;
        assert(s@ =~= v@.take(i as int));
    }
    assert(v@.take(v@.len() as int) =~= v@);
    s
}

/// The texts of a sequence of strings.
pub open spec fn strs(v: Seq<String>) -> Seq<Seq<char>> {
    v.map_values(|s: String| s@)
}

/// A copy of `s`.
pub fn copy_str(s: &str) -> (r: String)
    ensures
        r@ == s@,
{
    string_of(chars_of(s).as_slice())
}

/// Whether `name` is one of `v`.
pub fn contains_str(v: &Vec<String>, name: &str) -> (b: bool)
    ensures
        b == strs(v@).contains(name@),
{
    let mut i: usize = 0;
    while i < v.len()
        invariant
            i <= v@.len(),
            forall|j: int| 0 <= j < i ==> v@[j]@ != name@,
        decreases v@.len() - i,
    {
        if eq_str(v[i].as_str(), name) {
            proof {
                assert(strs(v@)[i as int] == name@);
            }
            return true;
        }
        i = i + 1;
    }
    proof {
        if strs(v@).contains(name@) {
            let k = choose|k: int| 0 <= k < strs(v@).len() && strs(v@)[k] == name@;
            assert(v@[k]@ == name@);
        }
    }
    false
}

/// Appends the characters of `s` to `out`.
pub fn push_str(out: &mut Vec<char>, s: &str)
    ensures
        final(out)@ == old(out)@ + s@,
{
    let c = chars_of(s);
    let mut i: usize = 0;
    while i < c.len()
        invariant
            i <= c@.len(),
            c@ == s@,
            out@ == old(out)@ + c@.take(i as int),
        decreases c@.len() - i,
    {
        out.push(c[i]);
        i = i + 1;
        assert(out@ =~= old(out)@ + c@.take(i as int));
    }
    assert(c@.take(c@.len() as int) =~= c@);
}

/// What `str::to_lowercase` gives for a text: the Unicode lower-case mapping
/// of each character.
pub uninterp spec fn lowercase(s: Seq<char>) -> Seq<char>;

/// `str::to_lowercase`, whose result is a function of the text alone.
#[verifier::external_body]
pub(crate) fn to_lowercase(s: &str) -> (r: String)
    ensures
        r@ == lowercase(s@),
{
    s.to_lowercase()
}

/// Whether `a` sorts before `b` or equals it, in the order of `str`'s `Ord`:
/// lexicographic by character.
pub open spec fn str_le(a: Seq<char>, b: Seq<char>) -> bool
    decreases a.len(),
{
    if a.len() == 0 {
        true
    } else if b.len() == 0 {
        false
    } else if a[0] != b[0] {
        a[0] < b[0]
    } else {
        str_le(a.drop_first(), b.drop_first())
    }
}

/// Any two texts are ordered one way or the other.
pub proof fn lemma_str_le_total(a: Seq<char>, b: Seq<char>)
    ensures
        str_le(a, b) || str_le(b, a),
    decreases a.len(),
{
    if a.len() > 0 && b.len() > 0 && a[0] == b[0] {
        lemma_str_le_total(a.drop_first(), b.drop_first());
    }
}

/// The order of texts is transitive.
pub proof fn lemma_str_le_trans(a: Seq<char>, b: Seq<char>, c: Seq<char>)
    requires
        str_le(a, b),
        str_le(b, c),
    ensures
        str_le(a, c),
    decreases a.len(),
{
    if a.len() > 0 && b.len() > 0 && c.len() > 0 && a[0] == b[0] && b[0] == c[0] {
        lemma_str_le_trans(a.drop_first(), b.drop_first(), c.drop_first());
    }
}

/// Whether `a` sorts before `b` or equals it.
pub fn str_le_chars(a: &[char], b: &[char]) -> (r: bool)
    ensures
        r == str_le(a@, b@),
{
    let mut i: usize = 0;
    proof {
        assert(a@.skip(0) =~= a@);
        assert(b@.skip(0) =~= b@);
    }
    while i < a.len() && i < b.len() && a[i] == b[i]
        invariant
            i <= a@.len(),
            i <= b@.len(),
            str_le(a@, b@) == str_le(a@.skip(i as int), b@.skip(i as int)),
        decreases a@.len() - i,
    {
        proof {
            assert(a@.skip(i as int).drop_first() =~= a@.skip(i + 1));
            assert(b@.skip(i as int).drop_first() =~= b@.skip(i + 1));
        }
        i = i + 1;
    }
    if i == a.len() {
        true
    } else if i == b.len() {
        false
    } else {
        a[i] < b[i]
    }
}

/// Whether the texts are in ascending order.
pub open spec fn sorted_strs(s: Seq<Seq<char>>) -> bool {
    forall|i: int, j: int| 0 <= i < j < s.len() ==> str_le(#[trigger] s[i], #[trigger] s[j])
}

/// The strings of `v` in ascending order.
pub fn sort_strings(v: &Vec<String>) -> (r: Vec<String>)
    ensures
        sorted_strs(strs(r@)),
        strs(r@).to_multiset() == strs(v@).to_multiset(),
        r@.len() == v@.len(),
{
    let mut r: Vec<String> = Vec::new();
    let mut i: usize = 0;
    proof {
        assert(strs(r@) =~= strs(v@.take(0)));
    }
    while i < v.len()
        invariant
            i <= v@.len(),
            r@.len() == i,
            sorted_strs(strs(r@)),
            strs(r@).to_multiset() == strs(v@.take(i as int)).to_multiset(),
        decreases v@.len() - i,
    {
        let x = chars_of(v[i].as_str());
        let mut p: usize = 0;
        while p < r.len() && str_le_chars(chars_of(r[p].as_str()).as_slice(), x.as_slice())
            invariant
                p <= r@.len(),
                forall|j: int| 0 <= j < p ==> str_le((#[trigger] r@[j])@, x@),
            decreases r@.len() - p,
        {
            p = p + 1;
        }
        let ghost s = strs(r@);
        proof {
            if p < r@.len() {
                lemma_str_le_total(s[p as int], x@);
            }
            assert forall|j: int| p <= j < s.len() implies str_le(x@, #[trigger] s[j]) by {
                lemma_str_le_total(s[p as int], x@);
                if j > p {
                    lemma_str_le_trans(x@, s[p as int], s[j]);
                }
            }
        }
        r.insert(p, string_of(x.as_slice()));
        proof {
            let t = strs(r@);
            assert(t =~= s.insert(p as int, x@));
            assert forall|a: int, b: int| 0 <= a < b < t.len() implies str_le(
                #[trigger] t[a],
                #[trigger] t[b],
            ) by {
                if a < p && b == p {
                } else if a < p && b > p {
                    assert(t[b] == s[b - 1]);
                    assert(str_le(s[a], x@));
                    if b - 1 >= p {
                        lemma_str_le_trans(s[a], x@, s[b - 1]);
                    }
                } else if a == p {
                    assert(t[b] == s[b - 1]);
                } else if a > p {
                    assert(t[a] == s[a - 1]);
                    assert(t[b] == s[b - 1]);
                } else {
                    assert(t[a] == s[a]);
                    assert(t[b] == s[b]);
                }
            }
            assert(v@.take(i + 1) =~= v@.take(i as int).push(v@[i as int]));
            assert(strs(v@.take(i + 1)) =~= strs(v@.take(i as int)).push(x@));
            vstd::seq_lib::to_multiset_insert(s, p as int, x@);
            vstd::seq_lib::to_multiset_build(strs(v@.take(i as int)), x@);
            assert(s.insert(p as int, x@).to_multiset() == s.to_multiset().insert(x@));
            assert(strs(v@.take(i as int)).push(x@).to_multiset() == strs(
                v@.take(i as int),
            ).to_multiset().insert(x@));
        }
        i = i + 1;
    }
    proof {
        assert(v@.take(v@.len() as int) =~= v@);
    }
    r
}

/// Unicode `White_Space`, the property that `char::is_whitespace` and
/// `str::trim` test.
pub open spec fn is_ws(c: char) -> bool {
    let u = c as u32;
    ||| 0x09 <= u <= 0x0d
    ||| u == 0x20
    ||| u == 0x85
    ||| u == 0xa0
    ||| u == 0x1680
    ||| 0x2000 <= u <= 0x200a
    ||| u == 0x2028
    ||| u == 0x2029
    ||| u == 0x202f
    ||| u == 0x205f
    ||| u == 0x3000
}

/// Whether `c` is Unicode whitespace.
pub fn is_whitespace(c: char) -> (b: bool)
    ensures
        b == is_ws(c),
{
    let u = c as u32;
    (0x09 <= u && u <= 0x0d) || u == 0x20 || u == 0x85 || u == 0xa0 || u == 0x1680 || (0x2000
        <= u && u <= 0x200a) || u == 0x2028 || u == 0x2029 || u == 0x202f || u == 0x205f || u
        == 0x3000
}

/// Number of leading whitespace characters of `s`.
pub open spec fn lead_ws(s: Seq<char>) -> nat
    decreases s.len(),
{
    if s.len() > 0 && is_ws(s[0]) {
        1 + lead_ws(s.drop_first())
    } else {
        0
    }
}

/// Number of trailing whitespace characters of `s`.
pub open spec fn trail_ws(s: Seq<char>) -> nat
    decreases s.len(),
{
    if s.len() > 0 && is_ws(s.last()) {
        1 + trail_ws(s.drop_last())
    } else {
        0
    }
}

/// `s` without leading whitespace.
pub open spec fn trim_start(s: Seq<char>) -> Seq<char> {
    s.skip(lead_ws(s) as int)
}

/// `s` without trailing whitespace.
pub open spec fn trim_end(s: Seq<char>) -> Seq<char> {
    s.take(s.len() - trail_ws(s))
}

/// `s` without leading and trailing whitespace, as `str::trim` gives it.
pub open spec fn trim(s: Seq<char>) -> Seq<char> {
    trim_end(trim_start(s))
}

proof fn lemma_lead_ws(s: Seq<char>, i: int)
    requires
        0 <= i <= s.len(),
        forall|j: int| 0 <= j < i ==> is_ws(#[trigger] s[j]),
        i == s.len() || !is_ws(s[i]),
    ensures
        lead_ws(s) == i,
    decreases s.len(),
{
    if s.len() > 0 && is_ws(s[0]) {
        assert forall|j: int| 0 <= j < i - 1 implies is_ws(#[trigger] s.drop_first()[j]) by {
            assert(s.drop_first()[j] == s[j + 1]);
        }
        lemma_lead_ws(s.drop_first(), i - 1);
    }
}

proof fn lemma_trail_ws(s: Seq<char>, k: int)
    requires
        0 <= k <= s.len(),
        forall|j: int| k <= j < s.len() ==> is_ws(#[trigger] s[j]),
        k == 0 || !is_ws(s[k - 1]),
    ensures
        trail_ws(s) == s.len() - k,
    decreases s.len(),
{
    if s.len() > 0 && is_ws(s.last()) {
        assert forall|j: int| k <= j < s.len() - 1 implies is_ws(#[trigger] s.drop_last()[j]) by {
            assert(s.drop_last()[j] == s[j]);
        }
        lemma_trail_ws(s.drop_last(), k);
    }
}

/// Bounds `[start, end)` of `s` without its surrounding whitespace.
pub fn trim_bounds(s: &[char]) -> (r: (usize, usize))
    ensures
        r.0 <= r.1 <= s@.len(),
        s@.subrange(r.0 as int, r.1 as int) == trim(s@),
{
    let mut i: usize = 0;
    while i < s.len() && is_whitespace(s[i])
        invariant
            i <= s@.len(),
            forall|j: int| 0 <= j < i ==> is_ws(#[trigger] s@[j]),
        decreases s@.len() - i,
    {
        i = i + 1;
    }
    proof {
        lemma_lead_ws(s@, i as int);
    }
    let ghost t = s@.skip(i as int);
    let mut k: usize = s.len();
    while k > i && is_whitespace(s[k - 1])
        invariant
            i <= k <= s@.len(),
            forall|j: int| k <= j < s@.len() ==> is_ws(#[trigger] s@[j]),
        decreases k,
    {
        k = k - 1;
    }
    proof {
        assert forall|j: int| k - i <= j < t.len() implies is_ws(#[trigger] t[j]) by {
            assert(t[j] == s@[j + i]);
        }
        if k > i {
            assert(t[k - i - 1] == s@[k - 1]);
        }
        lemma_trail_ws(t, k - i);
        assert(s@.subrange(i as int, k as int) =~= t.take(t.len() - trail_ws(t)));
    }
    (i, k)
}

/// `s` without surrounding whitespace.
pub fn trim_chars(s: &[char]) -> (r: Vec<char>)
    ensures
        r@ == trim(s@),
{
    let (a, b) = trim_bounds(s);
    slice_range(s, a, b)
}

/// The characters `s[a..b]`.
pub fn slice_range(s: &[char], a: usize, b: usize) -> (r: Vec<char>)
    requires
        a <= b <= s@.len(),
    ensures
        r@ == s@.subrange(a as int, b as int),
{
    let mut r: Vec<char> = Vec::new();
    let mut i = a;
    while i < b
        invariant
            a <= i <= b <= s@.len(),
            r@ == s@.subrange(a as int, i as int),
        decreases b - i,
    {
        r.push(s[i]);
        i = i + 1;
        assert(r@ =~= s@.subrange(a as int, i as int));
    }
    r
}

/// The pieces of `s` between occurrences of `d`, as `str::split` with a
/// character pattern yields them (there is always at least one piece).
pub open spec fn split_on(s: Seq<char>, d: char) -> Seq<Seq<char>>
    decreases s.len(),
{
    if s.len() == 0 {
        seq![Seq::<char>::empty()]
    } else {
        let prev = split_on(s.drop_last(), d);
        if s.last() == d {
            prev.push(Seq::<char>::empty())
        } else {
            prev.update(prev.len() - 1, prev.last().push(s.last()))
        }
    }
}

pub proof fn lemma_split_nonempty(s: Seq<char>, d: char)
    ensures
        split_on(s, d).len() >= 1,
    decreases s.len(),
{
    if s.len() > 0 {
        lemma_split_nonempty(s.drop_last(), d);
    }
}

/// Splitting `x`, a separator and a piece without separator appends that piece.
pub proof fn lemma_split_append(x: Seq<char>, d: char, p: Seq<char>)
    requires
        !p.contains(d),
    ensures
        split_on(x + seq![d] + p, d) == split_on(x, d).push(p),
    decreases p.len(),
{
    lemma_split_nonempty(x, d);
    let s = x + seq![d] + p;
    if p.len() == 0 {
        assert(s =~= x.push(d));
        assert(s.drop_last() =~= x);
        assert(s.last() == d);
        assert(split_on(s, d) == split_on(x, d).push(Seq::<char>::empty()));
        assert(p =~= Seq::<char>::empty());
    } else {
        let q = p.drop_last();
        assert(!q.contains(d)) by {
            if q.contains(d) {
                let j = choose|j: int| 0 <= j < q.len() && q[j] == d;
                assert(p[j] == d);
            }
        }
        lemma_split_append(x, d, q);
        assert((x + seq![d] + p).drop_last() =~= x + seq![d] + q);
        assert(p.last() != d) by {
            assert(p[p.len() - 1] == p.last());
        }
        assert(q.push(p.last()) =~= p);
        assert(s.last() == p.last());
        let prev = split_on(s.drop_last(), d);
        assert(prev == split_on(x, d).push(q));
        assert(prev.update(prev.len() - 1, prev.last().push(s.last())) =~= split_on(x, d).push(p));
    }
}

/// A sequence without the separator is one piece.
pub proof fn lemma_split_single(p: Seq<char>, d: char)
    requires
        !p.contains(d),
    ensures
        split_on(p, d) == seq![p],
    decreases p.len(),
{
    if p.len() > 0 {
        let q = p.drop_last();
        assert(!q.contains(d)) by {
            if q.contains(d) {
                let j = choose|j: int| 0 <= j < q.len() && q[j] == d;
                assert(p[j] == d);
            }
        }
        lemma_split_single(q, d);
        assert(p.last() != d) by {
            assert(p[p.len() - 1] == p.last());
        }
        assert(q.push(p.last()) =~= p);
        assert(p.drop_last() == q);
        let prev = split_on(q, d);
        assert(prev.update(prev.len() - 1, prev.last().push(p.last())) =~= seq![p]);
    } else {
        assert(p =~= Seq::<char>::empty());
    }
}

/// Splits `s` at every occurrence of `d`.
pub fn split_chars(s: &[char], d: char) -> (r: Vec<Vec<char>>)
    ensures
        r@.len() == split_on(s@, d).len(),
        forall|i: int| 0 <= i < r@.len() ==> #[trigger] r@[i]@ == split_on(s@, d)[i],
{
    let mut done: Vec<Vec<char>> = Vec::new();
    let mut cur: Vec<char> = Vec::new();
    let mut i: usize = 0;
    while i < s.len()
        invariant
            i <= s@.len(),
            done@.len() + 1 == split_on(s@.take(i as int), d).len(),
            forall|j: int|
                0 <= j < done@.len() ==> #[trigger] done@[j]@ == split_on(s@.take(i as int), d)[j],
            cur@ == split_on(s@.take(i as int), d).last(),
        decreases s@.len() - i,
    {
        let c = s[i];
        proof {
            assert(s@.take(i + 1).drop_last() =~= s@.take(i as int));
            assert(s@.take(i + 1).last() == c);
            lemma_split_nonempty(s@.take(i as int), d);
        }
        if c == d {
            let piece = cur;
            done.push(piece);
            cur = Vec::new();
        } else {
            cur.push(c);
        }
        i = i + 1;
    }
    assert(s@.take(s@.len() as int) =~= s@);
    done.push(cur);
    done
}

/// The lines of `s`, as `str::lines` yields them: pieces between `'\n'`, each
/// piece that ended in `"\r\n"` without its `'\r'`, and no final empty piece.
pub open spec fn lines_of(s: Seq<char>) -> Seq<Seq<char>> {
    let parts = split_on(s, '\n');
    let n = parts.len() as int;
    let ended = parts.take(n - 1).map_values(|p: Seq<char>| strip_cr(p));
    if parts.last().len() == 0 {
        ended
    } else {
        ended.push(parts.last())
    }
}

/// `p` without one trailing carriage return.
pub open spec fn strip_cr(p: Seq<char>) -> Seq<char> {
    if p.len() > 0 && p.last() == '\r' {
        p.drop_last()
    } else {
        p
    }
}

/// Splits `s` into lines.
pub fn lines_chars(s: &[char]) -> (r: Vec<Vec<char>>)
    ensures
        r@.len() == lines_of(s@).len(),
        forall|i: int| 0 <= i < r@.len() ==> #[trigger] r@[i]@ == lines_of(s@)[i],
{
    let parts = split_chars(s, '\n');
    proof {
        lemma_split_nonempty(s@, '\n');
    }
    let n = parts.len();
    let ghost sp = split_on(s@, '\n');
    let ghost ended = sp.take(n - 1).map_values(|p: Seq<char>| strip_cr(p));
    let mut r: Vec<Vec<char>> = Vec::new();
    let mut i: usize = 0;
    while i + 1 < n
        invariant
            n == parts@.len(),
            n == sp.len(),
            n >= 1,
            i + 1 <= n,
            forall|j: int| 0 <= j < n ==> #[trigger] parts@[j]@ == sp[j],
            ended == sp.take(n - 1).map_values(|p: Seq<char>| strip_cr(p)),
            r@.len() == i,
            forall|j: int| 0 <= j < i ==> #[trigger] r@[j]@ == ended[j],
        decreases n - i,
    {
        let p = &parts[i];
        let mut line: Vec<char>;
        if p.len() > 0 && p[p.len() - 1] == '\r' {
            line = slice_range(p.as_slice(), 0, p.len() - 1);
            assert(line@ =~= p@.drop_last());
        } else {
            line = slice_range(p.as_slice(), 0, p.len());
            assert(line@ =~= p@);
        }
        proof {
            assert(p@ == sp[i as int]);
            assert(ended[i as int] == strip_cr(sp[i as int]));
            if p@.len() > 0 {
                assert(p@.last() == p@[p@.len() - 1]);
            }
        }
        r.push(line);
        i = i + 1;
    }
    let last = &parts[n - 1];
    if last.len() > 0 {
        let l = slice_range(last.as_slice(), 0, last.len());
        assert(l@ =~= sp.last());
        r.push(l);
        assert(r@.len() == ended.len() + 1);
    }
    r
}

/// Whether `pat` occurs in `s` at position `i`.
pub open spec fn occurs_at(s: Seq<char>, pat: Seq<char>, i: int) -> bool {
    0 <= i && i + pat.len() <= s.len() && s.subrange(i, i + pat.len()) == pat
}

/// Whether `pat` occurs somewhere in `s`, as `str::contains` tests it.
pub open spec fn contains_seq(s: Seq<char>, pat: Seq<char>) -> bool {
    exists|i: int| occurs_at(s, pat, i)
}

/// Whether `s` begins with `pat`.
pub open spec fn starts_with(s: Seq<char>, pat: Seq<char>) -> bool {
    pat.len() <= s.len() && s.take(pat.len() as int) == pat
}

/// Whether `pat` occurs in `s` at position `i`.
pub fn matches_at(s: &[char], pat: &[char], i: usize) -> (b: bool)
    ensures
        b == occurs_at(s@, pat@, i as int),
{
    if i > s.len() || pat.len() > s.len() - i {
        return false;
    }
    assert(i + pat@.len() <= s@.len());
    let mut j: usize = 0;
    while j < pat.len()
        invariant
            i + pat@.len() <= s@.len(),
            s@.len() == s.len(),
            j <= pat@.len(),
            forall|k: int| 0 <= k < j ==> s@[i + k] == pat@[k],
        decreases pat@.len() - j,
    {
        if s[i + j] != pat[j] {
            assert(s@.subrange(i as int, i + pat@.len())[j as int] != pat@[j as int]);
            return false;
        }
        j = j + 1;
    }
    assert(s@.subrange(i as int, i + pat@.len()) =~= pat@);
    true
}

/// Whether `pat` occurs in `s`.
pub fn contains_chars(s: &[char], pat: &[char]) -> (b: bool)
    ensures
        b == contains_seq(s@, pat@),
{
    let mut i: usize = 0;
    while i < s.len()
        invariant
            s@.len() == s.len(),
            i <= s@.len(),
            forall|k: int| 0 <= k < i ==> !occurs_at(s@, pat@, k),
        decreases s@.len() - i,
    {
        if matches_at(s, pat, i) {
            return true;
        }
        i = i + 1;
    }
    if matches_at(s, pat, i) {
        return true;
    }
    assert forall|k: int| !occurs_at(s@, pat@, k) by {
        if 0 <= k && k > i {
            assert(k + pat@.len() > s@.len());
        }
    }
    false
}

/// Whether `s` begins with `pat`.
pub fn starts_with_chars(s: &[char], pat: &[char]) -> (b: bool)
    ensures
        b == starts_with(s@, pat@),
{
    let b = matches_at(s, pat, 0);
    proof {
        if pat@.len() <= s@.len() {
            assert(s@.subrange(0, pat@.len() as int) =~= s@.take(pat@.len() as int));
        }
    }
    b
}

/// Whether two character sequences are equal.
pub fn eq_chars(a: &[char], b: &[char]) -> (r: bool)
    ensures
        r == (a@ == b@),
{
    if a.len() != b.len() {
        return false;
    }
    let mut i: usize = 0;
    while i < a.len()
        invariant
            a@.len() == b@.len(),
            i <= a@.len(),
            forall|k: int| 0 <= k < i ==> a@[k] == b@[k],
        decreases a@.len() - i,
    {
        if a[i] != b[i] {
            return false;
        }
        i = i + 1;
    }
    assert(a@ =~= b@);
    true
}

/// Whether two strings are equal.
pub fn eq_str(a: &str, b: &str) -> (r: bool)
    ensures
        r == (a@ == b@),
{
    let x = chars_of(a);
    let y = chars_of(b);
    eq_chars(x.as_slice(), y.as_slice())
}

/// The pieces of `s` between whitespace characters.
pub open spec fn split_ws_pieces(s: Seq<char>) -> Seq<Seq<char>>
    decreases s.len(),
{
    if s.len() == 0 {
        seq![Seq::<char>::empty()]
    } else {
        let prev = split_ws_pieces(s.drop_last());
        if is_ws(s.last()) {
            prev.push(Seq::<char>::empty())
        } else {
            prev.update(prev.len() - 1, prev.last().push(s.last()))
        }
    }
}

/// The non-empty elements of `fs`, in order.
pub open spec fn nonempty(fs: Seq<Seq<char>>) -> Seq<Seq<char>>
    decreases fs.len(),
{
    if fs.len() == 0 {
        fs
    } else if fs.last().len() == 0 {
        nonempty(fs.drop_last())
    } else {
        nonempty(fs.drop_last()).push(fs.last())
    }
}

/// The words of `s`, as `str::split_whitespace` yields them.
pub open spec fn words(s: Seq<char>) -> Seq<Seq<char>> {
    nonempty(split_ws_pieces(s))
}

proof fn lemma_split_ws_nonempty(s: Seq<char>)
    ensures
        split_ws_pieces(s).len() >= 1,
    decreases s.len(),
{
    if s.len() > 0 {
        lemma_split_ws_nonempty(s.drop_last());
    }
}

/// The words of `s`.
pub fn words_chars(s: &[char]) -> (r: Vec<Vec<char>>)
    ensures
        r@.len() == words(s@).len(),
        forall|i: int| 0 <= i < r@.len() ==> #[trigger] r@[i]@ == words(s@)[i],
{
    let mut done: Vec<Vec<char>> = Vec::new();
    let mut cur: Vec<char> = Vec::new();
    let mut i: usize = 0;
    while i < s.len()
        invariant
            i <= s@.len(),
            split_ws_pieces(s@.take(i as int)).len() >= 1,
            done@.len() == nonempty(split_ws_pieces(s@.take(i as int)).drop_last()).len(),
            forall|j: int|
                0 <= j < done@.len() ==> #[trigger] done@[j]@ == nonempty(split_ws_pieces(s@.take(i as int)).drop_last())[j],
            cur@ == split_ws_pieces(s@.take(i as int)).last(),
        decreases s@.len() - i,
    {
        let c = s[i];
        let ghost prev = split_ws_pieces(s@.take(i as int));
        proof {
            assert(s@.take(i + 1).drop_last() =~= s@.take(i as int));
            assert(s@.take(i + 1).last() == c);
        }
        if is_whitespace(c) {
            if cur.len() > 0 {
                let piece = cur;
                done.push(piece);
            }
            cur = Vec::new();
            proof {
                let next = prev.push(Seq::<char>::empty());
                assert(next.drop_last() =~= prev);
                assert(prev.drop_last().push(prev.last()) =~= prev);
            }
        } else {
            cur.push(c);
            proof {
                let next = prev.update(prev.len() - 1, prev.last().push(c));
                assert(next.drop_last() =~= prev.drop_last());
            }
        }
        i = i + 1;
    }
    assert(s@.take(i as int) =~= s@);
    let ghost all = split_ws_pieces(s@);
    proof {
        assert(all.drop_last().push(all.last()) =~= all);
    }
    if cur.len() > 0 {
        done.push(cur);
    }
    done
}

/// Index of the first `c` in `s`, if any.
pub open spec fn first_index(s: Seq<char>, c: char) -> Option<int> {
    if s.contains(c) {
        Some(choose|i: int| 0 <= i < s.len() && s[i] == c && forall|j: int| 0 <= j < i ==> s[j] != c)
    } else {
        None
    }
}

/// `f` split at its first `c`, as `str::split_once(c)` does.
pub open spec fn split_once_spec(f: Seq<char>, c: char) -> Option<(Seq<char>, Seq<char>)> {
    match first_index(f, c) {
        Some(i) => Some((f.take(i), f.skip(i + 1))),
        None => None,
    }
}

/// `f` split at its first `=`.
pub open spec fn split_eq(f: Seq<char>) -> Option<(Seq<char>, Seq<char>)> {
    split_once_spec(f, '=')
}

/// Splits `f` at its first `c`.
pub fn split_once_chars(f: &[char], c: char) -> (r: Option<(Vec<char>, Vec<char>)>)
    ensures
        r matches Some((a, b)) ==> split_once_spec(f@, c) == Some((a@, b@)),
        r is None ==> split_once_spec(f@, c) is None,
{
    match find_char(f, c) {
        Some(at) => {
            assert(at < f@.len());
            let n = f.len();
            assert(n == f@.len());
            let a = slice_range(f, 0, at);
            let b = slice_range(f, at + 1, f.len());
            assert(a@ =~= f@.take(at as int));
            assert(b@ =~= f@.skip(at + 1));
            Some((a, b))
        },
        None => None,
    }
}

/// Index of the first `c` in `s`.
pub fn find_char(s: &[char], c: char) -> (r: Option<usize>)
    ensures
        r matches Some(i) ==> first_index(s@, c) == Some(i as int) && i < s@.len() && s@[i as int]
            == c,
        r is None ==> first_index(s@, c) is None,
{
    let mut i: usize = 0;
    while i < s.len()
        invariant
            i <= s@.len(),
            forall|j: int| 0 <= j < i ==> s@[j] != c,
        decreases s@.len() - i,
    {
        if s[i] == c {
            proof {
                assert(s@.contains(c));
                let k = choose|k: int| 0 <= k < s@.len() && s@[k] == c && forall|j: int| 0 <= j < k ==> s@[j] != c;
                assert(k == i as int) by {
                    if k < i {
                    } else if k > i {
                        assert(s@[i as int] != c);
                    }
                }
            }
            return Some(i);
        }
        i = i + 1;
    }
    None
}

} // verus!
