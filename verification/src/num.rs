//! Integers written as text: parsing the forms that std's `FromStr` and
//! `from_str_radix` accept for integer types, and writing integers in
//! decimal and hexadecimal.
use vstd::prelude::*;
use vstd::arithmetic::div_mod::*;
use vstd::arithmetic::mul::*;

verus! {

/// Value of `c` as a digit in base `radix` (2 ..= 16), if it is one.
pub open spec fn digit_of(c: char, radix: nat) -> Option<nat> {
    let u = c as u32;
    let v: int = if '0' as u32 <= u <= '9' as u32 {
        u - '0' as u32
    } else if 'a' as u32 <= u <= 'z' as u32 {
        u - 'a' as u32 + 10
    } else if 'A' as u32 <= u <= 'Z' as u32 {
        u - 'A' as u32 + 10
    } else {
        99
    };
    if v < radix {
        Some(v as nat)
    } else {
        None
    }
}

/// Whether every character of `s` is a digit in base `radix`.
pub open spec fn all_digits(s: Seq<char>, radix: nat) -> bool {
    forall|i: int| 0 <= i < s.len() ==> (#[trigger] digit_of(s[i], radix)) is Some
}

/// The number that the digits `s` denote in base `radix`.
pub open spec fn digits_value(s: Seq<char>, radix: nat) -> nat
    decreases s.len(),
{
    if s.len() == 0 {
        0
    } else {
        digits_value(s.drop_last(), radix) * radix + digit_of(s.last(), radix).unwrap()
    }
}

/// The magnitude that an unsigned integer literal denotes: an optional `+`,
/// then at least one digit.
pub open spec fn unsigned_value(s: Seq<char>, radix: nat) -> Option<nat> {
    let t = if s.len() > 0 && s[0] == '+' {
        s.drop_first()
    } else {
        s
    };
    if t.len() > 0 && all_digits(t, radix) {
        Some(digits_value(t, radix))
    } else {
        None
    }
}

/// What `from_str_radix` gives for an unsigned type whose maximum is `max`.
pub open spec fn parse_unsigned(s: Seq<char>, radix: nat, max: nat) -> Option<nat> {
    match unsigned_value(s, radix) {
        Some(v) => if v <= max {
            Some(v)
        } else {
            None
        },
        None => None,
    }
}

/// What `from_str_radix` gives for a signed type with range `[-neg_max, pos_max]`:
/// an optional `+` or `-`, then at least one digit.
pub open spec fn parse_signed(s: Seq<char>, radix: nat, pos_max: nat, neg_max: nat) -> Option<int> {
    if s.len() > 0 && s[0] == '-' {
        let t = s.drop_first();
        if t.len() > 0 && all_digits(t, radix) && digits_value(t, radix) <= neg_max {
            Some(-(digits_value(t, radix) as int))
        } else {
            None
        }
    } else {
        match parse_unsigned(s, radix, pos_max) {
            Some(v) => Some(v as int),
            None => None,
        }
    }
}

/// The digit value of `c` in base `radix`.
pub fn digit_value(c: char, radix: u32) -> (r: Option<u32>)
    requires
        2 <= radix <= 16,
    ensures
        r matches Some(v) ==> digit_of(c, radix as nat) == Some(v as nat),
        r is None ==> digit_of(c, radix as nat) is None,
{
    let u = c as u32;
    let v: u32 = if '0' as u32 <= u && u <= '9' as u32 {
        u - '0' as u32
    } else if 'a' as u32 <= u && u <= 'z' as u32 {
        u - 'a' as u32 + 10
    } else if 'A' as u32 <= u && u <= 'Z' as u32 {
        u - 'A' as u32 + 10
    } else {
        99
    };
    if v < radix {
        Some(v)
    } else {
        None
    }
}

/// Reads the digits `t` in base `radix` as long as the value stays at most `max`.
fn digits_bounded(t: &[char], from: usize, radix: u32, max: u64) -> (r: Option<u64>)
    requires
        2 <= radix <= 16,
        from <= t@.len(),
    ensures
        ({
            let d = t@.skip(from as int);
            &&& r matches Some(v) ==> all_digits(d, radix as nat) && v == digits_value(
                d,
                radix as nat,
            ) && v <= max
            &&& r is None ==> !all_digits(d, radix as nat) || digits_value(d, radix as nat) > max
        }),
{
    let ghost d = t@.skip(from as int);
    let mut acc: u64 = 0;
    let mut i: usize = from;
    while i < t.len()
        invariant
            2 <= radix <= 16,
            from <= i <= t@.len(),
            d == t@.skip(from as int),
            all_digits(d.take(i - from), radix as nat),
            acc == digits_value(d.take(i - from), radix as nat),
            acc <= max,
        decreases t@.len() - i,
    {
        let c = t[i];
        let ghost k = i - from;
        proof {
            assert(d[k] == c);
            assert(d.take(k + 1).drop_last() =~= d.take(k));
            assert(d.take(k + 1).last() == c);
        }
        match digit_value(c, radix) {
            None => {
                proof {
                    assert(digit_of(d[k], radix as nat) is None);
                }
                return None;
            },
            Some(dv) => {
                proof {
                    assert forall|j: int| 0 <= j < k + 1 implies (#[trigger] digit_of(
                        d.take(k + 1)[j],
                        radix as nat,
                    )) is Some by {
                        if j < k {
                            assert(d.take(k + 1)[j] == d.take(k)[j]);
                        }
                    }
                }
                if dv as u64 > max {
                    proof {
                        lemma_value_prefix_grows(d, k + 1, radix as nat);
                        lemma_mul_nonnegative(acc as int, radix as int);
                        lemma_digits_value_ge_prefix(d, k + 1, radix as nat);
                    }
                    return None;
                }
                if acc > (max - dv as u64) / (radix as u64) {
                    proof {
                        lemma_value_prefix_grows(d, k + 1, radix as nat);
                        assert(digits_value(d.take(k + 1), radix as nat) == acc * radix + dv);
                        assert(acc >= (max - dv) / (radix as int) + 1);
                        lemma_fundamental_div_mod((max - dv) as int, radix as int);
                        lemma_mul_inequality((max - dv) / (radix as int) + 1, acc as int, radix as int);
                        lemma_mul_is_distributive_add_other_way(radix as int, (max - dv) / (radix as int), 1);
                        lemma_mod_bound((max - dv) as int, radix as int);
                        assert(acc * radix >= ((max - dv) / (radix as int)) * radix + radix);
                        lemma_mul_is_commutative((max - dv) / (radix as int), radix as int);
                        lemma_digits_value_ge_prefix(d, k + 1, radix as nat);
                    }
                    return None;
                }
                proof {
                    lemma_fundamental_div_mod((max - dv) as int, radix as int);
                    lemma_mul_inequality(acc as int, (max - dv) / (radix as int), radix as int);
                    lemma_mul_is_commutative((max - dv) / (radix as int), radix as int);
                    lemma_mod_bound((max - dv) as int, radix as int);
                }
                acc = acc * (radix as u64) + dv as u64;
            },
        }
        i = i + 1;
    }
    assert(d.take(i - from) =~= d);
    Some(acc)
}

/// A longer all-digit prefix never denotes a smaller number.
proof fn lemma_digits_value_ge_prefix(d: Seq<char>, k: int, radix: nat)
    requires
        0 <= k <= d.len(),
        radix >= 1,
        all_digits(d.take(k), radix) ==> true,
    ensures
        all_digits(d, radix) ==> digits_value(d, radix) >= digits_value(d.take(k), radix),
    decreases d.len() - k,
{
    if k < d.len() && all_digits(d, radix) {
        assert(d.take(k) =~= d.take(k + 1).drop_last());
        lemma_value_prefix_grows(d, k + 1, radix);
        lemma_digits_value_ge_prefix(d, k + 1, radix);
    } else if k == d.len() {
        assert(d.take(k) =~= d);
    }
}

/// Appending a digit does not make the value smaller.
proof fn lemma_value_prefix_grows(d: Seq<char>, k: int, radix: nat)
    requires
        1 <= k <= d.len(),
        radix >= 1,
    ensures
        digits_value(d.take(k), radix) == digits_value(d.take(k - 1), radix) * radix + digit_of(
            d[k - 1],
            radix,
        ).unwrap(),
        digits_value(d.take(k), radix) >= digits_value(d.take(k - 1), radix),
{
    assert(d.take(k).drop_last() =~= d.take(k - 1));
    assert(d.take(k).last() == d[k - 1]);
    let v = digits_value(d.take(k - 1), radix) as int;
    if v > 0 {
        lemma_mul_increases(radix as int, v);
        lemma_mul_is_commutative(radix as int, v);
    }
}

/// Parses an unsigned integer in base `radix` whose type maximum is `max`.
pub fn parse_unsigned_chars(s: &[char], radix: u32, max: u64) -> (r: Option<u64>)
    requires
        2 <= radix <= 16,
    ensures
        r matches Some(v) ==> parse_unsigned(s@, radix as nat, max as nat) == Some(v as nat),
        r is None ==> parse_unsigned(s@, radix as nat, max as nat) is None,
{
    let from: usize = if s.len() > 0 && s[0] == '+' {
        1
    } else {
        0
    };
    proof {
        if from == 1 {
            assert(s@.skip(1) =~= s@.drop_first());
        } else {
            assert(s@.skip(0) =~= s@);
        }
    }
    if from == s.len() {
        return None;
    }
    digits_bounded(s, from, radix, max)
}

/// Parses a signed integer in base 10 with range `[-neg_max, pos_max]`.
pub fn parse_signed_chars(s: &[char], pos_max: u64, neg_max: u64) -> (r: Option<(bool, u64)>)
    ensures
        r matches Some((neg, m)) ==> parse_signed(s@, 10, pos_max as nat, neg_max as nat) == Some(
            if neg {
                -(m as int)
            } else {
                m as int
            },
        ),
        r is None ==> parse_signed(s@, 10, pos_max as nat, neg_max as nat) is None,
{
    if s.len() > 0 && s[0] == '-' {
        proof {
            assert(s@.skip(1) =~= s@.drop_first());
        }
        if s.len() == 1 {
            return None;
        }
        match digits_bounded(s, 1, 10, neg_max) {
            Some(m) => Some((true, m)),
            None => None,
        }
    } else {
        match parse_unsigned_chars(s, 10, pos_max) {
            Some(m) => Some((false, m)),
            None => None,
        }
    }
}

/// What `u32::from_str` gives.
pub fn parse_u32(s: &[char]) -> (r: Option<u32>)
    ensures
        r matches Some(v) ==> parse_unsigned(s@, 10, u32::MAX as nat) == Some(v as nat),
        r is None ==> parse_unsigned(s@, 10, u32::MAX as nat) is None,
{
    match parse_unsigned_chars(s, 10, u32::MAX as u64) {
        Some(v) => Some(v as u32),
        None => None,
    }
}

/// What `u32::from_str_radix(_, 16)` gives.
pub fn parse_u32_hex(s: &[char]) -> (r: Option<u32>)
    ensures
        r matches Some(v) ==> parse_unsigned(s@, 16, u32::MAX as nat) == Some(v as nat),
        r is None ==> parse_unsigned(s@, 16, u32::MAX as nat) is None,
{
    match parse_unsigned_chars(s, 16, u32::MAX as u64) {
        Some(v) => Some(v as u32),
        None => None,
    }
}

/// What `u64::from_str` gives.
pub fn parse_u64(s: &[char]) -> (r: Option<u64>)
    ensures
        r matches Some(v) ==> parse_unsigned(s@, 10, u64::MAX as nat) == Some(v as nat),
        r is None ==> parse_unsigned(s@, 10, u64::MAX as nat) is None,
{
    parse_unsigned_chars(s, 10, u64::MAX)
}

/// What `usize::from_str` gives.
pub fn parse_usize(s: &[char]) -> (r: Option<usize>)
    ensures
        r matches Some(v) ==> parse_unsigned(s@, 10, usize::MAX as nat) == Some(v as nat),
        r is None ==> parse_unsigned(s@, 10, usize::MAX as nat) is None,
{
    match parse_unsigned_chars(s, 10, usize::MAX as u64) {
        Some(v) => Some(v as usize),
        None => None,
    }
}

/// What `i32::from_str` gives.
pub fn parse_i32(s: &[char]) -> (r: Option<i32>)
    ensures
        r matches Some(v) ==> parse_signed(s@, 10, i32::MAX as nat, 0x8000_0000) == Some(v as int),
        r is None ==> parse_signed(s@, 10, i32::MAX as nat, 0x8000_0000) is None,
{
    match parse_signed_chars(s, i32::MAX as u64, 0x8000_0000) {
        Some((neg, m)) => if neg {
            Some((0 - (m as i64)) as i32)
        } else {
            Some(m as i32)
        },
        None => None,
    }
}

/// What `i64::from_str` gives.
pub fn parse_i64(s: &[char]) -> (r: Option<i64>)
    ensures
        r matches Some(v) ==> parse_signed(s@, 10, i64::MAX as nat, 0x8000_0000_0000_0000)
            == Some(v as int),
        r is None ==> parse_signed(s@, 10, i64::MAX as nat, 0x8000_0000_0000_0000) is None,
{
    match parse_signed_chars(s, i64::MAX as u64, 0x8000_0000_0000_0000) {
        Some((neg, m)) => if neg {
            if m == 0x8000_0000_0000_0000 {
                Some(i64::MIN)
            } else {
                Some(0 - (m as i64))
            }
        } else {
            Some(m as i64)
        },
        None => None,
    }
}

/// The digit character for `d` (0 ..= 15), lower-case for letters.
pub open spec fn digit_char(d: nat) -> char {
    if d == 0 {
        '0'
    } else if d == 1 {
        '1'
    } else if d == 2 {
        '2'
    } else if d == 3 {
        '3'
    } else if d == 4 {
        '4'
    } else if d == 5 {
        '5'
    } else if d == 6 {
        '6'
    } else if d == 7 {
        '7'
    } else if d == 8 {
        '8'
    } else if d == 9 {
        '9'
    } else if d == 10 {
        'a'
    } else if d == 11 {
        'b'
    } else if d == 12 {
        'c'
    } else if d == 13 {
        'd'
    } else if d == 14 {
        'e'
    } else {
        'f'
    }
}

/// `n` written in base `radix` without leading zeros ("0" for zero).
pub open spec fn digits_of(n: nat, radix: nat) -> Seq<char>
    decreases n,
{
    if radix < 2 || n < radix {
        seq![digit_char(n)]
    } else {
        proof {
            lemma_div_decreases(n as int, radix as int);
        }
        digits_of(n / radix, radix).push(digit_char(n % radix))
    }
}

/// `n` written in decimal, as `Display` and `Debug` of unsigned integers write it.
pub open spec fn decimal(n: nat) -> Seq<char> {
    digits_of(n, 10)
}

/// `n` written in decimal with a `-` when negative, as `Display` of signed
/// integers writes it.
pub open spec fn decimal_signed(n: int) -> Seq<char> {
    if n < 0 {
        seq!['-'] + decimal((-n) as nat)
    } else {
        decimal(n as nat)
    }
}

/// `n` in lower-case hexadecimal, padded with zeros to at least `width`
/// characters, as `format!("{:0width$x}")` writes it.
pub open spec fn hex_padded(n: nat, width: nat) -> Seq<char> {
    let h = digits_of(n, 16);
    if h.len() >= width {
        h
    } else {
        Seq::new((width - h.len()) as nat, |i: int| '0') + h
    }
}

fn digit_char_exec(d: u64) -> (c: char)
    requires
        d < 16,
    ensures
        c == digit_char(d as nat),
{
    if d == 0 {
        '0'
    } else if d == 1 {
        '1'
    } else if d == 2 {
        '2'
    } else if d == 3 {
        '3'
    } else if d == 4 {
        '4'
    } else if d == 5 {
        '5'
    } else if d == 6 {
        '6'
    } else if d == 7 {
        '7'
    } else if d == 8 {
        '8'
    } else if d == 9 {
        '9'
    } else if d == 10 {
        'a'
    } else if d == 11 {
        'b'
    } else if d == 12 {
        'c'
    } else if d == 13 {
        'd'
    } else if d == 14 {
        'e'
    } else {
        'f'
    }
}

/// Appends `n` written in base `radix` to `out`.
pub fn push_digits(out: &mut Vec<char>, n: u64, radix: u64)
    requires
        2 <= radix <= 16,
    ensures
        final(out)@ == old(out)@ + digits_of(n as nat, radix as nat),
    decreases n,
{
    if n >= radix {
        proof {
            lemma_div_decreases(n as int, radix as int);
        }
        push_digits(out, n / radix, radix);
        out.push(digit_char_exec(n % radix));
    } else {
        out.push(digit_char_exec(n));
    }
}

/// Appends `n` in decimal to `out`.
pub fn push_decimal(out: &mut Vec<char>, n: u64)
    ensures
        final(out)@ == old(out)@ + decimal(n as nat),
{
    push_digits(out, n, 10);
}

/// Appends `n` in decimal, with a minus sign when negative, to `out`.
pub fn push_decimal_signed(out: &mut Vec<char>, n: i64)
    ensures
        final(out)@ == old(out)@ + decimal_signed(n as int),
{
    if n < 0 {
        out.push('-');
        let m: u64 = if n == i64::MIN {
            0x8000_0000_0000_0000
        } else {
            (-n) as u64
        };
        push_decimal(out, m);
        assert(final(out)@ =~= old(out)@ + decimal_signed(n as int));
    } else {
        push_decimal(out, n as u64);
    }
}

/// `n` in lower-case hexadecimal padded to at least `width` characters.
pub fn hex_padded_chars(n: u64, width: usize) -> (r: Vec<char>)
    ensures
        r@ == hex_padded(n as nat, width as nat),
{
    let mut h: Vec<char> = Vec::new();
    push_digits(&mut h, n, 16);
    assert(h@ =~= digits_of(n as nat, 16));
    if h.len() >= width {
        return h;
    }
    let mut r: Vec<char> = Vec::new();
    let pad = width - h.len();
    let mut i: usize = 0;
    while i < pad
        invariant
            i <= pad,
            r@ == Seq::new(i as nat, |k: int| '0'),
        decreases pad - i,
    {
        r.push('0');
        i = i + 1;
        assert(r@ =~= Seq::new(i as nat, |k: int| '0'));
    }
    let mut j: usize = 0;
    let ghost pre = r@;
    while j < h.len()
        invariant
            j <= h@.len(),
            r@ == pre + h@.take(j as int),
        decreases h@.len() - j,
    {
        r.push(h[j]);
        j = j + 1;
        assert(r@ =~= pre + h@.take(j as int));
    }
    assert(h@.take(h@.len() as int) =~= h@);
    r
}

/// The digits of a number are digits, and there is at least one.
pub proof fn lemma_digits_of_are_digits(n: nat, radix: nat)
    requires
        2 <= radix <= 16,
    ensures
        digits_of(n, radix).len() >= 1,
        all_digits(digits_of(n, radix), radix),
        digits_of(n, radix)[0] != '+',
        digits_of(n, radix)[0] != '-',
        digits_value(digits_of(n, radix), radix) == n,
    decreases n,
{
    if n < radix {
        assert(digit_of(digit_char(n), radix) == Some(n));
        let s = digits_of(n, radix);
        assert(s.drop_last() =~= Seq::<char>::empty());
        lemma_mul_basics(radix as int);
        assert(digits_value(s, radix) == digits_value(Seq::<char>::empty(), radix) * radix + n);
    } else {
        lemma_div_decreases(n as int, radix as int);
        lemma_digits_of_are_digits(n / radix, radix);
        lemma_mod_bound(n as int, radix as int);
        let p = digits_of(n / radix, radix);
        let s = p.push(digit_char(n % radix));
        assert(digit_of(digit_char(n % radix), radix) == Some(n % radix));
        assert forall|i: int| 0 <= i < s.len() implies (#[trigger] digit_of(s[i], radix)) is Some by {
            if i < p.len() {
                assert(s[i] == p[i]);
            }
        }
        assert(s.drop_last() =~= p);
        lemma_fundamental_div_mod(n as int, radix as int);
        lemma_mul_is_commutative(radix as int, (n / radix) as int);
    }
}

/// Reading back a decimal number gives the number.
pub proof fn lemma_parse_decimal(n: nat, max: nat)
    requires
        n <= max,
    ensures
        parse_unsigned(decimal(n), 10, max) == Some(n),
{
    lemma_digits_of_are_digits(n, 10);
}

/// Whether `c` is a decimal digit.
pub open spec fn is_digit(c: char) -> bool {
    '0' <= c && c <= '9'
}

/// Whether every character of `s` is a decimal digit.
pub open spec fn decimal_digits(s: Seq<char>) -> bool {
    forall|i: int| 0 <= i < s.len() ==> is_digit(#[trigger] s[i])
}

/// `s` without one leading `+` or `-`.
pub open spec fn unsigned_part(s: Seq<char>) -> Seq<char> {
    if s.len() > 0 && (s[0] == '+' || s[0] == '-') {
        s.drop_first()
    } else {
        s
    }
}

/// The position of the first `e` or `E`.
pub open spec fn exponent_at(s: Seq<char>) -> Option<int>
    decreases s.len(),
{
    if s.len() == 0 {
        None
    } else {
        match exponent_at(s.drop_last()) {
            Some(i) => Some(i),
            None => if s.last() == 'e' || s.last() == 'E' {
                Some(s.len() - 1)
            } else {
                None
            },
        }
    }
}

/// The position of the first `.`.
pub open spec fn dot_at(s: Seq<char>) -> Option<int>
    decreases s.len(),
{
    if s.len() == 0 {
        None
    } else {
        match dot_at(s.drop_last()) {
            Some(i) => Some(i),
            None => if s.last() == '.' {
                Some(s.len() - 1)
            } else {
                None
            },
        }
    }
}

/// `Digit+ | Digit+ '.' Digit* | Digit* '.' Digit+`.
pub open spec fn mantissa_text(m: Seq<char>) -> bool {
    match dot_at(m) {
        None => m.len() > 0 && decimal_digits(m),
        Some(p) => decimal_digits(m.take(p)) && decimal_digits(m.skip(p + 1)) && m.len() >= 2,
    }
}

/// `Number ::= Mantissa ('e' Sign? Digit+)?`, the exponent letter in
/// either case.
pub open spec fn number_text(t: Seq<char>) -> bool {
    match exponent_at(t) {
        None => mantissa_text(t),
        Some(i) => mantissa_text(t.take(i)) && unsigned_part(t.skip(i + 1)).len() > 0
            && decimal_digits(unsigned_part(t.skip(i + 1))),
    }
}

/// Whether `str::parse::<f64>` accepts `s`: its documented grammar
/// `Sign? ('inf' | 'infinity' | 'nan' | Number)`, letters in either case.
pub open spec fn float_text(s: Seq<char>) -> bool {
    let t = unsigned_part(s);
    crate::stats::eq_ignore_ascii_case(t, "inf"@) || crate::stats::eq_ignore_ascii_case(t, "infinity"@)
        || crate::stats::eq_ignore_ascii_case(t, "nan"@) || number_text(t)
}

/// The first position at or after `from` that satisfies neither, or the end.
fn digits_from(s: &[char], from: usize) -> (r: usize)
    requires
        from <= s@.len(),
    ensures
        from <= r <= s@.len(),
        decimal_digits(s@.subrange(from as int, r as int)),
        r < s@.len() ==> !is_digit(s@[r as int]),
{
    let mut i = from;
    while i < s.len() && '0' <= s[i] && s[i] <= '9'
        invariant
            from <= i <= s@.len(),
            decimal_digits(s@.subrange(from as int, i as int)),
        decreases s@.len() - i,
    {
        i = i + 1;
        assert(s@.subrange(from as int, i as int) =~= s@.subrange(from as int, i - 1).push(s@[i - 1]));
    }
    i
}

proof fn lemma_first_at(s: Seq<char>, i: int, dot: bool)
    requires
        0 <= i <= s.len(),
        forall|j: int| 0 <= j < i ==> if dot {
            s[j] != '.'
        } else {
            s[j] != 'e' && s[j] != 'E'
        },
        i < s.len() ==> if dot {
            s[i] == '.'
        } else {
            s[i] == 'e' || s[i] == 'E'
        },
    ensures
        (if dot {
            dot_at(s)
        } else {
            exponent_at(s)
        }) == (if i < s.len() {
            Some(i)
        } else {
            None::<int>
        }),
    decreases s.len(),
{
    if s.len() > 0 {
        if i < s.len() {
            if i < s.len() - 1 {
                lemma_first_at(s.drop_last(), i, dot);
            } else {
                lemma_first_at(s.drop_last(), i, dot);
            }
        } else {
            lemma_first_at(s.drop_last(), i - 1, dot);
        }
    }
}

/// The first position of `c` in `s`, or the end.
fn position_of(s: &[char], c1: char, c2: char) -> (r: usize)
    ensures
        r <= s@.len(),
        forall|j: int| 0 <= j < r ==> s@[j] != c1 && s@[j] != c2,
        r < s@.len() ==> s@[r as int] == c1 || s@[r as int] == c2,
{
    let mut i: usize = 0;
    while i < s.len() && s[i] != c1 && s[i] != c2
        invariant
            i <= s@.len(),
            forall|j: int| 0 <= j < i ==> s@[j] != c1 && s@[j] != c2,
        decreases s@.len() - i,
    {
        i = i + 1;
    }
    i
}

/// Whether a mantissa is well formed.
fn is_mantissa(m: &[char]) -> (b: bool)
    ensures
        b == mantissa_text(m@),
{
    let p = position_of(m, '.', '.');
    proof {
        lemma_first_at(m@, p as int, true);
    }
    if p == m.len() {
        let d = digits_from(m, 0);
        proof {
            assert(m@.subrange(0, m@.len() as int) =~= m@);
            if d < m@.len() {
                assert(!decimal_digits(m@));
            }
        }
        return m.len() > 0 && d == m.len();
    }
    let a = digits_from(m, 0);
    let b = digits_from(m, p + 1);
    proof {
        assert(m@.subrange(0, p as int) =~= m@.take(p as int));
        if a < p {
            assert(m@.take(p as int)[a as int] == m@[a as int]);
        }
        if a >= p {
            assert(m@.subrange(0, a as int).take(p as int) =~= m@.take(p as int));
            assert forall|j: int| 0 <= j < p implies is_digit(#[trigger] m@.take(p as int)[j]) by {
                assert(m@.take(p as int)[j] == m@.subrange(0, a as int)[j]);
            }
        }
        assert(m@.subrange(p + 1, m@.len() as int) =~= m@.skip(p + 1));
        if b < m@.len() {
            assert(m@.skip(p + 1)[b - p - 1] == m@[b as int]);
        }
    }
    a >= p && b == m.len() && m.len() >= 2
}

/// Whether `str::parse::<f64>` accepts the text.
pub fn is_float_text(s: &[char]) -> (b: bool)
    ensures
        b == float_text(s@),
{
    let start: usize = if s.len() > 0 && (s[0] == '+' || s[0] == '-') {
        1
    } else {
        0
    };
    let t = crate::text::slice_range(s, start, s.len());
    proof {
        if start == 1 {
            assert(t@ =~= s@.drop_first());
        } else {
            assert(t@ =~= s@);
        }
    }
    let ts = t.as_slice();
    if crate::stats::eq_ignore_case_str(ts, "inf") || crate::stats::eq_ignore_case_str(ts, "infinity")
        || crate::stats::eq_ignore_case_str(ts, "nan") {
        return true;
    }
    let e = position_of(ts, 'e', 'E');
    proof {
        lemma_first_at(t@, e as int, false);
    }
    if e == t.len() {
        return is_mantissa(ts);
    }
    let mant = crate::text::slice_range(ts, 0, e);
    let rest = crate::text::slice_range(ts, e + 1, t.len());
    assert(mant@ =~= t@.take(e as int));
    assert(rest@ =~= t@.skip(e + 1));
    let rs: usize = if rest.len() > 0 && (rest[0] == '+' || rest[0] == '-') {
        1
    } else {
        0
    };
    let d = digits_from(rest.as_slice(), rs);
    proof {
        let u = unsigned_part(rest@);
        if rs == 1 {
            assert(u =~= rest@.subrange(1, rest@.len() as int));
        } else {
            assert(u =~= rest@.subrange(0, rest@.len() as int));
        }
        if d < rest@.len() {
            assert(u[d - rs] == rest@[d as int]);
        } else {
            assert(rest@.subrange(rs as int, d as int) =~= u);
        }
    }
    is_mantissa(mant.as_slice()) && rs < rest.len() && d == rest.len()
}

} // verus!
