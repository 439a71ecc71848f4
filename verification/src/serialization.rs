//! The line format in which measurements are stored in git notes.
//!
//! One measurement per line: epoch, name, timestamp, value and then the
//! `key=value` pairs, separated by the file-separator character U+001C.
use vstd::prelude::*;
use crate::data::{kv_insert, kv_set, kv_unique, kv_view, KeyValue, MeasurementData, MeasurementModel};
use crate::num::{decimal, float_text, is_float_text, parse_u32, parse_unsigned, push_decimal};
use crate::text::{
    chars_of, is_ws, lemma_split_append, lemma_split_nonempty, lemma_split_single, lines_chars,
    lines_of, nonempty, slice_range, first_index, split_eq, split_once_chars, split_chars, split_on, string_of, strip_cr, trail_ws, trim, trim_bounds,
    lead_ws,
};
use crate::num::{all_digits, digit_of, lemma_digits_of_are_digits, lemma_parse_decimal};

verus! {

/// The field separator of the notes format (U+001C).
pub const DELIMITER: &'static str = "\u{1c}";

/// The field separator as a character.
pub open spec fn delim_char() -> char {
    '\u{1c}'
}

/// `parts` joined with `sep` between neighbours.
pub open spec fn join(parts: Seq<Seq<char>>, sep: Seq<char>) -> Seq<char>
    decreases parts.len(),
{
    if parts.len() == 0 {
        Seq::<char>::empty()
    } else if parts.len() == 1 {
        parts[0]
    } else {
        join(parts.drop_last(), sep) + sep + parts.last()
    }
}

/// A key-value pair written as `key=value`.
pub open spec fn kv_field(p: KeyValue) -> Seq<char> {
    p.0 + seq!['='] + p.1
}

/// The fields of a measurement line, in order.
pub open spec fn record_fields(m: MeasurementModel) -> Seq<Seq<char>> {
    seq![decimal(m.epoch as nat), m.name, m.timestamp, m.val] + m.key_values.map_values(
        |p: KeyValue| kv_field(p),
    )
}

/// The line that stores `m`, fields separated by `sep`, ending in a newline.
pub open spec fn serialize_spec(m: MeasurementModel, sep: Seq<char>) -> Seq<char> {
    join(record_fields(m), sep).push('\n')
}

/// The lines of several measurements, one after another.
pub open spec fn serialize_all_spec(ms: Seq<MeasurementModel>) -> Seq<char>
    decreases ms.len(),
{
    if ms.len() == 0 {
        Seq::<char>::empty()
    } else {
        serialize_all_spec(ms.drop_last()) + serialize_spec(ms.last(), seq![delim_char()])
    }
}

/// The key-values that the fields after the fourth denote; `None` when one
/// of them has no `=`. A later value for the same key replaces an earlier one.
pub open spec fn kvs_of_fields(fs: Seq<Seq<char>>) -> Option<Seq<KeyValue>>
    decreases fs.len(),
{
    if fs.len() == 0 {
        Some(Seq::<KeyValue>::empty())
    } else {
        match kvs_of_fields(fs.drop_last()) {
            None => None,
            Some(acc) => match split_eq(fs.last()) {
                None => None,
                Some(kv) => Some(kv_insert(acc, kv.0, kv.1)),
            },
        }
    }
}

/// The measurement that one line denotes, if it is well formed: at least
/// four non-empty fields, the first an epoch that fits in `u32`, the third
/// and fourth numbers that `f64` reads, and every further field a
/// `key=value` pair.
pub open spec fn record_of_line(line: Seq<char>) -> Option<MeasurementModel> {
    let f = nonempty(split_on(line, delim_char()));
    if f.len() < 4 {
        None
    } else if !float_text(f[2]) || !float_text(f[3]) {
        None
    } else {
        match parse_unsigned(f[0], 10, u32::MAX as nat) {
            None => None,
            Some(e) => match kvs_of_fields(f.skip(4)) {
                None => None,
                Some(kvs) => Some(
                    MeasurementModel {
                        epoch: e as u32,
                        name: f[1],
                        timestamp: f[2],
                        val: f[3],
                        key_values: kvs,
                    },
                ),
            },
        }
    }
}

/// The measurements of `ls`, skipping blank and malformed lines.
pub open spec fn records_of_lines(ls: Seq<Seq<char>>) -> Seq<MeasurementModel>
    decreases ls.len(),
{
    if ls.len() == 0 {
        Seq::<MeasurementModel>::empty()
    } else {
        let prev = records_of_lines(ls.drop_last());
        if trim(ls.last()).len() == 0 {
            prev
        } else {
            match record_of_line(ls.last()) {
                Some(m) => prev.push(m),
                None => prev,
            }
        }
    }
}

/// The measurements stored in `text`.
pub open spec fn deserialize_spec(text: Seq<char>) -> Seq<MeasurementModel> {
    records_of_lines(lines_of(text))
}

fn push_all(out: &mut Vec<char>, s: &[char])
    ensures
        final(out)@ == old(out)@ + s@,
{
    let mut i: usize = 0;
    while i < s.len()
        invariant
            i <= s@.len(),
            out@ == old(out)@ + s@.take(i as int),
        decreases s@.len() - i,
    {
        out.push(s[i]);
        i = i + 1;
        assert(out@ =~= old(out)@ + s@.take(i as int));
    }
    assert(s@.take(s@.len() as int) =~= s@);
}

proof fn lemma_join_push(parts: Seq<Seq<char>>, sep: Seq<char>, p: Seq<char>)
    requires
        parts.len() >= 1,
    ensures
        join(parts.push(p), sep) == join(parts, sep) + sep + p,
{
    assert(parts.push(p).drop_last() =~= parts);
}

/// The characters of a measurement line with separator `sep`.
fn serialize_chars(md: &MeasurementData, sep: &[char]) -> (r: Vec<char>)
    ensures
        r@ == serialize_spec(md@, sep@),
{
    let ghost fields = record_fields(md@);
    let mut out: Vec<char> = Vec::new();
    push_decimal(&mut out, md.epoch as u64);
    let name = chars_of(md.name.as_str());
    let ts = chars_of(md.timestamp.as_str());
    let val = chars_of(md.val.as_str());
    proof {
        assert(out@ =~= decimal(md.epoch as nat));
        assert(fields.take(1) =~= seq![fields[0]]);
    }
    assert(out@ == join(fields.take(1), sep@));
    push_all(&mut out, sep);
    push_all(&mut out, name.as_slice());
    proof {
        lemma_join_push(fields.take(1), sep@, fields[1]);
        assert(fields.take(1).push(fields[1]) =~= fields.take(2));
    }
    push_all(&mut out, sep);
    push_all(&mut out, ts.as_slice());
    proof {
        lemma_join_push(fields.take(2), sep@, fields[2]);
        assert(fields.take(2).push(fields[2]) =~= fields.take(3));
    }
    push_all(&mut out, sep);
    push_all(&mut out, val.as_slice());
    proof {
        lemma_join_push(fields.take(3), sep@, fields[3]);
        assert(fields.take(3).push(fields[3]) =~= fields.take(4));
    }
    let mut i: usize = 0;
    while i < md.key_values.len()
        invariant
            i <= md.key_values@.len(),
            fields == record_fields(md@),
            fields.len() == 4 + md.key_values@.len(),
            out@ == join(fields.take(4 + i), sep@),
        decreases md.key_values@.len() - i,
    {
        let (k, v) = &md.key_values[i];
        let kc = chars_of(k.as_str());
        let vc = chars_of(v.as_str());
        let ghost before = out@;
        push_all(&mut out, sep);
        push_all(&mut out, kc.as_slice());
        out.push('=');
        push_all(&mut out, vc.as_slice());
        proof {
            let f = fields[4 + i];
            assert(f == kv_field(md@.key_values[i as int]));
            assert(f =~= kc@ + seq!['='] + vc@);
            lemma_join_push(fields.take(4 + i), sep@, f);
            assert(fields.take(4 + i).push(f) =~= fields.take(4 + i + 1));
            assert(out@ =~= before + sep@ + f);
        }
        i = i + 1;
    }
    assert(fields.take(4 + i) =~= fields);
    out.push('\n');
    out
}

/// The line that stores `measurement_data`, with fields separated by
/// `custom_delimiter` and a final newline.
pub fn serialize_single(measurement_data: &MeasurementData, custom_delimiter: &str) -> (r: String)
    ensures
        r@ == serialize_spec(measurement_data@, custom_delimiter@),
{
    let sep = chars_of(custom_delimiter);
    let c = serialize_chars(measurement_data, sep.as_slice());
    string_of(c.as_slice())
}

/// The lines of all `measurement_data`, in order, with the notes separator.
pub fn serialize_multiple(measurement_data: &[MeasurementData]) -> (r: String)
    ensures
        r@ == serialize_all_spec(measurement_data@.map_values(|m: MeasurementData| m@)),
{
    let ghost ms = measurement_data@.map_values(|m: MeasurementData| m@);
    let sep = chars_of(DELIMITER);
    let mut out: Vec<char> = Vec::new();
    let mut i: usize = 0;
    while i < measurement_data.len()
        invariant
            i <= measurement_data@.len(),
            ms == measurement_data@.map_values(|m: MeasurementData| m@),
            sep@ == DELIMITER@,
            out@ == serialize_all_spec(ms.take(i as int)),
        decreases measurement_data@.len() - i,
    {
        let line = serialize_chars(&measurement_data[i], sep.as_slice());
        push_all(&mut out, line.as_slice());
        proof {
            assert(ms.take(i + 1).drop_last() =~= ms.take(i as int));
            assert(ms.take(i + 1).last() == measurement_data@[i as int]@);
            reveal_strlit("\u{1c}");
            assert(sep@ =~= seq![delim_char()]);
        }
        i = i + 1;
    }
    assert(ms.take(i as int) =~= ms);
    string_of(out.as_slice())
}

proof fn lemma_kvs_prefix_none(fs: Seq<Seq<char>>, n: int)
    requires
        0 <= n <= fs.len(),
        kvs_of_fields(fs.take(n)) is None,
    ensures
        kvs_of_fields(fs) is None,
    decreases fs.len() - n,
{
    if n < fs.len() {
        assert(fs.take(n + 1).drop_last() =~= fs.take(n));
        lemma_kvs_prefix_none(fs, n + 1);
    } else {
        assert(fs.take(n) =~= fs);
    }
}

proof fn lemma_nonempty_len(fs: Seq<Seq<char>>)
    ensures
        nonempty(fs).len() <= fs.len(),
        forall|i: int| 0 <= i < nonempty(fs).len() ==> (#[trigger] nonempty(fs)[i]).len() > 0,
    decreases fs.len(),
{
    if fs.len() > 0 {
        lemma_nonempty_len(fs.drop_last());
    }
}

/// The measurement stored on one line, if the line is well formed.
fn deserialize_single(line: &[char]) -> (r: Option<MeasurementData>)
    ensures
        r matches Some(m) ==> record_of_line(line@) == Some(m@) && kv_unique(m@.key_values),
        r is None ==> record_of_line(line@) is None,
{
    let parts = split_chars(line, '\u{1c}');
    let ghost sp = split_on(line@, delim_char());
    let mut comps: Vec<Vec<char>> = Vec::new();
    let mut i: usize = 0;
    while i < parts.len()
        invariant
            i <= parts@.len(),
            parts@.len() == sp.len(),
            forall|j: int| 0 <= j < parts@.len() ==> #[trigger] parts@[j]@ == sp[j],
            comps@.len() == nonempty(sp.take(i as int)).len(),
            forall|j: int| 0 <= j < comps@.len() ==> #[trigger] comps@[j]@ == nonempty(sp.take(i as int))[j],
        decreases parts@.len() - i,
    {
        proof {
            assert(sp.take(i + 1).drop_last() =~= sp.take(i as int));
            assert(sp.take(i + 1).last() == sp[i as int]);
        }
        if parts[i].len() > 0 {
            let p = slice_range(parts[i].as_slice(), 0, parts[i].len());
            assert(p@ =~= parts@[i as int]@);
            comps.push(p);
        }
        i = i + 1;
    }
    assert(sp.take(i as int) =~= sp);
    let ghost f = nonempty(sp);
    if comps.len() < 4 {
        return None;
    }
    let epoch = match parse_u32(comps[0].as_slice()) {
        Some(e) => e,
        None => {
            return None;
        },
    };
    if !is_float_text(comps[2].as_slice()) || !is_float_text(comps[3].as_slice()) {
        return None;
    }
    let name = string_of(comps[1].as_slice());
    let timestamp = string_of(comps[2].as_slice());
    let val = string_of(comps[3].as_slice());
    let mut key_values: Vec<(String, String)> = Vec::new();
    let ghost rest = f.skip(4);
    let mut j: usize = 4;
    assert(rest.take(0) =~= Seq::<Seq<char>>::empty());
    while j < comps.len()
        invariant
            4 <= j <= comps@.len(),
            comps@.len() == f.len(),
            forall|k: int| 0 <= k < comps@.len() ==> #[trigger] comps@[k]@ == f[k],
            rest == f.skip(4),
            f == nonempty(split_on(line@, delim_char())),
            parse_unsigned(f[0], 10, u32::MAX as nat) == Some(epoch as nat),
            kvs_of_fields(rest.take(j - 4)) == Some(kv_view(key_values@)),
            kv_unique(kv_view(key_values@)),
        decreases comps@.len() - j,
    {
        let field = &comps[j];
        proof {
            assert(rest.take(j - 4 + 1).drop_last() =~= rest.take(j - 4));
            assert(rest.take(j - 4 + 1).last() == f[j as int]);
        }
        match split_once_chars(field.as_slice(), '=') {
            None => {
                proof {
                    lemma_kvs_prefix_none(rest, j - 4 + 1);
                    assert(kvs_of_fields(f.skip(4)) is None);
                }
                return None;
            },
            Some((kc, vc)) => {
                let k = string_of(kc.as_slice());
                let v = string_of(vc.as_slice());
                kv_set(&mut key_values, k, v);
            },
        }
        j = j + 1;
    }
    assert(rest.take(j - 4) =~= rest);
    Some(MeasurementData { epoch, name, timestamp, val, key_values })
}

/// The measurements stored in `lines`: one per line, skipping blank lines
/// and lines that are not well formed.
pub fn deserialize(lines: &str) -> (r: Vec<MeasurementData>)
    ensures
        r@.len() == deserialize_spec(lines@).len(),
        forall|i: int| 0 <= i < r@.len() ==> (#[trigger] r@[i])@ == deserialize_spec(lines@)[i],
        forall|i: int| 0 <= i < r@.len() ==> kv_unique((#[trigger] r@[i])@.key_values),
{
    let cs = chars_of(lines);
    let ls = lines_chars(cs.as_slice());
    let ghost lv = lines_of(lines@);
    let mut out: Vec<MeasurementData> = Vec::new();
    let mut i: usize = 0;
    while i < ls.len()
        invariant
            i <= ls@.len(),
            ls@.len() == lv.len(),
            forall|j: int| 0 <= j < ls@.len() ==> #[trigger] ls@[j]@ == lv[j],
            out@.len() == records_of_lines(lv.take(i as int)).len(),
            forall|j: int| 0 <= j < out@.len() ==> (#[trigger] out@[j])@ == records_of_lines(lv.take(i as int))[j],
            forall|j: int| 0 <= j < out@.len() ==> kv_unique((#[trigger] out@[j])@.key_values),
        decreases ls@.len() - i,
    {
        let line = &ls[i];
        proof {
            assert(lv.take(i + 1).drop_last() =~= lv.take(i as int));
            assert(lv.take(i + 1).last() == lv[i as int]);
        }
        let (a, b) = trim_bounds(line.as_slice());
        if a < b {
            match deserialize_single(line.as_slice()) {
                Some(m) => {
                    out.push(m);
                },
                None => {},
            }
        }
        i = i + 1;
    }
    assert(lv.take(i as int) =~= lv);
    out
}

/// A field that survives storage: non-empty, without separator or newline.
pub open spec fn field_ok(f: Seq<char>) -> bool {
    f.len() > 0 && !f.contains(delim_char()) && !f.contains('\n')
}

/// The stored line of `m` without its final newline.
pub open spec fn line_of(m: MeasurementModel) -> Seq<char> {
    join(record_fields(m), seq![delim_char()])
}

/// Whether `m` is read back unchanged from its stored line: name, timestamp
/// and value are fields that survive storage, timestamp and value are
/// numbers that `f64` reads, keys hold no `=` and are
/// unique, no key or value holds the separator or a newline, and the line
/// does not end in a carriage return (which line splitting would drop).
pub open spec fn storable(m: MeasurementModel) -> bool {
    &&& field_ok(m.name)
    &&& field_ok(m.timestamp)
    &&& field_ok(m.val)
    &&& float_text(m.timestamp)
    &&& float_text(m.val)
    &&& kv_unique(m.key_values)
    &&& forall|i: int|
        0 <= i < m.key_values.len() ==> {
            let kv = #[trigger] m.key_values[i];
            &&& !kv.0.contains('=')
            &&& !kv.0.contains(delim_char())
            &&& !kv.0.contains('\n')
            &&& !kv.1.contains(delim_char())
            &&& !kv.1.contains('\n')
        }
    &&& line_of(m).last() != '\r'
}

proof fn lemma_not_contains_concat(a: Seq<char>, b: Seq<char>, c: char)
    requires
        !a.contains(c),
        !b.contains(c),
    ensures
        !(a + b).contains(c),
{
    if (a + b).contains(c) {
        let i = choose|i: int| 0 <= i < (a + b).len() && (a + b)[i] == c;
        if i < a.len() {
            assert(a[i] == c);
        } else {
            assert(b[i - a.len()] == c);
        }
    }
}

proof fn lemma_join_no(parts: Seq<Seq<char>>, d: char, c: char)
    requires
        c != d,
        forall|i: int| 0 <= i < parts.len() ==> !(#[trigger] parts[i]).contains(c),
    ensures
        !join(parts, seq![d]).contains(c),
    decreases parts.len(),
{
    if parts.len() == 0 {
    } else if parts.len() == 1 {
    } else {
        let q = parts.drop_last();
        assert forall|i: int| 0 <= i < q.len() implies !(#[trigger] q[i]).contains(c) by {
            assert(q[i] == parts[i]);
        }
        lemma_join_no(q, d, c);
        assert(!seq![d].contains(c)) by {
            if seq![d].contains(c) {
                let i = choose|i: int| 0 <= i < seq![d].len() && seq![d][i] == c;
                assert(seq![d][i] == d);
            }
        }
        assert(!parts.last().contains(c)) by {
            assert(parts.last() == parts[parts.len() - 1]);
        }
        lemma_not_contains_concat(join(q, seq![d]), seq![d], c);
        lemma_not_contains_concat(join(q, seq![d]) + seq![d], parts.last(), c);
    }
}

/// Splitting the join of pieces without separator gives back the pieces.
pub proof fn lemma_split_join(parts: Seq<Seq<char>>, d: char)
    requires
        parts.len() >= 1,
        forall|i: int| 0 <= i < parts.len() ==> !(#[trigger] parts[i]).contains(d),
    ensures
        split_on(join(parts, seq![d]), d) == parts,
    decreases parts.len(),
{
    if parts.len() == 1 {
        lemma_split_single(parts[0], d);
        assert(seq![parts[0]] =~= parts);
    } else {
        let q = parts.drop_last();
        assert forall|i: int| 0 <= i < q.len() implies !(#[trigger] q[i]).contains(d) by {
            assert(q[i] == parts[i]);
        }
        lemma_split_join(q, d);
        assert(!parts.last().contains(d)) by {
            assert(parts.last() == parts[parts.len() - 1]);
        }
        lemma_split_append(join(q, seq![d]), d, parts.last());
        assert(q.push(parts.last()) =~= parts);
    }
}

proof fn lemma_nonempty_id(fs: Seq<Seq<char>>)
    requires
        forall|i: int| 0 <= i < fs.len() ==> (#[trigger] fs[i]).len() > 0,
    ensures
        nonempty(fs) == fs,
    decreases fs.len(),
{
    if fs.len() > 0 {
        let q = fs.drop_last();
        assert forall|i: int| 0 <= i < q.len() implies (#[trigger] q[i]).len() > 0 by {
            assert(q[i] == fs[i]);
        }
        lemma_nonempty_id(q);
        assert(fs.last() == fs[fs.len() - 1]);
        assert(q.push(fs.last()) =~= fs);
    }
}

proof fn lemma_split_eq_field(k: Seq<char>, v: Seq<char>)
    requires
        !k.contains('='),
    ensures
        split_eq(k + seq!['='] + v) == Some((k, v)),
{
    let f = k + seq!['='] + v;
    assert(f[k.len() as int] == '=');
    assert(f.contains('='));
    let i = choose|i: int| 0 <= i < f.len() && f[i] == '=' && forall|j: int| 0 <= j < i ==> f[j] != '=';
    assert forall|j: int| 0 <= j < k.len() implies f[j] != '=' by {
        assert(f[j] == k[j]);
        if k[j] == '=' {
            assert(k.contains('='));
        }
    }
    assert(i == k.len()) by {
        if i < k.len() {
            assert(f[i] != '=');
        } else if i > k.len() {
            assert(f[k.len() as int] != '=');
        }
    }
    assert(f.take(i) =~= k);
    assert(f.skip(i + 1) =~= v);
}

proof fn lemma_kvs_of_kv_fields(kvs: Seq<KeyValue>)
    requires
        kv_unique(kvs),
        forall|i: int| 0 <= i < kvs.len() ==> !(#[trigger] kvs[i]).0.contains('='),
    ensures
        kvs_of_fields(kvs.map_values(|p: KeyValue| kv_field(p))) == Some(kvs),
    decreases kvs.len(),
{
    let fs = kvs.map_values(|p: KeyValue| kv_field(p));
    if kvs.len() > 0 {
        let q = kvs.drop_last();
        assert forall|a: int, b: int| 0 <= a < q.len() && 0 <= b < q.len() && a != b implies q[a].0 != q[b].0 by {
            assert(q[a] == kvs[a]);
            assert(q[b] == kvs[b]);
        }
        assert forall|i: int| 0 <= i < q.len() implies !(#[trigger] q[i]).0.contains('=') by {
            assert(q[i] == kvs[i]);
        }
        lemma_kvs_of_kv_fields(q);
        assert(fs.drop_last() =~= q.map_values(|p: KeyValue| kv_field(p)));
        let last = kvs[kvs.len() - 1];
        assert(fs.last() == kv_field(last));
        lemma_split_eq_field(last.0, last.1);
        assert(!crate::data::kv_has(q, last.0)) by {
            if crate::data::kv_has(q, last.0) {
                let j = choose|j: int| 0 <= j < q.len() && q[j].0 == last.0;
                assert(q[j] == kvs[j]);
            }
        }
        assert(q.push((last.0, last.1)) =~= kvs);
    } else {
        assert(fs =~= Seq::<Seq<char>>::empty());
        assert(kvs =~= Seq::<KeyValue>::empty());
    }
}

proof fn lemma_record_fields_ok(m: MeasurementModel)
    requires
        storable(m),
    ensures
        forall|i: int| 0 <= i < record_fields(m).len() ==> {
            let f = #[trigger] record_fields(m)[i];
            &&& f.len() > 0
            &&& !f.contains(delim_char())
            &&& !f.contains('\n')
        },
{
    let fs = record_fields(m);
    lemma_digits_of_are_digits(m.epoch as nat, 10);
    let e = decimal(m.epoch as nat);
    assert forall|c: char| (c == delim_char() || c == '\n') implies !e.contains(c) by {
        if e.contains(c) {
            let j = choose|j: int| 0 <= j < e.len() && e[j] == c;
            assert(digit_of(e[j], 10) is Some);
        }
    }
    assert forall|i: int| 0 <= i < fs.len() implies {
        let f = #[trigger] fs[i];
        &&& f.len() > 0
        &&& !f.contains(delim_char())
        &&& !f.contains('\n')
    } by {
        if i >= 4 {
            let kv = m.key_values[i - 4];
            assert(fs[i] == kv_field(kv));
            assert(!seq!['='].contains(delim_char())) by {
                if seq!['='].contains(delim_char()) {
                    let j = choose|j: int| 0 <= j < 1 && seq!['='][j] == delim_char();
                }
            }
            assert(!seq!['='].contains('\n')) by {
                if seq!['='].contains('\n') {
                    let j = choose|j: int| 0 <= j < 1 && seq!['='][j] == '\n';
                }
            }
            lemma_not_contains_concat(kv.0, seq!['='], delim_char());
            lemma_not_contains_concat(kv.0 + seq!['='], kv.1, delim_char());
            lemma_not_contains_concat(kv.0, seq!['='], '\n');
            lemma_not_contains_concat(kv.0 + seq!['='], kv.1, '\n');
        }
    }
}

/// The stored line of a storable measurement is read back as that measurement.
proof fn lemma_record_of_line(m: MeasurementModel)
    requires
        storable(m),
    ensures
        record_of_line(line_of(m)) == Some(m),
{
    let fs = record_fields(m);
    lemma_record_fields_ok(m);
    lemma_split_join(fs, delim_char());
    lemma_nonempty_id(fs);
    let f = nonempty(split_on(line_of(m), delim_char()));
    assert(f == fs);
    lemma_parse_decimal(m.epoch as nat, u32::MAX as nat);
    assert(fs.skip(4) =~= m.key_values.map_values(|p: KeyValue| kv_field(p)));
    assert forall|i: int| 0 <= i < m.key_values.len() implies !(#[trigger] m.key_values[i]).0.contains('=') by {
    }
    lemma_kvs_of_kv_fields(m.key_values);
}

proof fn lemma_trail_ws_bound(s: Seq<char>)
    ensures
        trail_ws(s) <= s.len(),
        s.len() > 0 && !is_ws(s[0]) ==> trail_ws(s) < s.len(),
    decreases s.len(),
{
    if s.len() > 0 && is_ws(s.last()) {
        lemma_trail_ws_bound(s.drop_last());
        if s.len() == 1 {
            assert(s.last() == s[0]);
        } else {
            assert(s.drop_last()[0] == s[0]);
        }
    }
}

/// A stored line is not blank: it starts with an epoch digit.
proof fn lemma_line_not_blank(m: MeasurementModel)
    requires
        storable(m),
    ensures
        trim(line_of(m)).len() > 0,
        line_of(m).len() > 0,
        line_of(m)[0] == decimal(m.epoch as nat)[0],
{
    let fs = record_fields(m);
    let l = line_of(m);
    lemma_digits_of_are_digits(m.epoch as nat, 10);
    lemma_join_first(fs, seq![delim_char()]);
    let c = l[0];
    assert(digit_of(c, 10) is Some);
    assert(!is_ws(c));
    assert(lead_ws(l) == 0);
    assert(l.skip(0) =~= l);
    lemma_trail_ws_bound(l);
}

proof fn lemma_join_first(parts: Seq<Seq<char>>, sep: Seq<char>)
    requires
        parts.len() >= 1,
        parts[0].len() > 0,
    ensures
        join(parts, sep).len() > 0,
        join(parts, sep)[0] == parts[0][0],
    decreases parts.len(),
{
    if parts.len() > 1 {
        let q = parts.drop_last();
        assert(q[0] == parts[0]);
        lemma_join_first(q, sep);
        assert((join(q, sep) + sep + parts.last())[0] == join(q, sep)[0]);
    }
}

/// The concatenated lines of `ms`, without newlines, in order.
pub open spec fn lines_spec(ms: Seq<MeasurementModel>) -> Seq<Seq<char>> {
    ms.map_values(|m: MeasurementModel| line_of(m))
}

proof fn lemma_line_no_newline(m: MeasurementModel)
    requires
        storable(m),
    ensures
        !line_of(m).contains('\n'),
{
    let fs = record_fields(m);
    lemma_record_fields_ok(m);
    lemma_join_no(fs, delim_char(), '\n');
}

proof fn lemma_split_concat(ms: Seq<MeasurementModel>, x: Seq<char>)
    requires
        forall|i: int| 0 <= i < ms.len() ==> storable(#[trigger] ms[i]),
        !x.contains('\n'),
    ensures
        split_on(serialize_all_spec(ms) + x, '\n') == lines_spec(ms).push(x),
    decreases ms.len(),
{
    if ms.len() == 0 {
        assert(serialize_all_spec(ms) + x =~= x);
        lemma_split_single(x, '\n');
        assert(lines_spec(ms).push(x) =~= seq![x]);
    } else {
        let q = ms.drop_last();
        let last = ms.last();
        assert(storable(last)) by {
            assert(last == ms[ms.len() - 1]);
        }
        assert forall|i: int| 0 <= i < q.len() implies storable(#[trigger] q[i]) by {
            assert(q[i] == ms[i]);
        }
        lemma_line_no_newline(last);
        lemma_split_concat(q, line_of(last));
        assert(serialize_all_spec(ms) + x =~= (serialize_all_spec(q) + line_of(last)) + seq!['\n'] + x);
        lemma_split_append(serialize_all_spec(q) + line_of(last), '\n', x);
        assert(lines_spec(q).push(line_of(last)) =~= lines_spec(ms));
    }
}

proof fn lemma_records_of_lines(ms: Seq<MeasurementModel>)
    requires
        forall|i: int| 0 <= i < ms.len() ==> storable(#[trigger] ms[i]),
    ensures
        records_of_lines(lines_spec(ms)) == ms,
    decreases ms.len(),
{
    if ms.len() > 0 {
        let q = ms.drop_last();
        let last = ms.last();
        assert(storable(last)) by {
            assert(last == ms[ms.len() - 1]);
        }
        assert forall|i: int| 0 <= i < q.len() implies storable(#[trigger] q[i]) by {
            assert(q[i] == ms[i]);
        }
        lemma_records_of_lines(q);
        assert(lines_spec(ms).drop_last() =~= lines_spec(q));
        assert(lines_spec(ms).last() == line_of(last));
        lemma_line_not_blank(last);
        lemma_record_of_line(last);
        assert(q.push(last) =~= ms);
    } else {
        assert(records_of_lines(lines_spec(ms)) =~= ms);
    }
}

/// Reading back what `serialize_multiple` wrote gives the same measurements,
/// in the same order, when each of them is storable.
pub proof fn lemma_deserialize_serialize_all(ms: Seq<MeasurementModel>)
    requires
        forall|i: int| 0 <= i < ms.len() ==> storable(#[trigger] ms[i]),
    ensures
        deserialize_spec(serialize_all_spec(ms)) == ms,
{
    let t = serialize_all_spec(ms);
    lemma_split_concat(ms, Seq::<char>::empty());
    assert(t + Seq::<char>::empty() =~= t);
    let parts = split_on(t, '\n');
    let ls = lines_spec(ms);
    assert(parts == ls.push(Seq::<char>::empty()));
    assert(parts.take(parts.len() - 1) =~= ls);
    assert forall|i: int| 0 <= i < ls.len() implies strip_cr(#[trigger] ls[i]) == ls[i] by {
        assert(storable(ms[i]));
        assert(ls[i] == line_of(ms[i]));
    }
    assert(ls.map_values(|p: Seq<char>| strip_cr(p)) =~= ls);
    assert(lines_of(t) == ls);
    lemma_records_of_lines(ms);
}

/// Reading back the line that `serialize_single` wrote with the notes
/// separator gives exactly the measurement, when it is storable.
pub proof fn lemma_deserialize_serialize_single(m: MeasurementModel)
    requires
        storable(m),
    ensures
        deserialize_spec(serialize_spec(m, seq![delim_char()])) == seq![m],
{
    let ms = seq![m];
    assert(ms.drop_last() =~= Seq::<MeasurementModel>::empty());
    assert(ms.last() == m);
    assert(serialize_all_spec(Seq::<MeasurementModel>::empty()) == Seq::<char>::empty());
    assert(serialize_all_spec(ms) == serialize_all_spec(ms.drop_last()) + serialize_spec(ms.last(), seq![delim_char()]));
    assert(serialize_all_spec(ms) =~= serialize_spec(m, seq![delim_char()]));
    lemma_deserialize_serialize_all(ms);
}

/// A text without the separator, a newline or a carriage return.
pub open spec fn plain_text(s: Seq<char>) -> bool {
    !s.contains(delim_char()) && !s.contains('\n') && !s.contains('\r')
}

/// A measurement whose parts can be written as they are: a non-empty name;
/// name, timestamp, value, keys and values without separator or line
/// breaks; timestamp and value the texts of numbers; unique keys without `=`.
pub open spec fn plain_measurement(m: MeasurementModel) -> bool {
    &&& m.name.len() > 0
    &&& plain_text(m.name)
    &&& plain_text(m.timestamp)
    &&& plain_text(m.val)
    &&& float_text(m.timestamp)
    &&& float_text(m.val)
    &&& kv_unique(m.key_values)
    &&& forall|i: int|
        0 <= i < m.key_values.len() ==> {
            let kv = #[trigger] m.key_values[i];
            &&& !kv.0.contains('=')
            &&& plain_text(kv.0)
            &&& plain_text(kv.1)
        }
}

proof fn lemma_float_text_nonempty(s: Seq<char>)
    requires
        float_text(s),
    ensures
        s.len() > 0,
{
    reveal_strlit("inf");
    reveal_strlit("infinity");
    reveal_strlit("nan");
    if s.len() == 0 {
        assert(crate::num::unsigned_part(s) =~= s);
    }
}

proof fn lemma_join_last(parts: Seq<Seq<char>>, sep: Seq<char>)
    requires
        parts.len() >= 1,
        parts.last().len() > 0,
    ensures
        join(parts, sep).len() > 0,
        join(parts, sep).last() == parts.last().last(),
{
    if parts.len() > 1 {
        let j = join(parts.drop_last(), sep) + sep + parts.last();
        assert(j.last() == parts.last().last());
    }
}

/// A plain measurement is stored so that it is read back unchanged.
pub proof fn lemma_plain_storable(m: MeasurementModel)
    requires
        plain_measurement(m),
    ensures
        storable(m),
{
    lemma_float_text_nonempty(m.timestamp);
    lemma_float_text_nonempty(m.val);
    let fields = record_fields(m);
    let n = m.key_values.len();
    if n == 0 {
        assert(fields.last() == m.val);
        assert(m.val.contains(m.val.last()));
    } else {
        let kv = m.key_values[n - 1];
        assert(fields.last() == kv_field(kv));
        let f = kv_field(kv);
        if kv.1.len() > 0 {
            assert(f.last() == kv.1.last());
            assert(kv.1.contains(kv.1.last()));
        } else {
            assert(f.last() == '=');
        }
    }
    lemma_join_last(fields, seq![delim_char()]);
}

/// Reading back what `serialize_single` wrote with the notes separator
/// gives exactly the measurement, for every plain measurement.
pub proof fn lemma_plain_round_trip(m: MeasurementModel)
    requires
        plain_measurement(m),
    ensures
        deserialize_spec(serialize_spec(m, seq![delim_char()])) == seq![m],
{
    lemma_plain_storable(m);
    lemma_deserialize_serialize_single(m);
}

} // verus!
