//! How a study of a measurement's noise groups the values of one commit:
//! by the runner instance that a key names, where at least two instances
//! tagged their values, else value by value.
use vstd::prelude::*;
use crate::data::{MeasurementData, MeasurementModel, kv_get, kv_lookup};
use crate::text::{copy_str, eq_str, strs};

verus! {

/// The models of a list of measurements.
pub open spec fn study_models(ms: Seq<MeasurementData>) -> Seq<MeasurementModel> {
    ms.map_values(|m: MeasurementData| m@)
}

/// The value of `key` in a measurement, empty where it has none.
pub open spec fn key_of(m: MeasurementModel, key: Seq<char>) -> Seq<char> {
    match kv_get(m.key_values, key) {
        Some(v) => v,
        None => Seq::empty(),
    }
}

/// The positions of the measurements named `name`, in order.
pub open spec fn named_positions(ms: Seq<MeasurementModel>, name: Seq<char>) -> Seq<int>
    decreases ms.len(),
{
    if ms.len() == 0 {
        Seq::empty()
    } else {
        let prev = named_positions(ms.drop_last(), name);
        if ms.last().name == name {
            prev.push(ms.len() - 1)
        } else {
            prev
        }
    }
}

/// The distinct non-empty values of `key` among the measurements named
/// `name`, in the order of their first appearance.
pub open spec fn group_values(ms: Seq<MeasurementModel>, name: Seq<char>, key: Seq<char>) -> Seq<Seq<char>>
    decreases ms.len(),
{
    if ms.len() == 0 {
        Seq::empty()
    } else {
        let prev = group_values(ms.drop_last(), name, key);
        let v = key_of(ms.last(), key);
        if ms.last().name == name && v.len() > 0 && !prev.contains(v) {
            prev.push(v)
        } else {
            prev
        }
    }
}

/// The positions of the measurements named `name` whose value of `key` is
/// `v`, in order.
pub open spec fn members_with(ms: Seq<MeasurementModel>, name: Seq<char>, key: Seq<char>, v: Seq<char>) -> Seq<int>
    decreases ms.len(),
{
    if ms.len() == 0 {
        Seq::empty()
    } else {
        let prev = members_with(ms.drop_last(), name, key, v);
        if ms.last().name == name && key_of(ms.last(), key) == v {
            prev.push(ms.len() - 1)
        } else {
            prev
        }
    }
}

/// Positions as integers.
pub open spec fn as_ints(v: Seq<usize>) -> Seq<int> {
    v.map_values(|j: usize| j as int)
}

/// The groups of a study: each group lists positions in the commit's
/// measurements.
#[derive(Debug, Clone)]
pub struct StudyGroups {
    /// Whether the values were grouped by the key (at least two instances).
    pub grouped_by_key: bool,
    /// The number of values of the measurement.
    pub total_raw: usize,
    pub groups: Vec<Vec<usize>>,
}

fn key_value_of(m: &MeasurementData, key: &str) -> (r: String)
    ensures
        r@ == key_of(m@, key@),
{
    let k = copy_str(key);
    match kv_lookup(&m.key_values, &k) {
        Some(i) => copy_str(m.key_values[i].1.as_str()),
        None => {
            let e = copy_str("");
            proof {
                reveal_strlit("");
            }
            e
        },
    }
}

fn named_in(ms: &[MeasurementData], name: &str) -> (r: Vec<usize>)
    ensures
        as_ints(r@) == named_positions(study_models(ms@), name@),
{
    let ghost all = study_models(ms@);
    let mut out: Vec<usize> = Vec::new();
    let mut i: usize = 0;
    while i < ms.len()
        invariant
            i <= ms@.len(),
            all == study_models(ms@),
            as_ints(out@) == named_positions(all.take(i as int), name@),
        decreases ms@.len() - i,
    {
        proof {
            assert(all.take(i + 1).drop_last() =~= all.take(i as int));
            assert(all.take(i + 1).last() == ms@[i as int]@);
        }
        if eq_str(ms[i].name.as_str(), name) {
            out.push(i);
            assert(as_ints(out@) =~= named_positions(all.take(i + 1), name@));
        } else {
            assert(as_ints(out@) =~= named_positions(all.take(i + 1), name@));
        }
        i = i + 1;
    }
    assert(all.take(ms@.len() as int) =~= all);
    out
}

fn members_of(ms: &[MeasurementData], name: &str, key: &str, v: &str) -> (r: Vec<usize>)
    ensures
        as_ints(r@) == members_with(study_models(ms@), name@, key@, v@),
{
    let ghost all = study_models(ms@);
    let mut out: Vec<usize> = Vec::new();
    let mut i: usize = 0;
    while i < ms.len()
        invariant
            i <= ms@.len(),
            all == study_models(ms@),
            as_ints(out@) == members_with(all.take(i as int), name@, key@, v@),
        decreases ms@.len() - i,
    {
        proof {
            assert(all.take(i + 1).drop_last() =~= all.take(i as int));
            assert(all.take(i + 1).last() == ms@[i as int]@);
        }
        let kv = key_value_of(&ms[i], key);
        if eq_str(ms[i].name.as_str(), name) && eq_str(kv.as_str(), v) {
            out.push(i);
            assert(as_ints(out@) =~= members_with(all.take(i + 1), name@, key@, v@));
        } else {
            assert(as_ints(out@) =~= members_with(all.take(i + 1), name@, key@, v@));
        }
        i = i + 1;
    }
    assert(all.take(ms@.len() as int) =~= all);
    out
}

fn contains_string(v: &Vec<String>, s: &str) -> (b: bool)
    ensures
        b == strs(v@).contains(s@),
{
    let mut i: usize = 0;
    while i < v.len()
        invariant
            i <= v@.len(),
            forall|j: int| 0 <= j < i ==> v@[j]@ != s@,
        decreases v@.len() - i,
    {
        if eq_str(v[i].as_str(), s) {
            assert(strs(v@)[i as int] == s@);
            return true;
        }
        i = i + 1;
    }
    proof {
        if strs(v@).contains(s@) {
            let j = choose|j: int| 0 <= j < strs(v@).len() && strs(v@)[j] == s@;
            assert(v@[j]@ == s@);
        }
    }
    false
}

fn values_in(ms: &[MeasurementData], name: &str, key: &str) -> (r: Vec<String>)
    ensures
        strs(r@) == group_values(study_models(ms@), name@, key@),
{
    let ghost all = study_models(ms@);
    let mut out: Vec<String> = Vec::new();
    let mut i: usize = 0;
    while i < ms.len()
        invariant
            i <= ms@.len(),
            all == study_models(ms@),
            strs(out@) == group_values(all.take(i as int), name@, key@),
        decreases ms@.len() - i,
    {
        proof {
            assert(all.take(i + 1).drop_last() =~= all.take(i as int));
            assert(all.take(i + 1).last() == ms@[i as int]@);
        }
        let kv = key_value_of(&ms[i], key);
        proof {
            reveal_strlit("");
            assert(all[i as int] == ms@[i as int]@);
            assert(kv@ == key_of(all[i as int], key@));
            assert(""@ =~= Seq::<char>::empty());
        }
        let named = eq_str(ms[i].name.as_str(), name);
        let empty = eq_str(kv.as_str(), "");
        let seen = contains_string(&out, kv.as_str());
        let ghost prev = strs(out@);
        proof {
            let t = all.take(i + 1);
            assert(t.len() > 0);
            assert(t.last() == all[i as int]);
            assert(group_values(t, name@, key@) == if t.last().name == name@ && key_of(t.last(), key@).len() > 0
                && !group_values(t.drop_last(), name@, key@).contains(key_of(t.last(), key@)) {
                group_values(t.drop_last(), name@, key@).push(key_of(t.last(), key@))
            } else {
                group_values(t.drop_last(), name@, key@)
            });
            assert(named == (all[i as int].name == name@));
            if kv@.len() == 0 {
                assert(kv@ =~= ""@);
            }
            assert(empty == (kv@.len() == 0));
        }
        if named && !empty && !seen {
            out.push(kv);
            assert(strs(out@) =~= prev.push(key_of(all[i as int], key@)));
        }
        assert(strs(out@) =~= group_values(all.take(i + 1), name@, key@));
        i = i + 1;
    }
    assert(all.take(ms@.len() as int) =~= all);
    out
}

/// Groups the values of `name` among the measurements of one commit: by
/// the value of `key`, in the order of first appearance, where at least two
/// values of the key occur; else each value alone.
pub fn study_groups(measurements: &[MeasurementData], name: &str, key: &str) -> (r: StudyGroups)
    ensures
        ({
            let ms = study_models(measurements@);
            let vals = group_values(ms, name@, key@);
            let sel = named_positions(ms, name@);
            &&& r.total_raw == sel.len()
            &&& r.grouped_by_key == (vals.len() >= 2)
            &&& r.grouped_by_key ==> r.groups@.len() == vals.len() && forall|g: int|
                0 <= g < vals.len() ==> as_ints(#[trigger] r.groups@[g]@) == members_with(ms, name@, key@, vals[g])
            &&& !r.grouped_by_key ==> r.groups@.len() == sel.len() && forall|g: int|
                0 <= g < sel.len() ==> as_ints(#[trigger] r.groups@[g]@) == seq![sel[g]]
        }),
{
    let ghost ms = study_models(measurements@);
    let sel = named_in(measurements, name);
    let vals = values_in(measurements, name, key);
    assert(sel@.len() == as_ints(sel@).len());
    assert(vals@.len() == strs(vals@).len());
    let mut groups: Vec<Vec<usize>> = Vec::new();
    if vals.len() >= 2 {
        let mut g: usize = 0;
        while g < vals.len()
            invariant
                g <= vals@.len(),
                strs(vals@) == group_values(ms, name@, key@),
                ms == study_models(measurements@),
                groups@.len() == g,
                forall|h: int|
                    0 <= h < g ==> as_ints(#[trigger] groups@[h]@) == members_with(
                        ms,
                        name@,
                        key@,
                        group_values(ms, name@, key@)[h],
                    ),
            decreases vals@.len() - g,
        {
            let members = members_of(measurements, name, key, vals[g].as_str());
            assert(strs(vals@)[g as int] == vals@[g as int]@);
            groups.push(members);
            g = g + 1;
        }
        StudyGroups { grouped_by_key: true, total_raw: sel.len(), groups }
    } else {
        let mut k: usize = 0;
        while k < sel.len()
            invariant
                k <= sel@.len(),
                as_ints(sel@) == named_positions(ms, name@),
                groups@.len() == k,
                forall|h: int| 0 <= h < k ==> as_ints(#[trigger] groups@[h]@) == seq![as_ints(sel@)[h]],
            decreases sel@.len() - k,
        {
            let mut one: Vec<usize> = Vec::new();
            one.push(sel[k]);
            assert(as_ints(one@) =~= seq![as_ints(sel@)[k as int]]);
            groups.push(one);
            k = k + 1;
        }
        StudyGroups { grouped_by_key: false, total_raw: sel.len(), groups }
    }
}

} // verus!
