//! What is written to the notes when measurements are added.
use vstd::prelude::*;
use crate::converters::{kv_insert_all, kv_set_all};
use crate::data::{KeyValue, MeasurementData, MeasurementModel, kv_unique, kv_view};
use crate::serialization::{serialize_all_spec, serialize_multiple};
use crate::text::{copy_str, strs};

verus! {

/// The measurements added in one go: one per value, all with the same
/// epoch, name, timestamp and key-values (a later pair overriding an
/// earlier one with the same key).
pub open spec fn measurements_spec(
    epoch: u32,
    name: Seq<char>,
    timestamp: Seq<char>,
    values: Seq<Seq<char>>,
    key_values: Seq<KeyValue>,
) -> Seq<MeasurementModel> {
    values.map_values(
        |v: Seq<char>|
            MeasurementModel {
                epoch,
                name,
                timestamp,
                val: v,
                key_values: kv_insert_all(Seq::empty(), key_values),
            },
    )
}

/// Builds the measurements for `values`, given as the decimal texts that
/// are stored.
pub fn measurements_for_values(
    epoch: u32,
    name: &str,
    timestamp: &str,
    values: &[String],
    key_values: &[(String, String)],
) -> (r: Vec<MeasurementData>)
    ensures
        r@.map_values(|m: MeasurementData| m@) == measurements_spec(
            epoch,
            name@,
            timestamp@,
            strs(values@),
            kv_view(key_values@),
        ),
{
    let ghost spec = measurements_spec(epoch, name@, timestamp@, strs(values@), kv_view(key_values@));
    let mut out: Vec<MeasurementData> = Vec::new();
    let mut i: usize = 0;
    while i < values.len()
        invariant
            i <= values@.len(),
            spec == measurements_spec(epoch, name@, timestamp@, strs(values@), kv_view(key_values@)),
            out@.len() == i,
            forall|k: int| 0 <= k < i ==> (#[trigger] out@[k])@ == spec[k],
        decreases values@.len() - i,
    {
        let mut kvs: Vec<(String, String)> = Vec::new();
        proof {
            assert(kv_view(kvs@) =~= Seq::<KeyValue>::empty());
        }
        kv_set_all(&mut kvs, key_values);
        out.push(
            MeasurementData {
                epoch,
                name: copy_str(name),
                timestamp: copy_str(timestamp),
                val: copy_str(values[i].as_str()),
                key_values: kvs,
            },
        );
        proof {
            assert(out@[i as int]@ == spec[i as int]);
        }
        i = i + 1;
    }
    proof {
        assert(out@.map_values(|m: MeasurementData| m@) =~= spec);
    }
    out
}

/// The note line written for measurements added in one go.
pub fn note_for_values(
    epoch: u32,
    name: &str,
    timestamp: &str,
    values: &[String],
    key_values: &[(String, String)],
) -> (r: String)
    ensures
        r@ == serialize_all_spec(
            measurements_spec(epoch, name@, timestamp@, strs(values@), kv_view(key_values@)),
        ),
{
    let ms = measurements_for_values(epoch, name, timestamp, values, key_values);
    serialize_multiple(ms.as_slice())
}

} // verus!
