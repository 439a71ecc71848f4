use git_perf::cli::{parse_key_value, parse_spaceless_string, CliParseError};
use git_perf::data::MeasurementData;
use git_perf::filter::FilterError;
use git_perf::import::{assign_epochs, filter_imported, import_listing};
use git_perf::measurement_storage::{measurements_for_values, note_for_values};
use git_perf::serialization::deserialize;

fn m(epoch: u32, name: &str, val: &str, kvs: &[(&str, &str)]) -> MeasurementData {
    MeasurementData {
        epoch,
        name: name.to_string(),
        timestamp: "100".to_string(),
        val: val.to_string(),
        key_values: kvs.iter().map(|(k, v)| (k.to_string(), v.to_string())).collect(),
    }
}

fn strings(items: &[&str]) -> Vec<String> {
    items.iter().map(|s| s.to_string()).collect()
}

#[test]
fn spaceless_strings_are_accepted_whole() {
    assert_eq!(parse_spaceless_string("abc"), Ok("abc".to_string()));
    assert_eq!(parse_spaceless_string("  abc "), Ok("  abc ".to_string()));
    assert_eq!(parse_spaceless_string("a b"), Err(CliParseError::Spaces("a b".to_string())));
}

#[test]
fn key_values_split_at_the_first_equals() {
    assert_eq!(parse_key_value("os=linux"), Ok(("os".to_string(), "linux".to_string())));
    assert_eq!(parse_key_value("a=b=c"), Ok(("a".to_string(), "b=c".to_string())));
    assert_eq!(parse_key_value("nokey"), Err(CliParseError::NoEquals("nokey".to_string())));
    assert_eq!(parse_key_value("my key=v"), Err(CliParseError::Spaces("my key".to_string())));
    assert_eq!(parse_key_value("k=my value"), Err(CliParseError::Spaces("my value".to_string())));
}

#[test]
fn import_filter_keeps_matching_names() {
    let names = strings(&["test::a", "bench::b", "test::c"]);
    assert_eq!(filter_imported(&names, None).unwrap(), vec![true, true, true]);
    assert_eq!(filter_imported(&names, Some("^test::")).unwrap(), vec![true, false, true]);
    assert!(matches!(filter_imported(&names, Some("(")), Err(FilterError::InvalidPattern(p)) if p == "("));
}

#[test]
fn epochs_come_from_configuration_or_zero() {
    let ms = vec![m(7, "a", "1", &[]), m(7, "b", "2", &[])];
    let out = assign_epochs(ms, &[Some(0xab), None]);
    assert_eq!(out[0].epoch, 0xab);
    assert_eq!(out[1].epoch, 0);
    assert_eq!(out[1].name, "b");
}

#[test]
fn import_listing_shows_values_and_total() {
    let ms = vec![m(1, "test::a", "1500", &[("unit", "ns")])];
    assert_eq!(
        import_listing(&ms, false),
        "\nMeasurements to import:\n  test::a = 1500 (epoch: 1)\n\nTotal: 1 measurements\n"
    );
    assert_eq!(
        import_listing(&ms, true),
        "\nMeasurements to import:\n  test::a = 1500 (epoch: 1)\n    unit: ns\n\nTotal: 1 measurements\n"
    );
}

#[test]
fn added_values_share_name_time_and_key_values() {
    let kvs = vec![("os".to_string(), "linux".to_string()), ("os".to_string(), "mac".to_string())];
    let values = strings(&["1", "2.5"]);
    let ms = measurements_for_values(3, "build", "100", &values, &kvs);
    assert_eq!(ms.len(), 2);
    assert_eq!(ms[1].val, "2.5");
    assert_eq!(ms[1].epoch, 3);
    assert_eq!(ms[0].key_values, vec![("os".to_string(), "mac".to_string())]);
    let note = note_for_values(3, "build", "100", &values, &kvs);
    let back = deserialize(&note);
    assert_eq!(back.len(), 2);
    assert_eq!(back[0].name, "build");
    assert_eq!(back[1].val, "2.5");
}
