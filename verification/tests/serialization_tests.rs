use git_perf::data::MeasurementData;
use git_perf::serialization::{deserialize, serialize_multiple, serialize_single, DELIMITER};

fn md(epoch: u32, name: &str, ts: &str, val: &str, kvs: &[(&str, &str)]) -> MeasurementData {
    MeasurementData {
        epoch,
        name: name.to_string(),
        timestamp: ts.to_string(),
        val: val.to_string(),
        key_values: kvs.iter().map(|(k, v)| (k.to_string(), v.to_string())).collect(),
    }
}

fn num(s: &str) -> f64 {
    s.parse::<f64>().unwrap()
}

#[test]
fn key_value_deserialization() {
    let lines = "0\u{1c}test\u{1c}1234\u{1c}123\u{1c}key1=value1\u{1c}key2=value2";
    let actual = deserialize(lines);
    assert_eq!(actual.len(), 1);
    assert_eq!(actual[0].epoch, 0);
    assert_eq!(actual[0].name, "test");
    assert_eq!(num(&actual[0].timestamp), 1234.0);
    assert_eq!(num(&actual[0].val), 123.0);
    assert_eq!(
        actual[0].key_values,
        vec![
            ("key1".to_string(), "value1".to_string()),
            ("key2".to_string(), "value2".to_string()),
        ]
    );
}

#[test]
fn key_value_invalid_pair() {
    let lines = "0\u{1c}test\u{1c}1234\u{1c}123\u{1c}key1value1\n\
                 0\u{1c}test2\u{1c}4567\u{1c}890\u{1c}key2=value2";
    let actual = deserialize(lines);
    assert_eq!(actual.len(), 1);
    assert_eq!(actual[0].epoch, 0);
    assert_eq!(actual[0].name, "test2");
    assert_eq!(num(&actual[0].timestamp), 4567.0);
    assert_eq!(num(&actual[0].val), 890.0);
    assert_eq!(actual[0].key_values, vec![("key2".to_string(), "value2".to_string())]);
}

#[test]
fn additional_whitespace_deserialization() {
    let lines = "0\u{1c}test\u{1c}1234\u{1c}123\u{1c}\u{1c}";
    let actual = deserialize(lines);
    assert_eq!(1, actual.len());
}

#[test]
fn test_serialize_single() {
    let m = md(3, "Mymeasurement", "1234567.0", "42.0", &[("mykey", "myvalue")]);
    let serialized = serialize_single(&m, DELIMITER);
    assert_eq!(serialized, "3\u{1c}Mymeasurement\u{1c}1234567.0\u{1c}42.0\u{1c}mykey=myvalue\n");
}

#[test]
fn test_epoch_parsing() {
    let valid = deserialize("42\u{1c}test\u{1c}1234\u{1c}123");
    assert_eq!(valid.len(), 1);
    assert_eq!(valid[0].epoch, 42);

    let invalid = deserialize("not_a_number\u{1c}test\u{1c}1234\u{1c}123");
    assert!(invalid.is_empty());

    let out_of_range = deserialize("4294967296\u{1c}test\u{1c}1234\u{1c}123");
    assert!(out_of_range.is_empty());
}

#[test]
fn test_serialize_multiple_empty() {
    let measurements: Vec<MeasurementData> = vec![];
    assert_eq!(serialize_multiple(&measurements), "");
}

#[test]
fn test_serialize_multiple_single() {
    let m = md(1, "test", "1000.0", "5.0", &[]);
    let serialized = serialize_multiple(&[m]);
    let expected = format!("1{}test{}1000.0{}5.0\n", DELIMITER, DELIMITER, DELIMITER);
    assert_eq!(serialized, expected);
}

#[test]
fn test_serialize_multiple_multiple() {
    let m1 = md(1, "test1", "1000.0", "5.0", &[]);
    let m2 = md(2, "test2", "2000.0", "10.0", &[]);
    let serialized = serialize_multiple(&[m1, m2]);
    let expected = format!(
        "1{}test1{}1000.0{}5.0\n2{}test2{}2000.0{}10.0\n",
        DELIMITER, DELIMITER, DELIMITER, DELIMITER, DELIMITER, DELIMITER
    );
    assert_eq!(serialized, expected);
}

#[test]
fn test_deserialize_single_exactly_four_components() {
    let line = format!("5{}measurement{}1234.5{}67.8", DELIMITER, DELIMITER, DELIMITER);
    let result = deserialize(&line);
    assert_eq!(result.len(), 1);
    let m = &result[0];
    assert_eq!(m.epoch, 5);
    assert_eq!(m.name, "measurement");
    assert_eq!(num(&m.timestamp), 1234.5);
    assert_eq!(num(&m.val), 67.8);
    assert!(m.key_values.is_empty());
}

#[test]
fn test_deserialize_single_more_than_four_components() {
    let line = format!("0{}test{}1234{}123{}foo=bar", DELIMITER, DELIMITER, DELIMITER, DELIMITER);
    let result = deserialize(&line);
    assert_eq!(result.len(), 1);
    assert_eq!(result[0].key_values.len(), 1);
    assert_eq!(result[0].key_values[0], ("foo".to_string(), "bar".to_string()));
}

#[test]
fn test_deserialize_serialize_roundtrip() {
    let original = md(10, "roundtrip_test", "9999.5", "42.42", &[("key1", "value1"), ("key2", "value2")]);

    let serialized = serialize_single(&original, DELIMITER);
    let deserialized_vec = deserialize(&serialized);

    assert_eq!(deserialized_vec.len(), 1);
    let d = &deserialized_vec[0];
    assert_eq!(d.epoch, original.epoch);
    assert_eq!(d.name, original.name);
    assert_eq!(num(&d.timestamp), 9999.5);
    assert_eq!(num(&d.val), 42.42);
    assert_eq!(d.key_values, original.key_values);
}

#[test]
fn test_deserialize_multiple_lines() {
    let lines = format!(
        "1{}test1{}1000.0{}5.0{}key1=val1\n2{}test2{}2000.0{}10.0{}key2=val2\n",
        DELIMITER, DELIMITER, DELIMITER, DELIMITER, DELIMITER, DELIMITER, DELIMITER, DELIMITER
    );
    let results = deserialize(&lines);
    assert_eq!(results.len(), 2);
    assert_eq!(results[0].name, "test1");
    assert_eq!(results[1].name, "test2");
}

#[test]
fn test_serialize_single_with_custom_delimiter() {
    let m = md(0, "test", "100.0", "50.0", &[("k", "v")]);
    let serialized = serialize_single(&m, ",");
    assert_eq!(serialized, "0,test,100.0,50.0,k=v\n");
}

#[test]
fn records_with_values_that_are_not_numbers_are_skipped() {
    let lines = "0\u{1c}a\u{1c}12x\u{1c}1\n0\u{1c}b\u{1c}1\u{1c}--1\n0\u{1c}c\u{1c}1e5\u{1c}-inf\n0\u{1c}d\u{1c}.5\u{1c}NaN";
    let r = deserialize(lines);
    let names: Vec<&str> = r.iter().map(|m| m.name.as_str()).collect();
    assert_eq!(names, vec!["c", "d"]);
    for m in &r {
        assert!(m.timestamp.parse::<f64>().is_ok());
        assert!(m.val.parse::<f64>().is_ok());
    }
}

#[test]
fn a_later_duplicate_key_wins() {
    let r = deserialize("0\u{1c}a\u{1c}1\u{1c}2\u{1c}k=1\u{1c}j=2\u{1c}k=3");
    assert_eq!(
        r[0].key_values,
        vec![("k".to_string(), "3".to_string()), ("j".to_string(), "2".to_string())]
    );
}

#[test]
fn blank_lines_and_carriage_returns() {
    let r = deserialize("\n   \n0\u{1c}a\u{1c}1\u{1c}2\r\n");
    assert_eq!(r.len(), 1);
    assert_eq!(r[0].val, "2");
}
