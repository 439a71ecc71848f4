use git_perf::data::{kv_set, MeasurementData};

fn measurement() -> MeasurementData {
    MeasurementData {
        epoch: 1,
        name: "test_measurement".to_string(),
        timestamp: "1234567890.0".to_string(),
        val: "42.0".to_string(),
        key_values: vec![
            ("env".to_string(), "production".to_string()),
            ("branch".to_string(), "main".to_string()),
            ("cpu".to_string(), "x64".to_string()),
        ],
    }
}

#[test]
fn test_matches_key_values() {
    let measurement = measurement();

    assert!(measurement.matches_key_values(&[]));
    assert!(measurement.matches_key_values(&[("env".to_string(), "production".to_string())]));
    assert!(measurement.matches_key_values(&[
        ("env".to_string(), "production".to_string()),
        ("branch".to_string(), "main".to_string()),
    ]));
    assert!(measurement.matches_key_values(&[
        ("env".to_string(), "production".to_string()),
        ("branch".to_string(), "main".to_string()),
        ("cpu".to_string(), "x64".to_string()),
    ]));
    assert!(!measurement.matches_key_values(&[("env".to_string(), "staging".to_string())]));
    assert!(!measurement.matches_key_values(&[("os".to_string(), "linux".to_string())]));
    assert!(!measurement.matches_key_values(&[
        ("env".to_string(), "production".to_string()),
        ("branch".to_string(), "develop".to_string()),
    ]));
}

#[test]
fn setting_a_key_replaces_in_place_and_appends_new_keys() {
    let mut kvs = vec![("a".to_string(), "1".to_string()), ("b".to_string(), "2".to_string())];
    kv_set(&mut kvs, "a".to_string(), "3".to_string());
    kv_set(&mut kvs, "c".to_string(), "4".to_string());
    assert_eq!(
        kvs,
        vec![
            ("a".to_string(), "3".to_string()),
            ("b".to_string(), "2".to_string()),
            ("c".to_string(), "4".to_string()),
        ]
    );
}
