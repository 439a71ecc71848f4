use git_perf::converters::{
    convert_benchmark, convert_benchmark_unit, convert_test, format_measurement_name, kv_set_all,
    split_bench_id, validate_unit, ConversionOptions, UnitCheck,
};
use git_perf::data::MeasurementData;
use git_perf::parsers::{TestMeasurement, TestStatus};

fn options() -> ConversionOptions {
    ConversionOptions { prefix: None, extra_metadata: Vec::new(), epoch: 0, timestamp: "0".to_string() }
}

fn get<'a>(m: &'a MeasurementData, key: &str) -> Option<&'a str> {
    m.key_values.iter().find(|(k, _)| k == key).map(|(_, v)| v.as_str())
}

/// The stored text of a test's run time: its nanoseconds as a float.
fn run_time_text(t: &TestMeasurement) -> String {
    format!("{:?}", t.duration_ns.unwrap_or(0) as f64)
}

fn pairs(items: &[(&str, &str)]) -> Vec<(String, String)> {
    items.iter().map(|(k, v)| (k.to_string(), v.to_string())).collect()
}

#[test]
fn test_format_measurement_name_no_prefix_no_suffix() {
    let name = format_measurement_name("test", "my_test", None, &options());
    assert_eq!(name, "test::my_test");
}

#[test]
fn test_format_measurement_name_with_prefix() {
    let mut o = options();
    o.prefix = Some("custom".to_string());
    assert_eq!(format_measurement_name("test", "my_test", None, &o), "custom::test::my_test");
}

#[test]
fn test_format_measurement_name_with_suffix() {
    assert_eq!(format_measurement_name("bench", "my_bench", Some("mean"), &options()), "bench::my_bench::mean");
}

#[test]
fn test_format_measurement_name_with_prefix_and_suffix() {
    let mut o = options();
    o.prefix = Some("perf".to_string());
    assert_eq!(
        format_measurement_name("bench", "my_bench", Some("median"), &o),
        "perf::bench::my_bench::median"
    );
}

#[test]
fn test_convert_test_with_duration() {
    let test = TestMeasurement {
        name: "test_one".to_string(),
        duration_ns: Some(1_500_000_000),
        status: TestStatus::Passed,
        metadata: pairs(&[("classname", "module::tests")]),
    };
    let o = ConversionOptions { epoch: 1, timestamp: "1234567890.0".to_string(), ..options() };
    let result = convert_test(&test, &run_time_text(&test), &o);
    assert_eq!(result.len(), 1);
    let m = &result[0];
    assert_eq!(m.name, "test::test_one");
    assert_eq!(m.val.parse::<f64>().unwrap(), 1_500_000_000.0);
    assert_eq!(m.val, "1500000000.0");
    assert_eq!(m.epoch, 1);
    assert_eq!(m.timestamp.parse::<f64>().unwrap(), 1234567890.0);
    assert_eq!(get(m, "type"), Some("test"));
    assert_eq!(get(m, "status"), Some("passed"));
    assert_eq!(get(m, "unit"), Some("ns"));
    assert_eq!(get(m, "classname"), Some("module::tests"));
}

#[test]
fn test_convert_test_without_duration_is_skipped() {
    let test = TestMeasurement {
        name: "test_skipped".to_string(),
        duration_ns: None,
        status: TestStatus::Skipped,
        metadata: Vec::new(),
    };
    assert_eq!(convert_test(&test, &run_time_text(&test), &options()).len(), 0);
}

#[test]
fn test_convert_test_failed_without_duration_is_skipped() {
    let test = TestMeasurement {
        name: "test_failed".to_string(),
        duration_ns: None,
        status: TestStatus::Failed,
        metadata: Vec::new(),
    };
    assert_eq!(convert_test(&test, &run_time_text(&test), &options()).len(), 0);
}

#[test]
fn test_convert_test_with_extra_metadata() {
    let test = TestMeasurement {
        name: "test_ci".to_string(),
        duration_ns: Some(250_000_000),
        status: TestStatus::Passed,
        metadata: Vec::new(),
    };
    let o = ConversionOptions { extra_metadata: pairs(&[("ci", "true"), ("branch", "main")]), ..options() };
    let result = convert_test(&test, &run_time_text(&test), &o);
    assert_eq!(result.len(), 1);
    assert_eq!(get(&result[0], "ci"), Some("true"));
    assert_eq!(get(&result[0], "branch"), Some("main"));
    assert_eq!(get(&result[0], "unit"), Some("ns"));
    assert_eq!(result[0].val.parse::<f64>().unwrap(), 250_000_000.0);
}

#[test]
fn test_convert_benchmark_all_statistics_nanoseconds() {
    let stats = pairs(&[("mean", "15000"), ("median", "14500"), ("slope", "15200"), ("mad", "100")]);
    let o = ConversionOptions { epoch: 2, timestamp: "9876543210.0".to_string(), ..options() };
    let result = convert_benchmark("group/bench_name/100", &stats, "ns", &[], &o);
    assert_eq!(result.len(), 4);
    let mean = result.iter().find(|m| m.name == "bench::group/bench_name/100::mean").unwrap();
    assert_eq!(mean.val.parse::<f64>().unwrap(), 15000.0);
    assert_eq!(get(mean, "type"), Some("bench"));
    assert_eq!(get(mean, "group"), Some("group"));
    assert_eq!(get(mean, "bench_name"), Some("bench_name"));
    assert_eq!(get(mean, "input"), Some("100"));
    assert_eq!(get(mean, "statistic"), Some("mean"));
    assert_eq!(get(mean, "unit"), Some("ns"));
    let median = result.iter().find(|m| m.name == "bench::group/bench_name/100::median").unwrap();
    assert_eq!(median.val.parse::<f64>().unwrap(), 14500.0);
    assert_eq!(get(median, "statistic"), Some("median"));
    assert_eq!(get(median, "unit"), Some("ns"));
    assert_eq!(mean.epoch, 2);
}

#[test]
fn test_convert_benchmark_unit_conversion() {
    let (factor, unit) = convert_benchmark_unit("us");
    assert_eq!(15.5 * factor as f64, 15500.0);
    assert_eq!(unit, "ns");
    let (factor, unit) = convert_benchmark_unit("ms");
    assert_eq!(2.5 * factor as f64, 2_500_000.0);
    assert_eq!(unit, "ns");
    let (factor, unit) = convert_benchmark_unit("s");
    assert_eq!(1.5 * factor as f64, 1_500_000_000.0);
    assert_eq!(unit, "ns");
    let (factor, unit) = convert_benchmark_unit("ns");
    assert_eq!(1000.0 * factor as f64, 1000.0);
    assert_eq!(unit, "ns");
}

#[test]
fn benchmark_unit_keeps_other_units() {
    assert_eq!(convert_benchmark_unit("bytes"), (1, "bytes".to_string()));
    assert_eq!(convert_benchmark_unit("MS"), (1_000_000, "ns".to_string()));
}

#[test]
fn test_convert_benchmark_partial_statistics() {
    let stats = pairs(&[("mean", "10000"), ("slope", "10500")]);
    let result = convert_benchmark("group/bench_name", &stats, "ns", &[], &options());
    assert_eq!(result.len(), 2);
    assert!(result.iter().any(|m| m.name == "bench::group/bench_name::mean"));
    assert!(result.iter().any(|m| m.name == "bench::group/bench_name::slope"));
    assert!(result.iter().all(|m| get(m, "unit") == Some("ns")));
}

#[test]
fn test_convert_benchmark_no_input() {
    let stats = pairs(&[("mean", "5000")]);
    let result = convert_benchmark("my_group/my_bench", &stats, "ns", &[], &options());
    assert_eq!(result.len(), 1);
    let m = &result[0];
    assert_eq!(get(m, "group"), Some("my_group"));
    assert_eq!(get(m, "bench_name"), Some("my_bench"));
    assert_eq!(get(m, "input"), None);
    assert_eq!(get(m, "unit"), Some("ns"));
}

#[test]
fn bench_ids_split_on_slashes() {
    assert_eq!(split_bench_id("g/n"), ("g".to_string(), "n".to_string(), None));
    assert_eq!(split_bench_id("g/n/i"), ("g".to_string(), "n".to_string(), Some("i".to_string())));
    assert_eq!(split_bench_id("plain"), ("unknown".to_string(), "plain".to_string(), None));
}

#[test]
fn kv_set_all_replaces_values() {
    let mut kvs = pairs(&[("a", "1"), ("b", "2")]);
    kv_set_all(&mut kvs, &pairs(&[("b", "3"), ("c", "4")]));
    assert_eq!(kvs, pairs(&[("a", "1"), ("b", "3"), ("c", "4")]));
}

#[test]
fn units_are_validated_against_configuration() {
    assert_eq!(validate_unit("ns", Some("ns")), UnitCheck::Matches);
    assert_eq!(validate_unit("ns", Some("ms")), UnitCheck::Mismatch);
    assert_eq!(validate_unit("ns", None), UnitCheck::Unconfigured);
}

#[test]
fn test_convert_to_measurements_mixed() {
    let test = TestMeasurement {
        name: "test_one".to_string(),
        duration_ns: Some(100_000_000),
        status: TestStatus::Passed,
        metadata: Vec::new(),
    };
    let o = options();
    let mut result = convert_test(&test, &run_time_text(&test), &o);
    result.extend(convert_benchmark("group/bench", &pairs(&[("mean", "1000"), ("median", "900")]), "ns", &[], &o));
    assert_eq!(result.len(), 3);
    assert!(result.iter().any(|m| m.name == "test::test_one"));
    assert!(result.iter().any(|m| m.name == "bench::group/bench::mean"));
    assert!(result.iter().any(|m| m.name == "bench::group/bench::median"));
}

#[test]
fn test_convert_to_measurements_skips_tests_without_duration() {
    let passing = TestMeasurement {
        name: "test_passing".to_string(),
        duration_ns: Some(1_000_000_000),
        status: TestStatus::Passed,
        metadata: Vec::new(),
    };
    let failed = TestMeasurement {
        name: "test_failed".to_string(),
        duration_ns: None,
        status: TestStatus::Failed,
        metadata: Vec::new(),
    };
    let o = options();
    let mut result = convert_test(&passing, &run_time_text(&passing), &o);
    result.extend(convert_test(&failed, &run_time_text(&failed), &o));
    assert_eq!(result.len(), 1);
    assert_eq!(result[0].name, "test::test_passing");
    assert_eq!(result[0].val.parse::<f64>().unwrap(), 1_000_000_000.0);
    assert_eq!(get(&result[0], "unit"), Some("ns"));
}

#[test]
fn test_convert_with_prefix() {
    let test = TestMeasurement {
        name: "my_test".to_string(),
        duration_ns: Some(50_000_000),
        status: TestStatus::Passed,
        metadata: Vec::new(),
    };
    let o = ConversionOptions { prefix: Some("ci".to_string()), ..options() };
    let result = convert_test(&test, &run_time_text(&test), &o);
    assert_eq!(result[0].name, "ci::test::my_test");
    assert_eq!(result[0].val.parse::<f64>().unwrap(), 50_000_000.0);
}

#[test]
fn test_benchmark_preserves_unit() {
    let (factor, _) = convert_benchmark_unit("us");
    let value = (1500.0 * factor as f64).to_string();
    let result = convert_benchmark("group/bench", &pairs(&[("mean", value.as_str())]), "us", &[], &options());
    assert_eq!(result.len(), 1);
    assert_eq!(result[0].val.parse::<f64>().unwrap(), 1_500_000.0);
    assert_eq!(get(&result[0], "unit"), Some("ns"));
}
