use git_perf::parsers::parse_benchmark_id;
use git_perf::reporting::{format_measurement_with_unit, wrap_patterns_for_regex};

#[test]
fn test_parse_benchmark_id_three_parts() {
    let (group, name, input) = parse_benchmark_id("add_measurements/add_measurement/50");
    assert_eq!(group, Some("add_measurements".to_string()));
    assert_eq!(name, Some("add_measurement".to_string()));
    assert_eq!(input, Some("50".to_string()));
}

#[test]
fn test_parse_benchmark_id_two_parts() {
    let (group, name, input) = parse_benchmark_id("fibonacci/fib_10");
    assert_eq!(group, Some("fibonacci".to_string()));
    assert_eq!(name, Some("fib_10".to_string()));
    assert_eq!(input, None);
}

#[test]
fn test_parse_benchmark_id_one_part() {
    let (group, name, input) = parse_benchmark_id("simple_bench");
    assert_eq!(group, None);
    assert_eq!(name, Some("simple_bench".to_string()));
    assert_eq!(input, None);
}

#[test]
fn benchmark_id_input_keeps_further_slashes() {
    let (_, _, input) = parse_benchmark_id("g/n/a/b");
    assert_eq!(input, Some("a/b".to_string()));
}

#[test]
fn test_format_measurement_with_unit_no_unit() {
    let result = format_measurement_with_unit("unknown_measurement", None);
    assert_eq!(result, "unknown_measurement");
}

#[test]
fn format_measurement_with_configured_unit() {
    assert_eq!(format_measurement_with_unit("build_time", Some("ms")), "build_time (ms)");
}

#[test]
fn test_wrap_patterns_for_regex_empty() {
    let patterns: Vec<String> = vec![];
    assert_eq!(wrap_patterns_for_regex(&patterns), None);
}

#[test]
fn test_wrap_patterns_for_regex_single() {
    let patterns = vec!["test.*".to_string()];
    assert_eq!(wrap_patterns_for_regex(&patterns), Some("(?:test.*)".to_string()));
}

#[test]
fn test_wrap_patterns_for_regex_multiple() {
    let patterns = vec!["test.*".to_string(), "bench.*".to_string()];
    assert_eq!(wrap_patterns_for_regex(&patterns), Some("(?:test.*)|(?:bench.*)".to_string()));
}

#[test]
fn test_wrap_patterns_for_regex_complex() {
    let patterns = vec!["^test-[0-9]+$".to_string(), "bench-(foo|bar)".to_string()];
    assert_eq!(
        wrap_patterns_for_regex(&patterns),
        Some("(?:^test-[0-9]+$)|(?:bench-(foo|bar))".to_string())
    );
}
