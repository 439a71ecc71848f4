use git_perf::audit::{
    discover_matching_measurements, max_count_limits, resolve_dispersion_method,
    resolve_min_count, resolve_summarize_by, select_audit_measurements, skip_reason, AuditSelectionError,
};
use git_perf::data::{Commit, MeasurementData};
use git_perf::filter::{compile_filters, Filter};
use git_perf::measurement_retrieval::{audit_series, take_while_same_epoch, SeriesError};
use git_perf::stats::{DispersionMethod, ReductionFunc};

fn m(epoch: u32, name: &str, val: &str, os: &str) -> MeasurementData {
    MeasurementData {
        epoch,
        name: name.to_string(),
        timestamp: "1000.0".to_string(),
        val: val.to_string(),
        key_values: vec![("os".to_string(), os.to_string())],
    }
}

fn commit(id: &str, ms: Vec<MeasurementData>) -> Commit {
    Commit { commit: id.to_string(), title: String::new(), author: String::new(), measurements: ms }
}

fn sample() -> Vec<Commit> {
    vec![
        commit(
            "abc123",
            vec![
                m(0, "bench_cpu", "100.0", "linux"),
                m(0, "bench_memory", "200.0", "linux"),
                m(0, "test_unit", "50.0", "linux"),
            ],
        ),
        commit("def456", vec![m(0, "bench_cpu", "105.0", "mac"), m(0, "other_metric", "75.0", "linux")]),
    ]
}

fn filters(p: &[&str]) -> Vec<Filter> {
    let v: Vec<String> = p.iter().map(|s| s.to_string()).collect();
    compile_filters(&v).unwrap()
}

#[test]
fn test_discover_matching_measurements() {
    let commits = sample();
    let none: Vec<(String, String)> = vec![];

    let d = discover_matching_measurements(&commits, &filters(&["bench_.*"]), &none);
    assert_eq!(d, vec!["bench_cpu", "bench_memory"]);

    let d = discover_matching_measurements(&commits, &filters(&["bench_cpu", "test_.*"]), &none);
    assert_eq!(d.len(), 2);
    assert!(d.contains(&"bench_cpu".to_string()));
    assert!(d.contains(&"test_unit".to_string()));
    assert!(!d.contains(&"bench_memory".to_string()));

    let linux = vec![("os".to_string(), "linux".to_string())];
    let d = discover_matching_measurements(&commits, &filters(&["bench_.*"]), &linux);
    assert_eq!(d.len(), 2);
    assert!(d.contains(&"bench_cpu".to_string()));
    assert!(d.contains(&"bench_memory".to_string()));

    let d = discover_matching_measurements(&commits, &filters(&["nonexistent.*"]), &none);
    assert_eq!(d.len(), 0);

    let d = discover_matching_measurements(&commits, &[], &none);
    assert_eq!(d, vec!["bench_cpu", "bench_memory", "other_metric", "test_unit"]);

    let windows = vec![("os".to_string(), "windows".to_string())];
    let d = discover_matching_measurements(&commits, &filters(&["bench_.*"]), &windows);
    assert_eq!(d.len(), 0);

    let d = discover_matching_measurements(&commits, &filters(&["^bench_cpu$"]), &none);
    assert_eq!(d, vec!["bench_cpu"]);
}

#[test]
fn test_audit_multiple_with_no_measurements() {
    let none: Vec<(String, String)> = vec![];
    assert_eq!(
        select_audit_measurements(&[], &filters(&[".*"]), &none),
        Err(AuditSelectionError::NoCommitAtHead)
    );
    let empty = vec![commit("a", vec![])];
    assert_eq!(
        select_audit_measurements(&empty, &filters(&[".*"]), &none),
        Err(AuditSelectionError::NoMeasurementForHead)
    );
    assert_eq!(
        select_audit_measurements(&sample(), &filters(&["^nothing$"]), &none),
        Err(AuditSelectionError::NoMatchingMeasurements)
    );
    assert_eq!(
        select_audit_measurements(&sample(), &filters(&["^test_unit$"]), &none),
        Ok(vec!["test_unit".to_string()])
    );
}

#[test]
fn test_cli_overrides_config() {
    assert_eq!(resolve_min_count(Some(2), Some(10)), 2);
    assert_eq!(resolve_summarize_by(Some(ReductionFunc::Min), Some(ReductionFunc::Max)), ReductionFunc::Min);
    assert_eq!(
        resolve_dispersion_method(Some(DispersionMethod::StandardDeviation), DispersionMethod::MedianAbsoluteDeviation),
        DispersionMethod::StandardDeviation
    );
}

#[test]
fn test_config_overrides_defaults() {
    assert_eq!(resolve_min_count(None, Some(10)), 10);
    assert_eq!(resolve_summarize_by(None, Some(ReductionFunc::Max)), ReductionFunc::Max);
    assert_eq!(
        resolve_dispersion_method(None, DispersionMethod::MedianAbsoluteDeviation),
        DispersionMethod::MedianAbsoluteDeviation
    );
}

#[test]
fn test_uses_defaults_when_no_config_or_cli() {
    assert_eq!(resolve_min_count(None, None), 2);
    assert_eq!(resolve_summarize_by(None, None), ReductionFunc::Min);
    assert_eq!(
        resolve_dispersion_method(None, DispersionMethod::StandardDeviation),
        DispersionMethod::StandardDeviation
    );
}

#[test]
fn max_count_is_compared_as_u16() {
    assert!(max_count_limits(1, 2));
    assert!(!max_count_limits(2, 2));
    assert!(max_count_limits(65536, 2));
}

#[test]
fn series_stops_at_an_epoch_change() {
    assert_eq!(take_while_same_epoch(&[]), 0);
    assert_eq!(take_while_same_epoch(&[Some(1), None, Some(1), Some(2), Some(1)]), 3);
    assert_eq!(take_while_same_epoch(&[None, None, Some(4), Some(4)]), 4);
}

#[test]
fn audit_series_collects_head_and_tail() {
    let none: Vec<(String, String)> = vec![];
    let commits = vec![
        commit("c3", vec![m(1, "x", "3.0", "l"), m(1, "x", "3.5", "l")]),
        commit("c2", vec![m(1, "y", "9.0", "l")]),
        commit("c1", vec![m(1, "x", "2.0", "l")]),
        commit("c0", vec![m(0, "x", "1.0", "l")]),
    ];
    let (head, tail) = audit_series(&commits, "x", &none).unwrap();
    assert_eq!(head, vec!["3.0", "3.5"]);
    assert_eq!(tail, vec![vec!["2.0".to_string()]]);

    assert_eq!(audit_series(&[], "x", &none).unwrap_err(), SeriesError::NoCommitAtHead);
    assert_eq!(audit_series(&commits[1..], "x", &none).unwrap_err(), SeriesError::NoMeasurementForHead);
}

#[test]
fn skip_reason_only_below_the_minimum_with_plural() {
    assert_eq!(
        skip_reason(1, 5).as_deref(),
        Some("Only 1 historical measurement found. Less than requested min_measurements of 5. Skipping test.")
    );
    assert_eq!(
        skip_reason(0, 2).as_deref(),
        Some("Only 0 historical measurements found. Less than requested min_measurements of 2. Skipping test.")
    );
    assert_eq!(skip_reason(5, 5), None);
    assert_eq!(skip_reason(7, 5), None);
}
