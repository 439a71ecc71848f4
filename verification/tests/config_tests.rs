use git_perf::config::{
    audit_aggregate_by, audit_dispersion_method, audit_min_measurements, audit_min_relative_deviation, audit_sigma, backoff_max_elapsed_seconds,
    bump_epoch, bump_epoch_checked, bump_epoch_in_conf, determine_epoch_from_config, find_config_path,
    get_main_config_path, has_specific_config, measurement_unit, parse_epoch,
    read_hierarchical_config, resolve_epoch, ConfigEditError, ConfigPathError, LayeredConfig,
};
use git_perf::stats::{DispersionMethod, ReductionFunc};

fn config(layers: &[&str]) -> LayeredConfig {
    let v: Vec<String> = layers.iter().map(|s| s.to_string()).collect();
    read_hierarchical_config(&v).unwrap()
}

const HEAD: &str = "0123abcd4567ef890123abcd4567ef8901234567";

#[test]
fn test_read_epochs() {
    let configfile = r#"[measurement."something"]
#My comment
epoch="34567898"

[measurement."somethingelse"]
epoch="a3dead"

[measurement."*"]
# General performance regression
epoch="12344555"
"#;
    let c = config(&[configfile]);
    assert_eq!(determine_epoch_from_config(Some(&c), Some(configfile), "something"), Some(0x34567898));
    assert_eq!(determine_epoch_from_config(Some(&c), Some(configfile), "somethingelse"), Some(0xa3dead));
    assert_eq!(determine_epoch_from_config(Some(&c), Some(configfile), "unspecified"), Some(0x12344555));
}

#[test]
fn test_bump_epochs() {
    let configfile = r#"[measurement."something"]
#My comment
epoch = "34567898"
"#;
    let mut actual = String::from(configfile);
    bump_epoch_in_conf("something", &mut actual, HEAD).expect("Failed to bump epoch");
    let expected = format!(
        r#"[measurement."something"]
#My comment
epoch = "{}"
"#,
        &HEAD[0..8],
    );
    assert_eq!(actual, expected);
}

#[test]
fn test_bump_new_epoch_and_read_it() {
    let mut conf = String::new();
    bump_epoch_in_conf("mymeasurement", &mut conf, HEAD).expect("Failed to bump epoch");
    let c = config(&[conf.as_str()]);
    let epoch = determine_epoch_from_config(Some(&c), Some(conf.as_str()), "mymeasurement");
    assert!(epoch.is_some());
    assert_eq!(epoch, Some(0x0123abcd));
}

#[test]
fn bump_refuses_invalid_toml_and_leaves_it() {
    let mut conf = String::from("[measurement\nbroken");
    assert_eq!(bump_epoch_in_conf("m", &mut conf, HEAD), Err(ConfigEditError::Parse));
    assert_eq!(conf, "[measurement\nbroken");
}

#[test]
fn bump_epoch_starts_from_an_empty_configuration() {
    let text = bump_epoch("m", None, HEAD).unwrap();
    let c = config(&[text.as_str()]);
    assert_eq!(determine_epoch_from_config(Some(&c), Some(text.as_str()), "m"), Some(0x0123abcd));
    let again = bump_epoch("m", Some(text.as_str()), "ffffffff00").unwrap();
    let c2 = config(&[again.as_str()]);
    assert_eq!(determine_epoch_from_config(Some(&c2), Some(again.as_str()), "m"), Some(0xffffffff));
}

#[test]
fn test_backoff_max_elapsed_seconds() {
    let c = config(&["[backoff]\nmax_elapsed_seconds = 42\n"]);
    assert_eq!(backoff_max_elapsed_seconds(Some(&c)), 42);
    let empty = config(&[]);
    assert_eq!(backoff_max_elapsed_seconds(Some(&empty)), 60);
    assert_eq!(backoff_max_elapsed_seconds(None), 60);
}

#[test]
fn test_determine_epoch_from_config_with_missing_file() {
    let empty = config(&[]);
    assert_eq!(determine_epoch_from_config(Some(&empty), None, "m"), None);
    assert_eq!(determine_epoch_from_config(None, None, "m"), None);
}

#[test]
fn test_determine_epoch_from_config_with_invalid_toml() {
    let broken: Vec<String> = vec!["[invalid toml".to_string()];
    assert!(read_hierarchical_config(&broken).is_err());
    assert_eq!(resolve_epoch(None, Some("[invalid toml")), None);
}

#[test]
fn test_hierarchical_config_workspace_overrides_home() {
    let system = "[backoff]\nmax_elapsed_seconds = 10\n[measurement]\nunit = \"s\"\n";
    let local = "[backoff]\nmax_elapsed_seconds = 20\n";
    let c = config(&[system, local]);
    assert_eq!(backoff_max_elapsed_seconds(Some(&c)), 20);
    assert_eq!(measurement_unit(Some(&c), "anything"), Some("s".to_string()));
}

#[test]
fn test_different_min_measurements_per_measurement() {
    let c = config(&[r#"
[measurement]
min_measurements = 5

[measurement."build_time"]
min_measurements = 10

[measurement."memory_usage"]
min_measurements = 3
"#]);
    assert_eq!(audit_min_measurements(Some(&c), "build_time"), Some(10));
    assert_eq!(audit_min_measurements(Some(&c), "memory_usage"), Some(3));
    assert_eq!(audit_min_measurements(Some(&c), "other_metric"), Some(5));
}

#[test]
fn test_different_dispersion_methods_per_measurement() {
    let c = config(&[r#"
[measurement]
dispersion_method = "stddev"

[measurement."build_time"]
dispersion_method = "mad"

[measurement."memory_usage"]
dispersion_method = "stddev"
"#]);
    assert_eq!(audit_dispersion_method(Some(&c), "build_time"), DispersionMethod::MedianAbsoluteDeviation);
    assert_eq!(audit_dispersion_method(Some(&c), "memory_usage"), DispersionMethod::StandardDeviation);
    assert_eq!(audit_dispersion_method(Some(&c), "other_metric"), DispersionMethod::StandardDeviation);
}

#[test]
fn dispersion_method_falls_back_to_parent_then_stddev() {
    let c = config(&["[measurement]\ndispersion_method = \"mad\"\n"]);
    assert_eq!(audit_dispersion_method(Some(&c), "x"), DispersionMethod::MedianAbsoluteDeviation);
    let bad = config(&["[measurement.x]\ndispersion_method = \"variance\"\n"]);
    assert_eq!(audit_dispersion_method(Some(&bad), "x"), DispersionMethod::StandardDeviation);
    assert_eq!(audit_dispersion_method(None, "x"), DispersionMethod::StandardDeviation);
}

#[test]
fn test_different_aggregate_by_per_measurement() {
    let c = config(&[r#"
[measurement]
aggregate_by = "median"

[measurement."build_time"]
aggregate_by = "max"

[measurement."memory_usage"]
aggregate_by = "mean"
"#]);
    assert_eq!(audit_aggregate_by(Some(&c), "build_time"), Some(ReductionFunc::Max));
    assert_eq!(audit_aggregate_by(Some(&c), "memory_usage"), Some(ReductionFunc::Mean));
    assert_eq!(audit_aggregate_by(Some(&c), "other_metric"), Some(ReductionFunc::Median));
}

#[test]
fn min_measurements_out_of_range_is_not_a_count() {
    let c = config(&["[measurement.a]\nmin_measurements = 70000\n[measurement.b]\nmin_measurements = -1\n"]);
    assert_eq!(audit_min_measurements(Some(&c), "a"), None);
    assert_eq!(audit_min_measurements(Some(&c), "b"), None);
}

#[test]
fn specific_table_versus_parent_fallback() {
    let c = config(&["[measurement]\nunit = \"ms\"\n[measurement.build_time]\nunit = \"s\"\n"]);
    assert!(has_specific_config(&c, "build_time"));
    assert!(!has_specific_config(&c, "other"));
    assert_eq!(measurement_unit(Some(&c), "build_time"), Some("s".to_string()));
    assert_eq!(measurement_unit(Some(&c), "other"), Some("ms".to_string()));
}

#[test]
fn epochs_are_hexadecimal() {
    assert_eq!(parse_epoch("a3dead"), Some(0xa3dead));
    assert_eq!(parse_epoch("+ff"), Some(0xff));
    assert_eq!(parse_epoch("xyz"), None);
    assert_eq!(parse_epoch("100000000"), None);
    assert_eq!(resolve_epoch(Some("zz"), Some("[measurement.\"*\"]\nepoch = \"12\"\n")), Some(0x12));
}

#[test]
fn test_find_config_path_in_git_root() {
    let p = get_main_config_path(Some("/repo")).unwrap();
    assert_eq!(p, "/repo/.gitperfconfig");
    assert_eq!(get_main_config_path(Some("/repo/")).unwrap(), "/repo/.gitperfconfig");
    assert_eq!(find_config_path(Ok(p.clone()), true), Some(p));
}

#[test]
fn test_find_config_path_not_found() {
    assert_eq!(get_main_config_path(None), Err(ConfigPathError::NoRepository));
    assert_eq!(get_main_config_path(Some("")), Err(ConfigPathError::EmptyRoot));
    assert_eq!(find_config_path(Ok("/repo/.gitperfconfig".to_string()), false), None);
    assert_eq!(find_config_path(Err(ConfigPathError::NoRepository), true), None);
}

fn sigma(c: &LayeredConfig, name: &str) -> Option<f64> {
    audit_sigma(Some(c), name).map(|t| t.parse::<f64>().unwrap())
}

#[test]
fn test_different_sigma_per_measurement() {
    let c = config(&[r#"
[measurement]
sigma = 3.0

[measurement."build_time"]
sigma = 5.5

[measurement."memory_usage"]
sigma = 2.0
"#]);
    assert_eq!(sigma(&c, "build_time"), Some(5.5));
    assert_eq!(sigma(&c, "memory_usage"), Some(2.0));
    assert_eq!(sigma(&c, "other_metric"), Some(3.0));
}

#[test]
fn audit_sigma_skips_text_that_is_no_number() {
    let c = config(&[r#"
[measurement]
sigma = 2.5

[measurement."build_time"]
sigma = "wide"
"#]);
    assert_eq!(sigma(&c, "build_time"), Some(2.5));
    assert_eq!(audit_sigma(None, "build_time"), None);
}

#[test]
fn min_relative_deviation_per_measurement() {
    let c = config(&[r#"
[measurement]
min_relative_deviation = 5.0

[measurement."build_time"]
min_relative_deviation = 10.0

[measurement."test_runtime"]
min_relative_deviation = 7.5
"#]);
    let get = |n: &str| audit_min_relative_deviation(Some(&c), n).map(|t| t.parse::<f64>().unwrap());
    assert_eq!(get("build_time"), Some(10.0));
    assert_eq!(get("test_runtime"), Some(7.5));
    assert_eq!(get("memory_usage"), Some(5.0));
    let empty = config(&[""]);
    assert_eq!(audit_min_relative_deviation(Some(&empty), "x"), None);
}

#[test]
fn bump_epoch_checked_refuses_non_table_entries() {
    assert!(bump_epoch_checked("m", Some("measurement = 5\n"), HEAD).is_none());
    assert!(bump_epoch_checked("m", Some("[measurement]\nm = 3\n"), HEAD).is_none());
    assert!(matches!(bump_epoch_checked("m", Some("[[x"), HEAD), Some(Err(ConfigEditError::Parse))));
    let text = bump_epoch_checked("m", None, HEAD).unwrap().unwrap();
    assert!(text.contains("0123abcd"));
    let inline = bump_epoch_checked("m", Some("measurement = { m = { unit = \"ms\" } }\n"), HEAD).unwrap().unwrap();
    assert!(inline.contains("0123abcd"));
}

#[test]
fn reduction_and_dispersion_names_are_lower_case_and_read_back() {
    let funcs = [ReductionFunc::Min, ReductionFunc::Max, ReductionFunc::Median, ReductionFunc::Mean];
    let names: Vec<&str> = funcs.iter().map(|f| f.name()).collect();
    assert_eq!(names, vec!["min", "max", "median", "mean"]);
    for f in funcs {
        assert_eq!(ReductionFunc::from_str(f.name()), Some(f));
    }
    assert_eq!(DispersionMethod::StandardDeviation.name(), "stddev");
    assert_eq!(DispersionMethod::MedianAbsoluteDeviation.name(), "mad");
    assert_eq!(DispersionMethod::from_str("mad"), Some(DispersionMethod::MedianAbsoluteDeviation));
}
