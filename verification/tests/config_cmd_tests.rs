use git_perf::config::read_hierarchical_config;
use git_perf::config_cmd::{
    epoch_display, extract_measurement_names, gather_config_sources, gather_git_context,
    gather_global_settings, get_local_config_path, local_config_candidate, measurement_issues,
};
use git_perf::git::{GitError, GitOutput};

#[test]
fn test_get_local_config_path_exists() {
    let candidate = local_config_candidate("/work/repo");
    assert_eq!(candidate, "/work/repo/.gitperfconfig");
    let result = get_local_config_path(Some(candidate.clone()), true);
    assert_eq!(result, Some("/work/repo/.gitperfconfig".to_string()));
}

#[test]
fn test_get_local_config_path_none() {
    let result = get_local_config_path(Some(local_config_candidate("/work/repo")), false);
    assert_eq!(result, None);
    assert_eq!(get_local_config_path(None, true), None);
}

#[test]
fn test_gather_config_sources() {
    let sources = gather_config_sources(
        Some("/home/u/.config/git-perf/config.toml".to_string()),
        Some("/repo/.gitperfconfig".to_string()),
    );
    assert_eq!(sources.system_config, Some("/home/u/.config/git-perf/config.toml".to_string()));
    assert_eq!(sources.local_config, Some("/repo/.gitperfconfig".to_string()));
}

#[test]
fn test_gather_global_settings() {
    let config = read_hierarchical_config(&[]).unwrap();
    let settings = gather_global_settings(Some(&config));
    assert_eq!(settings.backoff_max_elapsed_seconds, 60);
}

#[test]
fn test_extract_measurement_names_empty() {
    let config = read_hierarchical_config(&[]).unwrap();
    let names = extract_measurement_names(&config);
    assert!(names.is_empty());
}

#[test]
fn test_extract_measurement_names_with_measurements() {
    let layers = vec![r#"
[measurement.build_time]
epoch = 0x12345678

[measurement.test_time]
epoch = 0x87654321
"#
    .to_string()];
    let config = read_hierarchical_config(&layers).unwrap();
    let mut names = extract_measurement_names(&config);
    names.sort();
    assert_eq!(names, vec!["build_time", "test_time"]);
}

#[test]
fn parent_defaults_are_not_measurements() {
    let layers = vec!["[measurement]\nunit = \"ms\"\n[measurement.a]\nunit = \"s\"\n".to_string()];
    let config = read_hierarchical_config(&layers).unwrap();
    assert_eq!(extract_measurement_names(&config), vec!["a".to_string()]);
}

#[test]
fn test_gather_git_context() {
    let branch = GitOutput { stdout: "master\n".to_string(), stderr: String::new() };
    let root = GitOutput { stdout: "/repo\n".to_string(), stderr: String::new() };
    let ctx = gather_git_context(&branch, Ok(root)).unwrap();
    assert_eq!(ctx.branch, "master");
    assert_eq!(ctx.repository_root, "/repo");
    assert!(gather_git_context(&branch, Err(GitError::NoUpstream)).is_err());
}

#[test]
fn epochs_show_as_eight_hex_digits() {
    assert_eq!(epoch_display(Some(0x12345678)), Some("12345678".to_string()));
    assert_eq!(epoch_display(Some(0xab)), Some("000000ab".to_string()));
    assert_eq!(epoch_display(None), None);
}

#[test]
fn validation_reports_each_problem_in_order() {
    assert!(measurement_issues("build", true, None, None, Some(2)).is_empty());
    assert_eq!(
        measurement_issues("build", false, Some("-1"), Some("-0.5"), Some(1)),
        vec![
            "Measurement 'build': No epoch configured (run 'git perf bump-epoch -m build')".to_string(),
            "Measurement 'build': Invalid sigma value -1 (must be positive)".to_string(),
            "Measurement 'build': Invalid min_relative_deviation -0.5 (must be non-negative)".to_string(),
            "Measurement 'build': Invalid min_measurements 1 (must be at least 2)".to_string(),
        ]
    );
}

fn validate(epoch: Option<&str>, min_relative_deviation: Option<f64>, min_measurements: Option<u16>, sigma: Option<f64>) -> Vec<String> {
    let bad_sigma = sigma.filter(|s| *s <= 0.0).map(|s| s.to_string());
    let bad_deviation = min_relative_deviation.filter(|d| *d < 0.0).map(|d| d.to_string());
    measurement_issues("build_time", epoch.is_some(), bad_sigma.as_deref(), bad_deviation.as_deref(), min_measurements)
}

#[test]
fn test_validate_config_valid() {
    let issues = validate(Some("12345678"), Some(5.0), Some(10), Some(3.0));
    assert!(issues.is_empty());
}

#[test]
fn test_validate_config_missing_epoch() {
    let issues = validate(None, Some(5.0), Some(10), Some(3.0));
    assert_eq!(issues.len(), 1);
    assert!(issues[0].contains("No epoch configured"));
}

#[test]
fn test_validate_config_invalid_sigma() {
    let issues = validate(Some("12345678"), Some(5.0), Some(10), Some(-1.0));
    assert_eq!(issues.len(), 1);
    assert!(issues[0].contains("Invalid sigma value"));
}

#[test]
fn test_validate_config_invalid_min_relative_deviation() {
    let issues = validate(Some("12345678"), Some(-5.0), Some(10), Some(3.0));
    assert_eq!(issues.len(), 1);
    assert!(issues[0].contains("Invalid min_relative_deviation"));
}

#[test]
fn test_validate_config_invalid_min_measurements() {
    let issues = validate(Some("12345678"), Some(5.0), Some(1), Some(3.0));
    assert_eq!(issues.len(), 1);
    assert!(issues[0].contains("Invalid min_measurements"));
}

#[test]
fn test_validate_config_multiple_issues() {
    let issues = validate(None, Some(-5.0), Some(1), Some(-3.0));
    assert_eq!(issues.len(), 4);
}
