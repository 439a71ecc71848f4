use git_perf::reporting::{
    build_single_section_config, commit_range, merge_show_flags, report_title, sections_for_report,
    OutputFormat,
};
use git_perf::reporting_config::{parse_template_sections, SectionConfig};
use git_perf::stats::ReductionFunc;

fn section(id: &str, show_epochs: bool, detect_changes: bool) -> SectionConfig {
    SectionConfig {
        id: id.to_string(),
        placeholder: format!("{{{{SECTION[{}]}}}}", id),
        measurement_filter: None,
        key_value_filter: vec![],
        separate_by: vec![],
        aggregate_by: None,
        depth: None,
        show_epochs,
        detect_changes,
    }
}

#[test]
fn test_build_single_section_config_no_filters() {
    let s = build_single_section_config(&[], &[], vec![], None, false, false);
    assert_eq!(s.id, "main");
    assert_eq!(s.placeholder, "{{PLOTLY_BODY}}");
    assert_eq!(s.measurement_filter, None);
    assert!(s.key_value_filter.is_empty());
    assert!(s.separate_by.is_empty());
    assert_eq!(s.aggregate_by, None);
    assert_eq!(s.depth, None);
    assert!(!s.show_epochs);
    assert!(!s.detect_changes);
}

#[test]
fn test_build_single_section_config_with_patterns() {
    let patterns = vec!["test.*".to_string(), "bench.*".to_string()];
    let s = build_single_section_config(&patterns, &[], vec![], None, false, false);
    assert_eq!(s.measurement_filter, Some("(?:test.*)|(?:bench.*)".to_string()));
}

#[test]
fn test_build_single_section_config_with_all_params() {
    let patterns = vec!["test.*".to_string()];
    let kv_filters = vec![("os".to_string(), "linux".to_string()), ("arch".to_string(), "x64".to_string())];
    let separate = vec!["os".to_string(), "arch".to_string()];
    let s = build_single_section_config(&patterns, &kv_filters, separate.clone(), Some(ReductionFunc::Median), true, true);
    assert_eq!(s.measurement_filter, Some("(?:test.*)".to_string()));
    assert_eq!(s.key_value_filter, kv_filters);
    assert_eq!(s.separate_by, separate);
    assert_eq!(s.aggregate_by, Some(ReductionFunc::Median));
    assert!(s.show_epochs);
    assert!(s.detect_changes);
}

#[test]
fn test_merge_show_flags_both_false() {
    let merged = merge_show_flags(vec![section("test", false, false)], false, false);
    assert_eq!(merged.len(), 1);
    assert!(!merged[0].show_epochs);
    assert!(!merged[0].detect_changes);
}

#[test]
fn test_merge_show_flags_section_true_global_false() {
    let merged = merge_show_flags(vec![section("test", true, true)], false, false);
    assert_eq!(merged.len(), 1);
    assert!(merged[0].show_epochs);
    assert!(merged[0].detect_changes);
}

#[test]
fn test_merge_show_flags_section_false_global_true() {
    let merged = merge_show_flags(vec![section("test", false, false)], true, true);
    assert_eq!(merged.len(), 1);
    assert!(merged[0].show_epochs);
    assert!(merged[0].detect_changes);
}

#[test]
fn test_merge_show_flags_both_true() {
    let merged = merge_show_flags(vec![section("test", true, true)], true, true);
    assert_eq!(merged.len(), 1);
    assert!(merged[0].show_epochs);
    assert!(merged[0].detect_changes);
}

#[test]
fn test_merge_show_flags_mixed_flags() {
    let merged = merge_show_flags(vec![section("test", true, false)], false, true);
    assert_eq!(merged.len(), 1);
    assert!(merged[0].show_epochs);
    assert!(merged[0].detect_changes);
}

#[test]
fn test_merge_show_flags_multiple_sections() {
    let merged = merge_show_flags(vec![section("section1", false, false), section("section2", true, false)], true, true);
    assert_eq!(merged.len(), 2);
    assert!(merged[0].show_epochs);
    assert!(merged[0].detect_changes);
    assert!(merged[1].show_epochs);
    assert!(merged[1].detect_changes);
    assert_eq!(merged[1].id, "section2");
}

#[test]
fn test_report_metadata_new() {
    let commits = vec!["abc1234567890".to_string(), "def0987654321".to_string()];
    assert_eq!(report_title(Some("Custom Title".to_string())), "Custom Title");
    assert_eq!(commit_range(&commits), "def0987..abc1234");
    assert_eq!(commits.len(), 2);
}

#[test]
fn test_report_metadata_new_default_title() {
    let commits = vec!["abc1234567890".to_string()];
    assert_eq!(report_title(None), "Performance Measurements");
    assert_eq!(commit_range(&commits), "abc1234");
    assert_eq!(commits.len(), 1);
}

#[test]
fn test_report_metadata_new_empty_commits() {
    let commits: Vec<String> = vec![];
    assert_eq!(commit_range(&commits), "No commits");
    assert_eq!(commits.len(), 0);
}

const DEFAULT_HTML_TEMPLATE: &str = r#"<!DOCTYPE html>
<html>
<head>
    <meta charset="utf-8">
    <title>{{TITLE}}</title>
    {{PLOTLY_HEAD}}
    <style>{{CUSTOM_CSS}}</style>
</head>
<body>
    {{PLOTLY_BODY}}
</body>
</html>"#;

#[test]
fn test_default_template_has_no_sections() {
    let sections = parse_template_sections(DEFAULT_HTML_TEMPLATE).expect("Failed to parse default template");
    assert!(sections.is_empty());
}

#[test]
fn output_format_follows_the_path() {
    assert_eq!(OutputFormat::from_path("-"), Some(OutputFormat::Csv));
    assert_eq!(OutputFormat::from_path("-/"), Some(OutputFormat::Csv));
    assert_eq!(OutputFormat::from_path("out/report.HTML"), Some(OutputFormat::Html));
    assert_eq!(OutputFormat::from_path("report.csv"), Some(OutputFormat::Csv));
    assert_eq!(OutputFormat::from_path("report.txt"), None);
    assert_eq!(OutputFormat::from_path("report"), None);
}

#[test]
fn csv_reports_use_one_section() {
    let template = vec![section("a", false, false), section("b", false, false)];
    let html = sections_for_report(OutputFormat::Html, template.clone(), &[], &[], vec![], None, true, false);
    assert_eq!(html.len(), 2);
    assert!(html[0].show_epochs);
    let csv = sections_for_report(OutputFormat::Csv, template, &[], &[], vec![], None, true, false);
    assert_eq!(csv.len(), 1);
    assert_eq!(csv[0].id, "main");
    let none = sections_for_report(OutputFormat::Html, vec![], &[], &[], vec![], None, false, true);
    assert_eq!(none.len(), 1);
    assert!(none[0].detect_changes);
}
