use git_perf::reporting_config::{
    parse_aggregate_by, parse_boolean, parse_comma_separated_list, parse_depth,
    parse_key_value_filter, parse_template_sections, SectionConfig, SectionError,
};
use git_perf::stats::ReductionFunc;

#[test]
fn test_parse_key_value_filter_valid() {
    let result = parse_key_value_filter("os=linux,arch=x64").unwrap();
    assert_eq!(result.len(), 2);
    assert_eq!(result[0], ("os".to_string(), "linux".to_string()));
    assert_eq!(result[1], ("arch".to_string(), "x64".to_string()));
}

#[test]
fn test_parse_key_value_filter_invalid() {
    assert!(parse_key_value_filter("invalid").is_err());
    assert!(parse_key_value_filter("=value").is_err());
    assert!(parse_key_value_filter("key=").is_err());
}

#[test]
fn test_parse_comma_separated_list() {
    let result = parse_comma_separated_list("os, arch, version");
    assert_eq!(result, vec!["os", "arch", "version"]);
}

#[test]
fn test_parse_aggregate_by() {
    assert_eq!(parse_aggregate_by("none").unwrap(), None);
    assert_eq!(parse_aggregate_by("min").unwrap(), Some(ReductionFunc::Min));
    assert!(parse_aggregate_by("invalid").is_err());
}

#[test]
fn test_parse_boolean() {
    assert!(parse_boolean("true", "test").unwrap());
    assert!(parse_boolean("True", "test").unwrap());
    assert!(parse_boolean("yes", "test").unwrap());
    assert!(parse_boolean("1", "test").unwrap());
    assert!(!parse_boolean("false", "test").unwrap());
    assert!(!parse_boolean("False", "test").unwrap());
    assert!(!parse_boolean("no", "test").unwrap());
    assert!(!parse_boolean("0", "test").unwrap());
    assert!(parse_boolean("invalid", "test").is_err());
}

#[test]
fn test_parse_depth() {
    assert_eq!(parse_depth("100").unwrap(), 100);
    assert!(parse_depth("invalid").is_err());
    assert!(parse_depth("-5").is_err());
}

#[test]
fn key_value_filter_errors_name_the_piece() {
    assert_eq!(parse_key_value_filter(" a = 1 , novalue ").unwrap_err(), SectionError::InvalidKeyValueFilter("novalue".to_string()));
    assert_eq!(parse_key_value_filter("=value").unwrap_err(), SectionError::EmptyKey("=value".to_string()));
    assert_eq!(parse_key_value_filter("key=").unwrap_err(), SectionError::EmptyValue("key=".to_string()));
}

#[test]
fn section_placeholder_parsing() {
    let p = "{{SECTION[test-overview]\n  measurement-filter: ^test::\n  key-value-filter: os=linux, arch=x64\n  separate-by: os,arch\n  aggregate-by: median\n  depth: 50\n  show-epochs: yes\n  detect-changes: 0\n  unknown: whatever\n}}";
    let s = SectionConfig::parse(p).unwrap();
    assert_eq!(s.id, "test-overview");
    assert_eq!(s.placeholder, p);
    assert_eq!(s.measurement_filter.as_deref(), Some("^test::"));
    assert_eq!(s.key_value_filter, vec![("os".to_string(), "linux".to_string()), ("arch".to_string(), "x64".to_string())]);
    assert_eq!(s.separate_by, vec!["os".to_string(), "arch".to_string()]);
    assert_eq!(s.aggregate_by, Some(ReductionFunc::Median));
    assert_eq!(s.depth, Some(50));
    assert!(s.show_epochs);
    assert!(!s.detect_changes);
}

#[test]
fn section_placeholder_errors() {
    assert!(matches!(SectionConfig::parse("no placeholder"), Err(SectionError::InvalidPlaceholder(_))));
    assert!(matches!(SectionConfig::parse("{{SECTION[] x}}"), Err(SectionError::InvalidPlaceholder(_))));
    assert!(matches!(SectionConfig::parse("{{SECTION[a] depth: x}}"), Err(SectionError::InvalidDepth(_))));
    assert_eq!(
        SectionConfig::parse("{{SECTION[a] show-epochs: maybe}}").unwrap_err(),
        SectionError::InvalidBoolean { param: "show-epochs".to_string(), value: "maybe".to_string() }
    );
}

#[test]
fn template_sections_in_order_and_unique() {
    let t = "<h1>x</h1>{{SECTION[one]}}<p>{{SECTION[two] depth: 3}}</p>{{PLOTLY_BODY}}";
    let secs = parse_template_sections(t).unwrap();
    assert_eq!(secs.len(), 2);
    assert_eq!(secs[0].id, "one");
    assert_eq!(secs[0].placeholder, "{{SECTION[one]}}");
    assert_eq!(secs[1].id, "two");
    assert_eq!(secs[1].depth, Some(3));
    assert!(parse_template_sections("no sections").unwrap().is_empty());
    assert_eq!(
        parse_template_sections("{{SECTION[a]}}{{SECTION[ a ]}}").unwrap_err(),
        SectionError::DuplicateSectionId("a".to_string())
    );
}

#[test]
fn section_parameters_on_one_line() {
    let s = SectionConfig::parse("{{SECTION[x] depth: 5, show-epochs: true }}").unwrap();
    assert_eq!(s.id, "x");
    assert_eq!(s.depth, Some(5));
    assert!(s.show_epochs);
    let s = SectionConfig::parse(
        "{{SECTION[y] key-value-filter: os=linux,arch=x64, separate-by: os,arch, aggregate-by: median }}",
    )
    .unwrap();
    assert_eq!(
        s.key_value_filter,
        vec![("os".to_string(), "linux".to_string()), ("arch".to_string(), "x64".to_string())]
    );
    assert_eq!(s.separate_by, vec!["os".to_string(), "arch".to_string()]);
    assert_eq!(s.aggregate_by, Some(ReductionFunc::Median));
    let s = SectionConfig::parse("{{SECTION[z] measurement-filter: a, b }}").unwrap();
    assert_eq!(s.measurement_filter, Some("a, b".to_string()));
}
