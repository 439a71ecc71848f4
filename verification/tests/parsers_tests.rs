use git_perf::parsers::{CriterionJsonParser, JunitTestCase, JunitTestSuite, JunitXmlParser, TestStatus};

fn case(name: &str, classname: &str, time_ns: Option<u64>) -> JunitTestCase {
    JunitTestCase {
        name: name.to_string(),
        classname: classname.to_string(),
        time_ns,
        failure: false,
        error: false,
        skipped: false,
    }
}

fn pairs(items: &[(&str, &str)]) -> Vec<(String, String)> {
    items.iter().map(|(k, v)| (k.to_string(), v.to_string())).collect()
}

#[test]
fn junit_reports_with_several_suites_are_recognised() {
    let p = JunitXmlParser;
    assert!(p.is_testsuites("  \n<testsuites name=\"all\">\n</testsuites>"));
    assert!(!p.is_testsuites("<testsuite name=\"one\"></testsuite>"));
}

#[test]
fn junit_case_status_prefers_skipped_then_error_then_failure() {
    let p = JunitXmlParser;
    let mut c = case("t", "", Some(5));
    c.failure = true;
    c.error = true;
    assert_eq!(p.test_case_measurement(&c, "").status, TestStatus::Error);
    c.skipped = true;
    assert_eq!(p.test_case_measurement(&c, "").status, TestStatus::Skipped);
    c = case("t", "", None);
    c.failure = true;
    assert_eq!(p.test_case_measurement(&c, "").status, TestStatus::Failed);
    assert_eq!(p.test_case_measurement(&case("t", "", None), "").status, TestStatus::Passed);
}

#[test]
fn junit_case_metadata_names_class_and_suite() {
    let p = JunitXmlParser;
    let m = p.test_case_measurement(&case("test_one", "module::tests", Some(1_500_000_000)), "suite1");
    assert_eq!(m.name, "test_one");
    assert_eq!(m.duration_ns, Some(1_500_000_000));
    assert_eq!(
        m.metadata,
        pairs(&[("type", "test"), ("classname", "module::tests"), ("suite", "suite1"), ("status", "passed")])
    );
    let bare = p.test_case_measurement(&case("t", "", None), "");
    assert_eq!(bare.metadata, pairs(&[("type", "test"), ("status", "passed")]));
}

#[test]
fn junit_measurements_follow_report_order() {
    let p = JunitXmlParser;
    let suites = vec![
        JunitTestSuite { name: "a".to_string(), testcases: vec![case("a1", "", Some(1)), case("a2", "", None)] },
        JunitTestSuite { name: "b".to_string(), testcases: vec![] },
        JunitTestSuite { name: "c".to_string(), testcases: vec![case("c1", "", Some(3))] },
    ];
    let ms = p.measurements(&suites);
    let names: Vec<&str> = ms.iter().map(|m| m.name.as_str()).collect();
    assert_eq!(names, vec!["a1", "a2", "c1"]);
    assert_eq!(ms[2].metadata.iter().find(|(k, _)| k == "suite").map(|(_, v)| v.as_str()), Some("c"));
}

#[test]
fn criterion_message_lines_are_numbered_and_trimmed() {
    let p = CriterionJsonParser;
    let lines = p.message_lines("  {\"a\":1}  \n\n   \n{\"b\":2}");
    assert_eq!(lines, vec![(1, "{\"a\":1}".to_string()), (4, "{\"b\":2}".to_string())]);
}

#[test]
fn criterion_helpers() {
    let p = CriterionJsonParser;
    assert!(p.is_benchmark_complete("benchmark-complete"));
    assert!(!p.is_benchmark_complete("group-complete"));
    assert_eq!(p.unit_or_default(None), "ns");
    assert_eq!(p.unit_or_default(Some("ms".to_string())), "ms");
    assert_eq!(p.nanoseconds_factor("us"), 1_000);
    assert_eq!(p.nanoseconds_factor("ms"), 1_000_000);
    assert_eq!(p.nanoseconds_factor("s"), 1_000_000_000);
    assert_eq!(p.nanoseconds_factor("ns"), 1);
    assert_eq!(p.nanoseconds_factor("parsecs"), 1);
}

#[test]
fn criterion_benchmark_metadata() {
    let p = CriterionJsonParser;
    assert_eq!(
        p.benchmark_metadata("group/name/input/more", None),
        pairs(&[("type", "bench"), ("group", "group"), ("bench_name", "name"), ("input", "input/more")])
    );
    assert_eq!(
        p.benchmark_metadata("group/name", Some("report_group".to_string())),
        pairs(&[("type", "bench"), ("group", "report_group"), ("bench_name", "name")])
    );
    assert_eq!(p.benchmark_metadata("solo", None), pairs(&[("type", "bench"), ("bench_name", "solo")]));
}
