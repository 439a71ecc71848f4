use git_perf::data::{Commit, MeasurementData};
use git_perf::reporting_config::SectionConfig;
use git_perf::section_plan::{plan_section, SectionPlanError};

fn m(name: &str, val: &str, kvs: &[(&str, &str)]) -> MeasurementData {
    MeasurementData {
        epoch: 0,
        name: name.to_string(),
        timestamp: "0".to_string(),
        val: val.to_string(),
        key_values: kvs.iter().map(|(k, v)| (k.to_string(), v.to_string())).collect(),
    }
}

fn commit(id: &str, measurements: Vec<MeasurementData>) -> Commit {
    Commit { commit: id.to_string(), title: String::new(), author: String::new(), measurements }
}

fn section(filter: Option<&str>, separate_by: &[&str], depth: Option<usize>) -> SectionConfig {
    SectionConfig {
        id: "s".to_string(),
        placeholder: "{{SECTION[s]}}".to_string(),
        measurement_filter: filter.map(|f| f.to_string()),
        key_value_filter: vec![],
        separate_by: separate_by.iter().map(|s| s.to_string()).collect(),
        aggregate_by: None,
        depth,
        show_epochs: false,
        detect_changes: false,
    }
}

fn history() -> Vec<Commit> {
    vec![
        commit("c0", vec![m("build", "1", &[("os", "linux")]), m("build", "2", &[("os", "mac")]), m("test", "3", &[])]),
        commit("c1", vec![m("build", "4", &[("os", "linux")])]),
    ]
}

#[test]
fn traces_split_by_grouping_values() {
    let plan = plan_section(&history(), &section(Some("^build$"), &["os"], None)).unwrap();
    assert_eq!(plan.commit_count, 2);
    assert_eq!(plan.groups.len(), 2);
    assert_eq!(plan.groups[0].name, "build");
    assert_eq!(plan.groups[0].group_value, vec!["linux".to_string()]);
    assert_eq!(plan.groups[0].members, vec![vec![0], vec![0]]);
    assert_eq!(plan.groups[1].group_value, vec!["mac".to_string()]);
    assert_eq!(plan.groups[1].members, vec![vec![1], vec![]]);
}

#[test]
fn traces_without_grouping_follow_first_appearance() {
    let plan = plan_section(&history(), &section(None, &[], Some(1))).unwrap();
    assert_eq!(plan.commit_count, 1);
    let names: Vec<&str> = plan.groups.iter().map(|g| g.name.as_str()).collect();
    assert_eq!(names, vec!["build", "test"]);
    assert_eq!(plan.groups[0].members, vec![vec![0, 1]]);
    assert_eq!(plan.groups[1].members, vec![vec![2]]);
}

#[test]
fn too_deep_sections_cover_all_commits() {
    let plan = plan_section(&history(), &section(None, &[], Some(10))).unwrap();
    assert_eq!(plan.commit_count, 2);
}

#[test]
fn grouping_by_a_missing_key_is_refused() {
    match plan_section(&history(), &section(None, &["os"], None)) {
        Err(SectionPlanError::NoMeasurementHasKeys { section, name }) => {
            assert_eq!(section, "s");
            assert_eq!(name, "test");
        },
        other => panic!("unexpected {:?}", other),
    }
}

#[test]
fn invalid_section_filters_are_refused() {
    assert!(matches!(
        plan_section(&history(), &section(Some("("), &[], None)),
        Err(SectionPlanError::InvalidFilter(p)) if p == "("
    ));
}
