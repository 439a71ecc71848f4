use git_perf::data::MeasurementData;
use git_perf::study::study_groups;

fn m(name: &str, val: &str, kvs: &[(&str, &str)]) -> MeasurementData {
    MeasurementData {
        epoch: 0,
        name: name.to_string(),
        timestamp: "0".to_string(),
        val: val.to_string(),
        key_values: kvs.iter().map(|(k, v)| (k.to_string(), v.to_string())).collect(),
    }
}

#[test]
fn study_groups_by_runner_instance() {
    let ms = vec![
        m("bench", "1", &[("runner", "a")]),
        m("other", "9", &[("runner", "a")]),
        m("bench", "2", &[("runner", "b")]),
        m("bench", "3", &[("runner", "a")]),
        m("bench", "4", &[]),
    ];
    let g = study_groups(&ms, "bench", "runner");
    assert!(g.grouped_by_key);
    assert_eq!(g.total_raw, 4);
    assert_eq!(g.groups, vec![vec![0, 3], vec![2]]);
}

#[test]
fn study_without_two_instances_uses_each_value() {
    let ms = vec![
        m("bench", "1", &[("runner", "a")]),
        m("bench", "2", &[("runner", "a")]),
        m("bench", "3", &[]),
    ];
    let g = study_groups(&ms, "bench", "runner");
    assert!(!g.grouped_by_key);
    assert_eq!(g.total_raw, 3);
    assert_eq!(g.groups, vec![vec![0], vec![1], vec![2]]);
    let none = study_groups(&ms, "missing", "runner");
    assert_eq!(none.total_raw, 0);
    assert!(none.groups.is_empty());
}

fn aggregates(ms: &[MeasurementData], key: &str) -> (bool, usize, Vec<f64>) {
    let g = study_groups(ms, "t", key);
    let values = g
        .groups
        .iter()
        .map(|members| members.iter().map(|&p| ms[p].val.parse::<f64>().unwrap()).fold(f64::INFINITY, f64::min))
        .collect();
    (g.grouped_by_key, g.total_raw, values)
}

#[test]
fn test_group_by_key() {
    let ms = vec![
        m("t", "100", &[("group", "1")]),
        m("t", "90", &[("group", "1")]),
        m("t", "200", &[("group", "2")]),
        m("t", "300", &[("group", "3")]),
    ];
    let (grouped, total_raw, group_aggregates) = aggregates(&ms, "group");
    assert!(grouped);
    assert_eq!(group_aggregates.len(), 3);
    assert_eq!(total_raw, 4);
    assert!(group_aggregates.contains(&90.0));
    assert!(group_aggregates.contains(&200.0));
    assert!(group_aggregates.contains(&300.0));
}

#[test]
fn test_group_by_key_fallback() {
    let ms = vec![m("t", "100", &[]), m("t", "110", &[]), m("t", "95", &[])];
    let (grouped, total_raw, group_aggregates) = aggregates(&ms, "group");
    assert!(!grouped);
    assert_eq!(group_aggregates.len(), 3);
    assert_eq!(total_raw, 3);
}
