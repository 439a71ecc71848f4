use git_perf::git::{GitError, GitOutput};
use git_perf::size_ops::{
    accumulate_measurement_sizes, get_notes_size, get_repo_stats, parse_count_objects,
    MeasurementSizeInfo, NamedSize, SizeError,
};

const COUNT_OBJECTS: &str = "count: 12\nsize: 48\nin-pack: 300\npacks: 1\nsize-pack: 1024\nprune-packable: 0\ngarbage: 0\nsize-garbage: 0\n";

fn note(lines: &[&str]) -> String {
    lines.iter().map(|l| format!("{}\n", l)).collect()
}

#[test]
fn test_accumulate_measurement_sizes_division() {
    let content = note(&["0\u{1c}a\u{1c}1\u{1c}1", "0\u{1c}b\u{1c}1\u{1c}1"]);
    let mut by_name: Vec<NamedSize> = Vec::new();
    accumulate_measurement_sizes(&content, 1000, &mut by_name);
    assert_eq!(by_name.len(), 2);
    assert_eq!(by_name[0].info.total_bytes, 500, "Division should split note size evenly: 1000/2 = 500");

    let one = note(&["0\u{1c}a\u{1c}1\u{1c}1"]);
    let four = note(&["0\u{1c}a\u{1c}1\u{1c}1", "0\u{1c}b\u{1c}1\u{1c}1", "0\u{1c}c\u{1c}1\u{1c}1", "0\u{1c}d\u{1c}1\u{1c}1"]);
    let mut with_one: Vec<NamedSize> = Vec::new();
    accumulate_measurement_sizes(&one, 1000, &mut with_one);
    let mut with_four: Vec<NamedSize> = Vec::new();
    accumulate_measurement_sizes(&four, 1000, &mut with_four);
    assert_eq!(with_one[0].info.total_bytes, 1000, "1000/1 = 1000");
    assert_eq!(with_four[0].info.total_bytes, 250, "1000/4 = 250");
    assert!(with_one[0].info.total_bytes > by_name[0].info.total_bytes);
    assert!(by_name[0].info.total_bytes > with_four[0].info.total_bytes);
}

#[test]
fn test_accumulate_measurement_sizes_addition() {
    let mut by_name: Vec<NamedSize> = Vec::new();
    accumulate_measurement_sizes(&note(&["0\u{1c}test\u{1c}1\u{1c}1"]), 100, &mut by_name);
    assert_eq!(by_name[0].info.total_bytes, 100);
    accumulate_measurement_sizes(&note(&["0\u{1c}test\u{1c}1\u{1c}1"]), 50, &mut by_name);
    assert_eq!(by_name[0].info.total_bytes, 150);
    accumulate_measurement_sizes(&note(&["0\u{1c}test\u{1c}1\u{1c}1"]), 25, &mut by_name);
    assert_eq!(by_name[0].info, MeasurementSizeInfo { total_bytes: 175, count: 3 });
    assert_eq!(by_name.len(), 1);
}

#[test]
fn a_note_without_measurements_changes_nothing() {
    let mut by_name: Vec<NamedSize> = Vec::new();
    accumulate_measurement_sizes("garbage\n", 100, &mut by_name);
    assert!(by_name.is_empty());
}

#[test]
fn uneven_split_rounds_down() {
    let mut by_name: Vec<NamedSize> = Vec::new();
    accumulate_measurement_sizes(&note(&["0\u{1c}x\u{1c}1\u{1c}1", "0\u{1c}y\u{1c}1\u{1c}1", "0\u{1c}x\u{1c}1\u{1c}1"]), 100, &mut by_name);
    assert_eq!(by_name[0].name, "x");
    assert_eq!(by_name[0].info, MeasurementSizeInfo { total_bytes: 66, count: 2 });
    assert_eq!(by_name[1].info, MeasurementSizeInfo { total_bytes: 33, count: 1 });
}

#[test]
fn test_get_notes_size_empty_repo() {
    let result = get_notes_size(false, &[], &[], &[]).unwrap();
    assert_eq!(result.total_bytes, 0);
    assert_eq!(result.note_count, 0);
    assert!(result.by_measurement.is_none());
    let detailed = get_notes_size(true, &[], &[], &[]).unwrap();
    assert_eq!(detailed.by_measurement.map(|v| v.len()), Some(0));
}

#[test]
fn notes_size_sums_and_breaks_down() {
    let oids = vec!["n1".to_string(), "n2".to_string()];
    let contents = vec![note(&["0\u{1c}a\u{1c}1\u{1c}1"]), note(&["0\u{1c}a\u{1c}1\u{1c}1", "0\u{1c}b\u{1c}1\u{1c}1"])];
    let info = get_notes_size(true, &oids, &[10, 20], &contents).unwrap();
    assert_eq!(info.total_bytes, 30);
    assert_eq!(info.note_count, 2);
    let by = info.by_measurement.unwrap();
    assert_eq!(by[0].name, "a");
    assert_eq!(by[0].info, MeasurementSizeInfo { total_bytes: 20, count: 2 });
    assert_eq!(by[1].info, MeasurementSizeInfo { total_bytes: 10, count: 1 });
}

#[test]
fn notes_size_reports_count_mismatch() {
    let oids = vec!["n1".to_string(), "n2".to_string()];
    assert_eq!(
        get_notes_size(false, &oids, &[10], &[]).unwrap_err(),
        SizeError::SizeCountMismatch { expected: 2, got: 1 }
    );
}

#[test]
fn test_get_repo_stats_conversion_factors() {
    let stats = parse_count_objects(COUNT_OBJECTS);
    assert_eq!(stats.loose_objects, 12);
    assert_eq!(stats.loose_size, 48 * 1024);
    assert_eq!(stats.packed_objects, 300);
    assert_eq!(stats.pack_size, 1024 * 1024);
    assert_eq!(stats.loose_size % 1024, 0);
    assert_eq!(stats.pack_size % 1024, 0);
}

#[test]
fn test_get_repo_stats_field_assignments() {
    let stats = parse_count_objects("in-pack: 7\nweird line\ncount: x\nsize-pack : 2\n");
    assert_eq!(stats.packed_objects, 7);
    assert_eq!(stats.loose_objects, 0);
    assert_eq!(stats.pack_size, 2048);
    assert_eq!(stats.loose_size, 0);
}

#[test]
fn test_get_repo_stats_basic() {
    let ok = get_repo_stats(Ok(GitOutput { stdout: COUNT_OBJECTS.to_string(), stderr: String::new() })).unwrap();
    assert!(ok.loose_objects > 0 || ok.packed_objects > 0);
    assert!(get_repo_stats(Err(GitError::NoUpstream)).is_err());
}
