use git_perf::reset::{
    count_all_pending_measurements, display_reset_plan, is_confirmation, plan_reset,
    refs_to_delete, ResetPlan,
};
use git_perf::status::{gather_pending_status, show_status, truly_pending_names, CommitNotes};

fn notes(commit: &str, lines: &[&str]) -> CommitNotes {
    CommitNotes { commit: commit.to_string(), lines: lines.iter().map(|s| s.to_string()).collect() }
}

fn line(name: &str) -> String {
    format!("0\u{1c}{}\u{1c}1\u{1c}2", name)
}

#[test]
fn pending_names_exclude_published_ones() {
    let (a, b) = (line("a"), line("b"));
    let pending = notes("c1", &[a.as_str(), b.as_str(), a.as_str()]);
    let remote = vec![notes("c1", &[a.as_str()])];
    assert_eq!(truly_pending_names(&pending, &remote), vec!["b".to_string()]);
    assert_eq!(truly_pending_names(&pending, &[]), vec!["a".to_string(), "b".to_string()]);
    let empty_remote = vec![notes("c1", &[])];
    assert_eq!(truly_pending_names(&pending, &empty_remote).len(), 2);
}

#[test]
fn status_counts_commits_and_names() {
    let (a, b, c) = (line("a"), line("b"), line("c"));
    let pending = vec![
        notes("1111111111111111", &[a.as_str(), b.as_str()]),
        notes("2222222222222222", &[a.as_str()]),
        notes("3333333333333333", &[c.as_str()]),
        notes("4444444444444444", &[]),
    ];
    let remote = vec![notes("2222222222222222", &[a.as_str()])];
    let titles = vec![Some("one".to_string()), Some("two".to_string()), None, None];
    let s = gather_pending_status(true, &pending, &remote, &titles);
    assert_eq!(s.commit_count, 2);
    assert_eq!(s.measurement_names, vec!["a".to_string(), "b".to_string(), "c".to_string()]);
    let per = s.per_commit.as_ref().unwrap();
    assert_eq!(per.len(), 1);
    assert_eq!(per[0].commit, "1111111111111111");
    assert_eq!(per[0].count, 2);

    let text = show_status(&s, true);
    assert_eq!(
        text,
        "Pending measurements:\n  2 commits with measurements\n  3 unique measurements\n\n\
Measurement names:\n  - a\n  - b\n  - c\n\n\
Per-commit breakdown:\n  111111111111 (2 measurements) - one\n    - a\n    - b\n\n\
(use \"git perf reset\" to discard pending measurements)\n(use \"git perf push\" to publish measurements)\n"
    );
    let brief = gather_pending_status(false, &pending, &remote, &[]);
    assert!(brief.per_commit.is_none());
}

#[test]
fn status_without_pending_measurements() {
    let s = gather_pending_status(false, &[], &[], &[]);
    assert_eq!(s.commit_count, 0);
    assert_eq!(
        show_status(&s, false),
        "No pending measurements.\n(use \"git perf add\" or \"git perf measure\" to add measurements)\n"
    );
}

#[test]
fn status_names_are_sorted_in_the_report() {
    let (z, a) = (line("zeta"), line("alpha"));
    let pending = vec![notes("abc", &[z.as_str(), a.as_str()])];
    let s = gather_pending_status(false, &pending, &[], &[]);
    let text = show_status(&s, false);
    assert!(text.contains("  1 commit with measurements\n  2 unique measurements\n"));
    assert!(text.contains("  - alpha\n  - zeta\n"));
}

#[test]
fn reset_keeps_the_new_write_ref() {
    let refs = vec![
        "refs/notes/perf-v3-write-aaaa".to_string(),
        "refs/notes/perf-v3-write-new".to_string(),
        "refs/notes/perf-v3-write-bbbb".to_string(),
    ];
    let del = refs_to_delete(&refs, "refs/notes/perf-v3-write-new");
    assert_eq!(del, vec!["refs/notes/perf-v3-write-aaaa", "refs/notes/perf-v3-write-bbbb"]);
}

#[test]
fn reset_plan_counts_pending_measurements() {
    let (a, b) = (line("a"), line("b"));
    let pending = vec![vec![a.clone(), b.clone()], vec![], vec!["junk".to_string()], vec![a.clone()]];
    assert_eq!(count_all_pending_measurements(&pending), (3, 2));
    let refs = vec!["r1".to_string(), "new".to_string()];
    let plan = plan_reset(&refs, "new", &pending);
    assert_eq!(plan.refs_to_delete, vec!["r1".to_string()]);
    assert_eq!((plan.measurement_count, plan.commit_count), (3, 2));
    let nothing = plan_reset(&["new".to_string()], "new", &pending);
    assert!(nothing.refs_to_delete.is_empty());
    assert_eq!((nothing.measurement_count, nothing.commit_count), (0, 0));
}

#[test]
fn reset_plan_description() {
    let plan = ResetPlan { refs_to_delete: vec!["r".to_string()], measurement_count: 1, commit_count: 2 };
    assert_eq!(
        display_reset_plan(&plan),
        "Will reset:\n  1 write ref\n  1 measurement\n  2 commits with measurements\n"
    );
}

#[test]
fn confirmation_answers() {
    assert!(is_confirmation("y\n"));
    assert!(is_confirmation("  YES "));
    assert!(is_confirmation("Yes"));
    assert!(!is_confirmation("no"));
    assert!(!is_confirmation(""));
    assert!(!is_confirmation("yess"));
}
