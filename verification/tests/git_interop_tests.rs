use git_perf::git::{GitError, GitOutput};
use git_perf::git_interop::{
    check_push_has_measurements, commits_older_than, consolidate_commands, create_ref_commands,
    create_temp_ref_name, delete_refs_commands, ensure_remote_exists, git_push_notes_ref,
    list_commits_with_measurements, parse_log, parse_refs, push_succeeded, refs_to_merge,
    remove_reference_commands, update_ref_commands, walk_commits, Reference, RemoteSetup, WalkError,
};

fn reference(name: &str, oid: &str) -> Reference {
    Reference { refname: name.to_string(), oid: oid.to_string() }
}

#[test]
fn parse_refs_reads_name_and_object() {
    let refs = parse_refs("refs/notes/perf-v3-write-a\0abc123\nrefs/notes/perf-v3-write-b\0def456");
    assert_eq!(refs.len(), 2);
    assert_eq!(refs[0].refname, "refs/notes/perf-v3-write-a");
    assert_eq!(refs[0].oid, "abc123");
    assert_eq!(refs[1].refname, "refs/notes/perf-v3-write-b");
    assert_eq!(refs[1].oid, "def456");
    assert!(parse_refs("").is_empty());
}

#[test]
fn refs_to_merge_leaves_out_the_exception() {
    let refs = vec![reference("refs/a", "1"), reference("refs/b", "2"), reference("refs/c", "3")];
    let kept = refs_to_merge(refs.clone(), Some("refs/b"));
    let names: Vec<&str> = kept.iter().map(|r| r.refname.as_str()).collect();
    assert_eq!(names, vec!["refs/a", "refs/c"]);
    assert_eq!(refs_to_merge(refs, None).len(), 3);
}

#[test]
fn parse_log_groups_note_lines_by_commit() {
    let log = "--,aaa,HEAD -> master\nm1 1 x\nm2 2 y\n--,bbb,\n--,ccc,grafted\nm3 3 z";
    let (commits, shallow) = parse_log(log);
    assert_eq!(commits.len(), 3);
    assert_eq!(commits[0].commit, "aaa");
    assert_eq!(commits[0].lines, vec!["m1 1 x".to_string(), "m2 2 y".to_string()]);
    assert_eq!(commits[1].commit, "bbb");
    assert!(commits[1].lines.is_empty());
    assert_eq!(commits[2].lines, vec!["m3 3 z".to_string()]);
    assert!(shallow);
}

#[test]
fn walk_commits_refuses_a_short_grafted_history() {
    let log = "--,aaa,\n--,bbb,grafted";
    assert_eq!(walk_commits(log, 5).unwrap_err(), WalkError::ShallowClone);
    assert_eq!(walk_commits(log, 2).unwrap().len(), 2);
    let complete = "--,aaa,\n--,bbb,";
    assert_eq!(walk_commits(complete, 5).unwrap().len(), 2);
}

#[test]
fn notes_list_gives_annotated_objects() {
    let listing = "n1 c1\nn2 c2\n\nlonely";
    assert_eq!(list_commits_with_measurements(listing), vec!["c1".to_string(), "c2".to_string()]);
}

#[test]
fn commits_older_than_compares_commit_times() {
    let log = "c1 100\nc2 200\nc3 300\nbroken\nc4 notanumber";
    assert_eq!(commits_older_than(log, 200), vec!["c1".to_string(), "c2".to_string()]);
    assert!(commits_older_than(log, 50).is_empty());
}

#[test]
fn push_succeeded_reads_porcelain_output() {
    assert!(push_succeeded("To origin\n \trefs/notes/perf-v3:refs/notes/perf-v3\t[new]\nDone"));
    assert!(!push_succeeded("To origin\n!\trefs/notes/perf-v3:refs/notes/perf-v3\t[rejected]\nDone"));
    assert!(!push_succeeded(""));
}

#[test]
fn git_push_notes_ref_accepts_reported_updates() {
    let out = GitOutput { stdout: " \trefs/notes/perf-v3:refs/notes/perf-v3\tok".to_string(), stderr: String::new() };
    let err = GitError::ExecError { command: "push".to_string(), output: out };
    assert!(git_push_notes_ref(Err(err)).is_ok());
    let bad = GitOutput { stdout: "nothing".to_string(), stderr: "error".to_string() };
    let err = GitError::ExecError { command: "push".to_string(), output: bad };
    assert!(matches!(git_push_notes_ref(Err(err)), Err(GitError::RefFailedToPush { .. })));
    assert!(matches!(git_push_notes_ref(Err(GitError::NoUpstream)), Err(GitError::NoUpstream)));
    let ok = GitOutput { stdout: String::new(), stderr: String::new() };
    assert!(git_push_notes_ref(Ok(ok)).is_ok());
}

#[test]
fn push_without_measurements_is_refused() {
    assert!(matches!(
        check_push_has_measurements(0, "0000000000000000000000000000000000000000"),
        Err(GitError::MissingMeasurements)
    ));
    assert!(check_push_has_measurements(1, "0000000000000000000000000000000000000000").is_ok());
    assert!(check_push_has_measurements(0, "abc").is_ok());
}

#[test]
fn delete_refs_commands_guard_each_ref() {
    let refs = vec![reference("refs/a", "1"), reference("refs/b", "2")];
    assert_eq!(delete_refs_commands(&refs), "start\ndelete refs/a 1\ndelete refs/b 2\ncommit\n");
    assert_eq!(delete_refs_commands(&[]), "start\ncommit\n");
}

#[test]
fn temp_ref_name_has_eight_hex_digits() {
    assert_eq!(create_temp_ref_name("refs/notes/perf-v3-write-", 0xab), "refs/notes/perf-v3-write-000000ab");
    assert_eq!(create_temp_ref_name("p", u32::MAX), "pffffffff");
}

#[test]
fn remote_setup_follows_origin() {
    assert_eq!(ensure_remote_exists(Some("u".to_string()), None).unwrap(), RemoteSetup::Present);
    assert_eq!(
        ensure_remote_exists(None, Some("git@host:r".to_string())).unwrap(),
        RemoteSetup::AddFrom("git@host:r".to_string())
    );
    assert!(matches!(ensure_remote_exists(None, None), Err(GitError::NoUpstream)));
}

#[test]
fn update_ref_scripts_are_unindented() {
    assert_eq!(create_ref_commands("T", "H"), "start\ncreate T H\ncommit\n");
    assert_eq!(update_ref_commands("T", "N", "O"), "start\nupdate T N O\ncommit\n");
    assert_eq!(remove_reference_commands("R"), "start\ndelete R\ncommit\n");
    assert_eq!(
        consolidate_commands("U", "T"),
        "start\nverify refs/notes/perf-v3 U\nupdate T U 0000000000000000000000000000000000000000\ncommit\n"
    );
}

#[test]
fn test_random_suffix() {
    for _ in 1..1000 {
        let first = create_temp_ref_name("", rand::random::<u32>());
        let second = create_temp_ref_name("", rand::random::<u32>());
        let all_hex = |s: &String| s.chars().all(|c| c.is_ascii_hexdigit());
        assert_ne!(first, second);
        assert_eq!(first.len(), 8);
        assert_eq!(second.len(), 8);
        assert!(all_hex(&first));
        assert!(all_hex(&second));
    }
}
