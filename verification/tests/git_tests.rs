use git_perf::git::{
    check_git_version, concat_version, get_head_revision, is_shallow_repo, is_transient,
    map_git_error, parse_git_version, version_too_old_message, GitError, GitOutput,
    GitVersionError, VersionParseError,
};

fn exec_error(stderr: &str) -> GitError {
    GitError::ExecError {
        command: "test".to_string(),
        output: GitOutput {
            stdout: String::new(),
            stderr: stderr.to_string(),
        },
    }
}

#[test]
fn test_parse_git_version() {
    let version = parse_git_version("git version 2.52.0");
    assert_eq!(version.unwrap(), (2, 52, 0));

    let version = parse_git_version("git version 2.52.0\n");
    assert_eq!(version.unwrap(), (2, 52, 0));
}

#[test]
fn parse_git_version_errors() {
    assert_eq!(parse_git_version("git version"), Err(VersionParseError::MissingVersion));
    assert_eq!(parse_git_version("git version 2.52"), Err(VersionParseError::NotSemantic));
    assert_eq!(parse_git_version("git version 2.x.0"), Err(VersionParseError::InvalidNumber));
    assert_eq!(parse_git_version("git version 2.45.1.windows"), Err(VersionParseError::NotSemantic));
}

#[test]
fn check_git_version_boundaries() {
    assert!(check_git_version("git version 2.43.0").is_ok());
    assert!(check_git_version("git version 2.44.0").is_ok());
    assert!(check_git_version("git version 2.45.0").is_ok());
    assert!(check_git_version("git version 3.0.0").is_ok());
    match check_git_version("git version 2.42.9") {
        Err(GitVersionError::TooOld { major, minor, patch }) => assert_eq!((major, minor, patch), (2, 42, 9)),
        _ => panic!("expected too old"),
    }
    assert!(matches!(check_git_version("nonsense"), Err(GitVersionError::Unreadable(_))));
    assert_eq!(concat_version((2, -1, 0)), "2.-1.0");
    assert_eq!(version_too_old_message((2, 42, 0)), "Version 2.42.0 is smaller than 2.43.0");
}

#[test]
fn test_map_git_error_ref_failed_to_lock() {
    let mapped = map_git_error(exec_error("fatal: cannot lock ref 'refs/heads/main': Unable to create lock"));
    assert!(matches!(mapped, GitError::RefFailedToLock { .. }));
}

#[test]
fn test_map_git_error_ref_concurrent_modification() {
    let mapped = map_git_error(exec_error("fatal: ref updates forbidden, but expected commit abc123"));
    assert!(matches!(mapped, GitError::RefConcurrentModification { .. }));
}

#[test]
fn test_map_git_error_no_remote_measurements() {
    let mapped = map_git_error(exec_error("fatal: couldn't find remote ref refs/notes/measurements"));
    assert!(matches!(mapped, GitError::NoRemoteMeasurements { .. }));
}

#[test]
fn test_map_git_error_bad_object() {
    let mapped = map_git_error(exec_error("error: bad object abc123def456"));
    assert!(matches!(mapped, GitError::BadObject { .. }));
}

#[test]
fn test_map_git_error_unmapped() {
    let mapped = map_git_error(exec_error("fatal: some other error"));
    assert!(matches!(mapped, GitError::ExecError { .. }));
}

#[test]
fn test_map_git_error_false_positive_avoidance() {
    let mapped = map_git_error(exec_error("this message mentions 'lock' without the full pattern"));
    assert!(matches!(mapped, GitError::ExecError { .. }));
}

#[test]
fn test_map_git_error_cannot_lock_ref_pattern_must_match() {
    let test_cases = vec![
        ("fatal: cannot lock ref 'refs/heads/main'", true),
        ("error: cannot lock ref update", true),
        ("fatal: failed to lock something", false),
        ("error: lock failed", false),
    ];
    for (stderr_msg, should_map) in test_cases {
        let mapped = map_git_error(exec_error(stderr_msg));
        if should_map {
            assert!(matches!(mapped, GitError::RefFailedToLock { .. }), "Expected RefFailedToLock for: {}", stderr_msg);
        } else {
            assert!(matches!(mapped, GitError::ExecError { .. }), "Expected ExecError for: {}", stderr_msg);
        }
    }
}

#[test]
fn test_map_git_error_but_expected_pattern_must_match() {
    let test_cases = vec![
        ("fatal: but expected commit abc123", true),
        ("error: ref update failed but expected something", true),
        ("fatal: expected something", false),
        ("error: only mentioned the word but", false),
    ];
    for (stderr_msg, should_map) in test_cases {
        let mapped = map_git_error(exec_error(stderr_msg));
        if should_map {
            assert!(matches!(mapped, GitError::RefConcurrentModification { .. }), "Expected RefConcurrentModification for: {}", stderr_msg);
        } else {
            assert!(matches!(mapped, GitError::ExecError { .. }), "Expected ExecError for: {}", stderr_msg);
        }
    }
}

#[test]
fn non_exec_errors_stay_unchanged() {
    assert!(matches!(map_git_error(GitError::ShallowRepository), GitError::ShallowRepository));
    assert!(is_transient(&GitError::RefFailedToLock { output: GitOutput { stdout: String::new(), stderr: String::new() } }));
    assert!(!is_transient(&GitError::MissingMeasurements));
}

#[test]
fn head_revision_and_shallow_output() {
    let out = GitOutput { stdout: "  abc123\n".to_string(), stderr: String::new() };
    assert_eq!(get_head_revision(Ok(out)).unwrap(), "abc123");
    match get_head_revision(Err(GitError::NoUpstream)) {
        Err(GitError::MissingHead { reference }) => assert_eq!(reference, "HEAD"),
        _ => panic!("expected missing head"),
    }
    let t = GitOutput { stdout: "true\n".to_string(), stderr: String::new() };
    assert!(is_shallow_repo(Ok(t)).unwrap());
    let f = GitOutput { stdout: "false\n".to_string(), stderr: String::new() };
    assert!(!is_shallow_repo(Ok(f)).unwrap());
}
