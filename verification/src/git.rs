//! What git-perf reads from and writes to git: classification of git's
//! error output, the version check, and the parsing of the output of the
//! git commands that git-perf runs. Running git is left to the caller,
//! which hands over what git printed.
use vstd::prelude::*;
use crate::num::{decimal_signed, parse_i32, parse_i64, parse_signed, push_decimal_signed};
use crate::serialization::join;
use crate::text::{strs, 
    chars_of, contains_chars, contains_seq, eq_chars, lines_chars, lines_of, slice_range,
    split_chars, split_on, starts_with, starts_with_chars, string_of, trim, trim_chars, words,
    words_chars,
};

verus! {

/// Oldest git version that git-perf supports.
pub const EXPECTED_VERSION: (i32, i32, i32) = (2, 43, 0);

/// The main notes ref where performance measurements are stored.
pub const REFS_NOTES_BRANCH: &'static str = "refs/notes/perf-v3";

/// Symbolic ref pointing at the current write target for measurements.
pub const REFS_NOTES_WRITE_SYMBOLIC_REF: &'static str = "refs/notes/perf-v3-write";

/// Prefix of the write target refs.
pub const REFS_NOTES_WRITE_TARGET_PREFIX: &'static str = "refs/notes/perf-v3-write-";

/// Prefix of the temporary refs used when adding measurements.
pub const REFS_NOTES_ADD_TARGET_PREFIX: &'static str = "refs/notes/perf-v3-add-";

/// Prefix of the temporary refs used when rewriting measurements.
pub const REFS_NOTES_REWRITE_TARGET_PREFIX: &'static str = "refs/notes/perf-v3-rewrite-";

/// Prefix of the temporary refs used while merging.
pub const REFS_NOTES_MERGE_BRANCH_PREFIX: &'static str = "refs/notes/perf-v3-merge-";

/// Prefix of the temporary refs from which measurements are read.
pub const REFS_NOTES_READ_PREFIX: &'static str = "refs/notes/perf-v3-read-";

/// The default remote of git-perf.
pub const GIT_PERF_REMOTE: &'static str = "git-perf-origin";

/// The standard git remote.
pub const GIT_ORIGIN: &'static str = "origin";

/// The object id that git uses for "no object".
pub const EMPTY_OID: &'static str = "0000000000000000000000000000000000000000";

/// What a git command printed.
#[derive(Debug, Clone)]
pub struct GitOutput {
    pub stdout: String,
    pub stderr: String,
}

/// The ways in which a git operation fails.
#[derive(Debug, Clone)]
pub enum GitError {
    RefFailedToPush { output: GitOutput },
    MissingHead { reference: String },
    RefFailedToLock { output: GitOutput },
    ShallowRepository,
    MissingMeasurements,
    RefConcurrentModification { output: GitOutput },
    ExecError { command: String, output: GitOutput },
    NoRemoteMeasurements { output: GitOutput },
    NoUpstream,
    BadObject { output: GitOutput },
    /// Git could not be started or talked to; the text describes why.
    IoError(String),
}

/// The classification of a failed git invocation by what git wrote to
/// stderr; other errors stay as they are.
pub open spec fn map_git_error_spec(err: GitError) -> GitError {
    match err {
        GitError::ExecError { command, output } => {
            if contains_seq(output.stderr@, "cannot lock ref"@) {
                GitError::RefFailedToLock { output }
            } else if contains_seq(output.stderr@, "but expected"@) {
                GitError::RefConcurrentModification { output }
            } else if contains_seq(output.stderr@, "find remote ref"@) {
                GitError::NoRemoteMeasurements { output }
            } else if contains_seq(output.stderr@, "bad object"@) {
                GitError::BadObject { output }
            } else {
                GitError::ExecError { command, output }
            }
        },
        _ => err,
    }
}

fn str_contains(haystack: &String, needle: &str) -> (b: bool)
    ensures
        b == contains_seq(haystack@, needle@),
{
    let h = chars_of(haystack.as_str());
    let n = chars_of(needle);
    contains_chars(h.as_slice(), n.as_slice())
}

/// Recognizes the failures of git that git-perf treats specially, from the
/// text that git wrote to stderr.
pub fn map_git_error(err: GitError) -> (r: GitError)
    ensures
        r == map_git_error_spec(err),
{
    match err {
        GitError::ExecError { command, output } => {
            if str_contains(&output.stderr, "cannot lock ref") {
                GitError::RefFailedToLock { output }
            } else if str_contains(&output.stderr, "but expected") {
                GitError::RefConcurrentModification { output }
            } else if str_contains(&output.stderr, "find remote ref") {
                GitError::NoRemoteMeasurements { output }
            } else if str_contains(&output.stderr, "bad object") {
                GitError::BadObject { output }
            } else {
                GitError::ExecError { command, output }
            }
        },
        other => other,
    }
}

/// Whether an operation that failed with `e` is worth retrying: failures
/// caused by concurrent ref updates are, all others are permanent.
pub open spec fn is_transient_spec(e: GitError) -> bool {
    match e {
        GitError::RefFailedToPush { .. } | GitError::RefFailedToLock { .. }
        | GitError::RefConcurrentModification { .. } | GitError::BadObject { .. } => true,
        _ => false,
    }
}

/// Whether a failure with `e` is retried with backoff.
pub fn is_transient(e: &GitError) -> (b: bool)
    ensures
        b == is_transient_spec(*e),
{
    match e {
        GitError::RefFailedToPush { .. } | GitError::RefFailedToLock { .. }
        | GitError::RefConcurrentModification { .. } | GitError::BadObject { .. } => true,
        _ => false,
    }
}

/// Which failures are retried: a rejected push, a ref that could not be
/// locked, a ref changed concurrently and a bad object come from another
/// writer racing this one and are retried; every other failure is permanent.
/// A failed git command whose error output reports a lock failure is
/// retried once classified.
pub proof fn lemma_retry_classification(output: GitOutput, command: String, reference: String, io: String)
    ensures
        is_transient_spec(GitError::RefFailedToPush { output }),
        is_transient_spec(GitError::RefFailedToLock { output }),
        is_transient_spec(GitError::RefConcurrentModification { output }),
        is_transient_spec(GitError::BadObject { output }),
        !is_transient_spec(GitError::ExecError { command, output }),
        !is_transient_spec(GitError::NoRemoteMeasurements { output }),
        !is_transient_spec(GitError::MissingHead { reference }),
        !is_transient_spec(GitError::IoError(io)),
        !is_transient_spec(GitError::ShallowRepository),
        !is_transient_spec(GitError::MissingMeasurements),
        !is_transient_spec(GitError::NoUpstream),
        contains_seq(output.stderr@, "cannot lock ref"@) ==> is_transient_spec(
            map_git_error_spec(GitError::ExecError { command, output }),
        ),
{
}

/// The trimmed standard output of a successful git command.
pub fn trimmed_stdout(output: &GitOutput) -> (r: String)
    ensures
        r@ == trim(output.stdout@),
{
    let c = chars_of(output.stdout.as_str());
    let t = trim_chars(c.as_slice());
    string_of(t.as_slice())
}

/// The full object id that `git rev-parse --verify -q <reference>` printed;
/// a failed lookup means the reference is missing.
pub fn git_rev_parse(reference: &str, result: Result<GitOutput, GitError>) -> (r: Result<
    String,
    GitError,
>)
    ensures
        match result {
            Ok(o) => r matches Ok(s) && s@ == trim(o.stdout@),
            Err(_) => r matches Err(GitError::MissingHead { reference: name }) && name@ == reference@,
        },
{
    match result {
        Ok(o) => Ok(trimmed_stdout(&o)),
        Err(_) => Err(GitError::MissingHead { reference: string_of(chars_of(reference).as_slice()) }),
    }
}

/// The revision of HEAD, from the result of `git rev-parse --verify -q HEAD`.
pub fn get_head_revision(result: Result<GitOutput, GitError>) -> (r: Result<String, GitError>)
    ensures
        match result {
            Ok(o) => r matches Ok(s) && s@ == trim(o.stdout@),
            Err(_) => r matches Err(GitError::MissingHead { reference: name }) && name@ == "HEAD"@,
        },
{
    git_rev_parse("HEAD", result)
}

/// The full hash of a committish, from the result of
/// `git rev-parse --verify -q <committish>`.
pub fn resolve_committish(committish: &str, result: Result<GitOutput, GitError>) -> (r: Result<
    String,
    GitError,
>)
    ensures
        match result {
            Ok(o) => r matches Ok(s) && s@ == trim(o.stdout@),
            Err(_) => r matches Err(GitError::MissingHead { reference: name }) && name@ == committish@,
        },
{
    git_rev_parse(committish, result)
}

/// Whether the repository is shallow, from the result of
/// `git rev-parse --is-shallow-repository`.
pub fn is_shallow_repo(result: Result<GitOutput, GitError>) -> (r: Result<bool, GitError>)
    ensures
        match result {
            Ok(o) => r == Ok::<bool, GitError>(starts_with(o.stdout@, "true"@)),
            Err(e) => r == Err::<bool, GitError>(e),
        },
{
    match result {
        Ok(o) => {
            let out = chars_of(o.stdout.as_str());
            let t = chars_of("true");
            Ok(starts_with_chars(out.as_slice(), t.as_slice()))
        },
        Err(e) => Err(e),
    }
}

/// The repository root, from the result of `git rev-parse --show-toplevel`.
pub fn get_repository_root(result: Result<GitOutput, GitError>) -> (r: Result<String, GitError>)
    ensures
        match result {
            Ok(o) => r matches Ok(s) && s@ == trim(o.stdout@),
            Err(e) => r == Err::<String, GitError>(e),
        },
{
    match result {
        Ok(o) => Ok(trimmed_stdout(&o)),
        Err(e) => Err(e),
    }
}

/// An `i32` written in decimal, as `str::parse` reads it.
pub open spec fn parse_i32_spec(s: Seq<char>) -> Option<int> {
    parse_signed(s, 10, i32::MAX as nat, 0x8000_0000)
}

/// The version that `git --version` printed: its third word, made of exactly
/// three `.`-separated integers.
pub open spec fn parse_git_version_spec(version: Seq<char>) -> Option<(int, int, int)> {
    let w = words(version);
    if w.len() < 3 {
        None
    } else {
        let parts = split_on(w[2], '.');
        if parts.len() != 3 {
            None
        } else {
            match (parse_i32_spec(parts[0]), parse_i32_spec(parts[1]), parse_i32_spec(parts[2])) {
                (Some(a), Some(b), Some(c)) => Some((a, b, c)),
                _ => None,
            }
        }
    }
}

/// Why a version string was refused.
#[derive(Debug, Clone, Copy, PartialEq, Eq)]
pub enum VersionParseError {
    /// There is no third word, where git prints the version.
    MissingVersion,
    /// The version does not have exactly three `.`-separated parts.
    NotSemantic,
    /// A part of the version is not an `i32`.
    InvalidNumber,
}

/// Reads the version that `git --version` printed.
pub fn parse_git_version(version: &str) -> (r: Result<(i32, i32, i32), VersionParseError>)
    ensures
        match r {
            Ok((a, b, c)) => parse_git_version_spec(version@) == Some((a as int, b as int, c as int)),
            Err(VersionParseError::MissingVersion) => words(version@).len() < 3,
            Err(VersionParseError::NotSemantic) => words(version@).len() >= 3 && split_on(
                words(version@)[2],
                '.',
            ).len() != 3,
            Err(VersionParseError::InvalidNumber) => words(version@).len() >= 3 && split_on(
                words(version@)[2],
                '.',
            ).len() == 3 && parse_git_version_spec(version@) is None,
        },
        r is Err <==> parse_git_version_spec(version@) is None,
{
    let cs = chars_of(version);
    let w = words_chars(cs.as_slice());
    if w.len() < 3 {
        return Err(VersionParseError::MissingVersion);
    }
    let parts = split_chars(w[2].as_slice(), '.');
    if parts.len() != 3 {
        return Err(VersionParseError::NotSemantic);
    }
    let a = parse_i32(parts[0].as_slice());
    let b = parse_i32(parts[1].as_slice());
    let c = parse_i32(parts[2].as_slice());
    match (a, b, c) {
        (Some(a), Some(b), Some(c)) => Ok((a, b, c)),
        _ => Err(VersionParseError::InvalidNumber),
    }
}

/// Lexicographic order of version triples.
pub open spec fn version_lt(a: (int, int, int), b: (int, int, int)) -> bool {
    a.0 < b.0 || (a.0 == b.0 && (a.1 < b.1 || (a.1 == b.1 && a.2 < b.2)))
}

/// Whether version `a` is older than version `b`.
pub fn version_less(a: (i32, i32, i32), b: (i32, i32, i32)) -> (r: bool)
    ensures
        r == version_lt((a.0 as int, a.1 as int, a.2 as int), (b.0 as int, b.1 as int, b.2 as int)),
{
    a.0 < b.0 || (a.0 == b.0 && (a.1 < b.1 || (a.1 == b.1 && a.2 < b.2)))
}

/// A version written as `major.minor.patch`.
pub open spec fn concat_version_spec(v: (int, int, int)) -> Seq<char> {
    decimal_signed(v.0) + seq!['.'] + decimal_signed(v.1) + seq!['.'] + decimal_signed(v.2)
}

/// Writes a version as `major.minor.patch`.
pub fn concat_version(version_tuple: (i32, i32, i32)) -> (r: String)
    ensures
        r@ == concat_version_spec(
            (version_tuple.0 as int, version_tuple.1 as int, version_tuple.2 as int),
        ),
{
    let mut out: Vec<char> = Vec::new();
    push_decimal_signed(&mut out, version_tuple.0 as i64);
    out.push('.');
    push_decimal_signed(&mut out, version_tuple.1 as i64);
    out.push('.');
    push_decimal_signed(&mut out, version_tuple.2 as i64);
    string_of(out.as_slice())
}

/// Why the installed git is not usable.
#[derive(Debug, Clone)]
pub enum GitVersionError {
    /// `git --version` could not be run.
    Unavailable(GitError),
    /// The output of `git --version` could not be read.
    Unreadable(VersionParseError),
    /// The installed version, older than [`EXPECTED_VERSION`].
    TooOld { major: i32, minor: i32, patch: i32 },
}

/// Checks that the output of `git --version` names a version at least as
/// new as [`EXPECTED_VERSION`].
pub fn check_git_version(version_output: &str) -> (r: Result<(), GitVersionError>)
    ensures
        match parse_git_version_spec(version_output@) {
            None => r matches Err(GitVersionError::Unreadable(_)),
            Some(v) => if version_lt(v, (2, 43, 0)) {
                r matches Err(GitVersionError::TooOld { major, minor, patch }) && (
                major as int,
                minor as int,
                patch as int,
            ) == v
            } else {
                r is Ok
            },
        },
{
    match parse_git_version(version_output) {
        Err(e) => Err(GitVersionError::Unreadable(e)),
        Ok(v) => {
            if version_less(v, EXPECTED_VERSION) {
                Err(GitVersionError::TooOld { major: v.0, minor: v.1, patch: v.2 })
            } else {
                Ok(())
            }
        },
    }
}

/// The message for a version that is too old.
pub fn version_too_old_message(found: (i32, i32, i32)) -> (r: String)
    ensures
        r@ == "Version "@ + concat_version_spec((found.0 as int, found.1 as int, found.2 as int))
            + " is smaller than "@ + concat_version_spec((2, 43, 0)),
{
    let a = concat_version(found);
    let b = concat_version(EXPECTED_VERSION);
    let out = chars_of("Version ");
    let ac = chars_of(a.as_str());
    let bc = chars_of(b.as_str());
    let mid = chars_of(" is smaller than ");
    let mut all: Vec<char> = Vec::new();
    append(&mut all, out.as_slice());
    append(&mut all, ac.as_slice());
    append(&mut all, mid.as_slice());
    append(&mut all, bc.as_slice());
    string_of(all.as_slice())
}

/// What running git with `args` gave: what it printed, and whether it exited
/// successfully. A failure carries the arguments joined with spaces.
pub fn capture_git_output(args: &[String], stdout: String, stderr: String, success: bool) -> (r:
    Result<GitOutput, GitError>)
    ensures
        success ==> (r matches Ok(o) && o.stdout@ == stdout@ && o.stderr@ == stderr@),
        !success ==> (r matches Err(GitError::ExecError { command, output }) && command@ == join(
            strs(args@),
            " "@,
        ) && output.stdout@ == stdout@ && output.stderr@ == stderr@),
{
    let output = GitOutput { stdout, stderr };
    if success {
        return Ok(output);
    }
    let ghost parts = strs(args@);
    let mut cmd: Vec<char> = Vec::new();
    let mut i: usize = 0;
    while i < args.len()
        invariant
            i <= args@.len(),
            parts == strs(args@),
            cmd@ == join(parts.take(i as int), " "@),
        decreases args@.len() - i,
    {
        let ghost before = cmd@;
        if i > 0 {
            cmd.push(' ');
        }
        let a = chars_of(args[i].as_str());
        append(&mut cmd, a.as_slice());
        proof {
            reveal_strlit(" ");
            assert(parts.take(i + 1).drop_last() =~= parts.take(i as int));
            assert(parts.take(i + 1).last() == parts[i as int]);
            if i == 0 {
                assert(parts.take(1) =~= seq![parts[0]]);
                assert(cmd@ =~= parts[0]);
            } else {
                assert(cmd@ =~= before + " "@ + parts[i as int]);
            }
        }
        i = i + 1;
    }
    proof {
        assert(parts.take(args@.len() as int) =~= parts);
    }
    Err(GitError::ExecError { command: string_of(cmd.as_slice()), output })
}

/// The revision of HEAD, from the result of `git rev-parse --verify -q HEAD`.
pub fn internal_get_head_revision(result: Result<GitOutput, GitError>) -> (r: Result<String, GitError>)
    ensures
        match result {
            Ok(o) => r matches Ok(s) && s@ == trim(o.stdout@),
            Err(_) => r matches Err(GitError::MissingHead { reference: name }) && name@ == "HEAD"@,
        },
{
    git_rev_parse("HEAD", result)
}

/// The URL of a remote, from the result of `git remote get-url <remote>`;
/// none where the remote does not exist.
pub fn get_git_perf_remote(result: Result<GitOutput, GitError>) -> (r: Option<String>)
    ensures
        match result {
            Ok(o) => r matches Some(s) && s@ == trim(o.stdout@),
            Err(_) => r is None,
        },
{
    match result {
        Ok(o) => Some(trimmed_stdout(&o)),
        Err(_) => None,
    }
}

/// The result of `git remote add <remote> <url>`.
pub fn set_git_perf_remote(result: Result<GitOutput, GitError>) -> (r: Result<(), GitError>)
    ensures
        match result {
            Ok(_) => r is Ok,
            Err(e) => r == Err::<(), GitError>(e),
        },
{
    match result {
        Ok(_) => Ok(()),
        Err(e) => Err(e),
    }
}

/// The result of `git update-ref --no-deref --stdin`, with its failures
/// classified.
pub fn git_update_ref(result: Result<GitOutput, GitError>) -> (r: Result<(), GitError>)
    ensures
        match result {
            Ok(_) => r is Ok,
            Err(e) => r == Err::<(), GitError>(map_git_error_spec(e)),
        },
{
    match result {
        Ok(_) => Ok(()),
        Err(e) => Err(map_git_error(e)),
    }
}

/// The target of a symbolic ref, from the result of
/// `git symbolic-ref -q <reference>`; none where it is not a symbolic ref.
pub fn git_rev_parse_symbolic_ref(result: Result<GitOutput, GitError>) -> (r: Option<String>)
    ensures
        match result {
            Ok(o) => r matches Some(s) && s@ == trim(o.stdout@),
            Err(_) => r is None,
        },
{
    get_git_perf_remote(result)
}

/// The result of `git symbolic-ref <reference> <target>`, with its failures
/// classified.
pub fn git_symbolic_ref_create_or_update(result: Result<GitOutput, GitError>) -> (r: Result<
    (),
    GitError,
>)
    ensures
        match result {
            Ok(_) => r is Ok,
            Err(e) => r == Err::<(), GitError>(map_git_error_spec(e)),
        },
{
    git_update_ref(result)
}

/// The installed version of git, from the result of `git --version`.
pub fn get_git_version(result: Result<GitOutput, GitError>) -> (r: Result<
    (i32, i32, i32),
    GitVersionError,
>)
    ensures
        match result {
            Ok(o) => match parse_git_version_spec(o.stdout@) {
                Some(v) => r matches Ok(t) && (t.0 as int, t.1 as int, t.2 as int) == v,
                None => r matches Err(GitVersionError::Unreadable(_)),
            },
            Err(e) => r matches Err(GitVersionError::Unavailable(f)) && f == e,
        },
{
    match result {
        Ok(o) => match parse_git_version(o.stdout.as_str()) {
            Ok(v) => Ok(v),
            Err(e) => Err(GitVersionError::Unreadable(e)),
        },
        Err(e) => Err(GitVersionError::Unavailable(e)),
    }
}

/// Appends `s` to `out`.
pub fn append(out: &mut Vec<char>, s: &[char])
    ensures
        final(out)@ == old(out)@ + s@,
{
    let mut i: usize = 0;
    while i < s.len()
        invariant
            i <= s@.len(),
            out@ == old(out)@ + s@.take(i as int),
        decreases s@.len() - i,
    {
        out.push(s[i]);
        i = i + 1;
        assert(out@ =~= old(out)@ + s@.take(i as int));
    }
    assert(s@.take(s@.len() as int) =~= s@);
}

} // verus!
