//! The parts of the exchange with git that decide: reading what git printed
//! about refs, notes and history, deciding whether a push went through, and
//! writing the commands that `git update-ref --stdin` is fed.
use vstd::prelude::*;
use crate::git::{GitError, GitOutput, append, is_transient_spec};
use crate::num::{hex_padded, hex_padded_chars, parse_i64, parse_signed};
use crate::serialization::join;
use crate::status::CommitNotes;
use crate::text::{
    chars_of, contains_chars, contains_seq, copy_str, eq_chars, eq_str, lines_chars, lines_of,
    push_str, split_chars, split_on, starts_with, string_of, strs, words, words_chars,
};

verus! {

/// A ref and the object it points at.
#[derive(Debug, Clone)]
pub struct Reference {
    pub refname: String,
    pub oid: String,
}

/// Whether every line of `git for-each-ref --format=%(refname)%00%(objectname)`
/// output has the separator, as git writes it.
pub open spec fn refs_well_formed(stdout: Seq<char>) -> bool {
    forall|i: int|
        0 <= i < lines_of(stdout).len() ==> split_on(#[trigger] lines_of(stdout)[i], '\0').len()
            >= 2
}

/// The refs of `git for-each-ref --format=%(refname)%00%(objectname)`:
/// per line, the text before the first NUL and the text up to the next one.
pub fn parse_refs(stdout: &str) -> (r: Vec<Reference>)
    requires
        refs_well_formed(stdout@),
    ensures
        r@.len() == lines_of(stdout@).len(),
        forall|i: int|
            0 <= i < r@.len() ==> (#[trigger] r@[i]).refname@ == split_on(lines_of(stdout@)[i], '\0')[0]
                && r@[i].oid@ == split_on(lines_of(stdout@)[i], '\0')[1],
{
    let c = chars_of(stdout);
    let lines = lines_chars(c.as_slice());
    let mut out: Vec<Reference> = Vec::new();
    let mut i: usize = 0;
    while i < lines.len()
        invariant
            i <= lines@.len(),
            lines@.len() == lines_of(stdout@).len(),
            forall|k: int| 0 <= k < lines@.len() ==> #[trigger] lines@[k]@ == lines_of(stdout@)[k],
            refs_well_formed(stdout@),
            out@.len() == i,
            forall|k: int|
                0 <= k < i ==> (#[trigger] out@[k]).refname@ == split_on(lines_of(stdout@)[k], '\0')[0]
                    && out@[k].oid@ == split_on(lines_of(stdout@)[k], '\0')[1],
        decreases lines@.len() - i,
    {
        let items = split_chars(lines[i].as_slice(), '\0');
        proof {
            assert(split_on(lines_of(stdout@)[i as int], '\0').len() >= 2);
        }
        out.push(
            Reference {
                refname: string_of(items[0].as_slice()),
                oid: string_of(items[1].as_slice()),
            },
        );
        i = i + 1;
    }
    out
}

/// The refs whose name is not `except`; with no exception, those whose name
/// is not empty.
pub open spec fn refs_not_named(refs: Seq<(Seq<char>, Seq<char>)>, except: Seq<char>) -> Seq<
    (Seq<char>, Seq<char>),
>
    decreases refs.len(),
{
    if refs.len() == 0 {
        refs
    } else {
        let prev = refs_not_named(refs.drop_last(), except);
        if refs.last().0 != except {
            prev.push(refs.last())
        } else {
            prev
        }
    }
}

/// A reference as its name and object.
pub open spec fn ref_view(r: Reference) -> (Seq<char>, Seq<char>) {
    (r.refname@, r.oid@)
}

/// Keeps the write refs that get merged: all but `except_ref`.
pub fn refs_to_merge(refs: Vec<Reference>, except_ref: Option<&str>) -> (r: Vec<Reference>)
    ensures
        r@.map_values(|x: Reference| ref_view(x)) == refs_not_named(
            refs@.map_values(|x: Reference| ref_view(x)),
            match except_ref {
                Some(e) => e@,
                None => Seq::empty(),
            },
        ),
{
    let ghost ex = match except_ref {
        Some(e) => e@,
        None => Seq::<char>::empty(),
    };
    let except = match except_ref {
        Some(e) => e,
        None => "",
    };
    proof {
        reveal_strlit("");
        assert(except@ == ex);
    }
    let ghost rv = refs@.map_values(|x: Reference| ref_view(x));
    let mut out: Vec<Reference> = Vec::new();
    let mut i: usize = 0;
    while i < refs.len()
        invariant
            i <= refs@.len(),
            except@ == ex,
            rv == refs@.map_values(|x: Reference| ref_view(x)),
            out@.map_values(|x: Reference| ref_view(x)) == refs_not_named(rv.take(i as int), ex),
        decreases refs@.len() - i,
    {
        proof {
            assert(rv.take(i + 1).drop_last() =~= rv.take(i as int));
            assert(rv.take(i + 1).last() == ref_view(refs@[i as int]));
        }
        if !eq_str(refs[i].refname.as_str(), except) {
            let ghost before = out@.map_values(|x: Reference| ref_view(x));
            let c = refs[i].clone_ref();
            out.push(c);
            proof {
                assert(out@.map_values(|x: Reference| ref_view(x)) =~= before.push(
                    ref_view(refs@[i as int]),
                ));
            }
        }
        i = i + 1;
    }
    proof {
        assert(rv.take(refs@.len() as int) =~= rv);
    }
    out
}

impl Reference {
    /// A copy of this reference.
    pub fn clone_ref(&self) -> (r: Reference)
        ensures
            r.refname@ == self.refname@,
            r.oid@ == self.oid@,
    {
        Reference { refname: copy_str(self.refname.as_str()), oid: copy_str(self.oid.as_str()) }
    }
}

/// Whether a line of `git log --pretty=--,%H,%D%n%N` opens a commit.
pub open spec fn is_header(line: Seq<char>) -> bool {
    starts_with(line, "--"@)
}

/// Whether every header line has a commit hash after its first comma, as
/// git writes them.
pub open spec fn log_well_formed(stdout: Seq<char>) -> bool {
    forall|i: int|
        0 <= i < lines_of(stdout).len() && is_header(#[trigger] lines_of(stdout)[i]) ==> split_on(
            lines_of(stdout)[i],
            ',',
        ).len() >= 2
}

/// The commits read so far and whether a decoration marked the history as
/// grafted.
pub struct LogModel {
    pub commits: Seq<(Seq<char>, Seq<Seq<char>>)>,
    pub shallow: bool,
}

/// Reads the lines of the log: a header starts a commit with the hash after
/// its first comma; the other lines are note lines of the last commit, and
/// are dropped before the first header.
pub open spec fn log_model(lines: Seq<Seq<char>>) -> LogModel
    decreases lines.len(),
{
    if lines.len() == 0 {
        LogModel { commits: Seq::empty(), shallow: false }
    } else {
        let prev = log_model(lines.drop_last());
        let l = lines.last();
        if is_header(l) {
            let info = split_on(l, ',');
            LogModel {
                commits: prev.commits.push((info[1], Seq::empty())),
                shallow: prev.shallow || info.skip(2).contains("grafted"@),
            }
        } else if prev.commits.len() > 0 {
            let last = prev.commits.last();
            LogModel {
                commits: prev.commits.update(
                    prev.commits.len() - 1,
                    (last.0, last.1.push(l)),
                ),
                shallow: prev.shallow,
            }
        } else {
            prev
        }
    }
}

/// A commit with its note lines as plain values.
pub open spec fn commit_notes_view(c: CommitNotes) -> (Seq<char>, Seq<Seq<char>>) {
    (c.commit@, strs(c.lines@))
}

/// Whether one of `items` is `grafted`.
fn any_grafted(items: &Vec<Vec<char>>) -> (b: bool)
    requires
        items@.len() >= 2,
    ensures
        b == items@.map_values(|v: Vec<char>| v@).skip(2).contains("grafted"@),
{
    let g = chars_of("grafted");
    let ghost all = items@.map_values(|v: Vec<char>| v@);
    let mut i: usize = 2;
    while i < items.len()
        invariant
            2 <= i <= items@.len(),
            g@ == "grafted"@,
            all == items@.map_values(|v: Vec<char>| v@),
            forall|k: int| 2 <= k < i ==> all[k] != "grafted"@,
        decreases items@.len() - i,
    {
        if eq_chars(items[i].as_slice(), g.as_slice()) {
            proof {
                assert(all.skip(2)[i - 2] == all[i as int]);
            }
            return true;
        }
        i = i + 1;
    }
    proof {
        if all.skip(2).contains("grafted"@) {
            let k = choose|k: int| 0 <= k < all.skip(2).len() && all.skip(2)[k] == "grafted"@;
            assert(all.skip(2)[k] == all[k + 2]);
        }
    }
    false
}

/// Reads the output of
/// `git log --first-parent --pretty=--,%H,%D%n%N --notes=<ref>`: the commits
/// with their note lines, in order, and whether the history is grafted.
pub fn parse_log(stdout: &str) -> (r: (Vec<CommitNotes>, bool))
    requires
        log_well_formed(stdout@),
    ensures
        r.0@.map_values(|c: CommitNotes| commit_notes_view(c)) == log_model(lines_of(stdout@)).commits,
        r.1 == log_model(lines_of(stdout@)).shallow,
{
    let c = chars_of(stdout);
    let lines = lines_chars(c.as_slice());
    let ghost ls = lines_of(stdout@);
    let dashes = chars_of("--");
    let mut commits: Vec<CommitNotes> = Vec::new();
    let mut shallow = false;
    let mut i: usize = 0;
    while i < lines.len()
        invariant
            i <= lines@.len(),
            lines@.len() == ls.len(),
            ls == lines_of(stdout@),
            log_well_formed(stdout@),
            dashes@ == "--"@,
            forall|k: int| 0 <= k < lines@.len() ==> #[trigger] lines@[k]@ == ls[k],
            commits@.map_values(|c: CommitNotes| commit_notes_view(c)) == log_model(
                ls.take(i as int),
            ).commits,
            shallow == log_model(ls.take(i as int)).shallow,
        decreases lines@.len() - i,
    {
        let ghost before = commits@.map_values(|c: CommitNotes| commit_notes_view(c));
        proof {
            assert(ls.take(i + 1).drop_last() =~= ls.take(i as int));
            assert(ls.take(i + 1).last() == ls[i as int]);
            reveal_strlit("--");
        }
        let line = &lines[i];
        if crate::text::starts_with_chars(line.as_slice(), dashes.as_slice()) {
            let info = split_chars(line.as_slice(), ',');
            proof {
                assert(split_on(ls[i as int], ',').len() >= 2);
                assert(info@.map_values(|v: Vec<char>| v@) =~= split_on(ls[i as int], ','));
            }
            let grafted = any_grafted(&info);
            shallow = shallow || grafted;
            let entry = CommitNotes { commit: string_of(info[1].as_slice()), lines: Vec::new() };
            let ghost ev = commit_notes_view(entry);
            commits.push(entry);
            proof {
                assert(ev.1 =~= Seq::<Seq<char>>::empty());
                assert(commits@.map_values(|c: CommitNotes| commit_notes_view(c)) =~= before.push(
                    ev,
                ));
            }
        } else if commits.len() > 0 {
            let n = commits.len();
            let mut last = commits.pop().unwrap();
            let ghost old_last = last;
            last.lines.push(string_of(line.as_slice()));
            let ghost ev = commit_notes_view(last);
            commits.push(last);
            proof {
                assert(strs(last.lines@) =~= strs(old_last.lines@).push(ls[i as int]));
                assert(commits@.map_values(|c: CommitNotes| commit_notes_view(c)) =~= before.update(
                    n - 1,
                    ev,
                ));
            }
        }
        i = i + 1;
    }
    proof {
        assert(ls.take(lines@.len() as int) =~= ls);
    }
    (commits, shallow)
}

/// Why the history could not be read.
#[derive(Debug, Clone, PartialEq, Eq)]
pub enum WalkError {
    /// The history is grafted and ended before the number of commits asked
    /// for: a shallow clone.
    ShallowClone,
}

/// The commits of the history with their note lines, from the output of
/// `git log -n <num_commits> --first-parent --pretty=--,%H,%D%n%N`; a history
/// that is grafted and shorter than asked for is refused.
pub fn walk_commits(stdout: &str, num_commits: usize) -> (r: Result<Vec<CommitNotes>, WalkError>)
    requires
        log_well_formed(stdout@),
    ensures
        ({
            let m = log_model(lines_of(stdout@));
            &&& r is Err <==> (m.shallow && m.commits.len() < num_commits)
            &&& r matches Ok(v) ==> v@.map_values(|c: CommitNotes| commit_notes_view(c))
                == m.commits
        }),
{
    let (commits, shallow) = parse_log(stdout);
    if shallow && commits.len() < num_commits {
        return Err(WalkError::ShallowClone);
    }
    Ok(commits)
}

/// The objects that `git notes list` names: the second word of each line
/// that has one.
pub open spec fn annotated_spec(lines: Seq<Seq<char>>) -> Seq<Seq<char>>
    decreases lines.len(),
{
    if lines.len() == 0 {
        Seq::empty()
    } else {
        let prev = annotated_spec(lines.drop_last());
        let w = words(lines.last());
        if w.len() >= 2 {
            prev.push(w[1])
        } else {
            prev
        }
    }
}

/// The annotated objects of `git notes list` output, whose lines are
/// `<note object> <annotated object>`.
pub fn list_commits_with_measurements(notes_list: &str) -> (r: Vec<String>)
    ensures
        strs(r@) == annotated_spec(lines_of(notes_list@)),
{
    let c = chars_of(notes_list);
    let lines = lines_chars(c.as_slice());
    let ghost ls = lines_of(notes_list@);
    let mut out: Vec<String> = Vec::new();
    let mut i: usize = 0;
    while i < lines.len()
        invariant
            i <= lines@.len(),
            lines@.len() == ls.len(),
            forall|k: int| 0 <= k < lines@.len() ==> #[trigger] lines@[k]@ == ls[k],
            strs(out@) == annotated_spec(ls.take(i as int)),
        decreases lines@.len() - i,
    {
        proof {
            assert(ls.take(i + 1).drop_last() =~= ls.take(i as int));
            assert(ls.take(i + 1).last() == ls[i as int]);
        }
        let w = words_chars(lines[i].as_slice());
        if w.len() >= 2 {
            let ghost before = strs(out@);
            out.push(string_of(w[1].as_slice()));
            proof {
                assert(strs(out@) =~= before.push(words(ls[i as int])[1]));
            }
        }
        i = i + 1;
    }
    proof {
        assert(ls.take(lines@.len() as int) =~= ls);
    }
    out
}

/// The commits of `git log --no-walk --pretty=format:%H %ct` output whose
/// commit time is at or before `oldest`: lines with at least two words,
/// the second an `i64`.
pub open spec fn older_spec(lines: Seq<Seq<char>>, oldest: int) -> Seq<Seq<char>>
    decreases lines.len(),
{
    if lines.len() == 0 {
        Seq::empty()
    } else {
        let prev = older_spec(lines.drop_last(), oldest);
        let w = words(lines.last());
        if w.len() >= 2 {
            match parse_signed(w[1], 10, i64::MAX as nat, 0x8000_0000_0000_0000) {
                Some(t) => if t <= oldest {
                    prev.push(w[0])
                } else {
                    prev
                },
                None => prev,
            }
        } else {
            prev
        }
    }
}

/// The commits whose notes are removed: those committed at or before the
/// Unix time `oldest_timestamp`.
pub fn commits_older_than(log: &str, oldest_timestamp: i64) -> (r: Vec<String>)
    ensures
        strs(r@) == older_spec(lines_of(log@), oldest_timestamp as int),
{
    let c = chars_of(log);
    let lines = lines_chars(c.as_slice());
    let ghost ls = lines_of(log@);
    let mut out: Vec<String> = Vec::new();
    let mut i: usize = 0;
    while i < lines.len()
        invariant
            i <= lines@.len(),
            lines@.len() == ls.len(),
            forall|k: int| 0 <= k < lines@.len() ==> #[trigger] lines@[k]@ == ls[k],
            strs(out@) == older_spec(ls.take(i as int), oldest_timestamp as int),
        decreases lines@.len() - i,
    {
        proof {
            assert(ls.take(i + 1).drop_last() =~= ls.take(i as int));
            assert(ls.take(i + 1).last() == ls[i as int]);
        }
        let w = words_chars(lines[i].as_slice());
        if w.len() >= 2 {
            match parse_i64(w[1].as_slice()) {
                Some(t) => {
                    if t <= oldest_timestamp {
                        let ghost before = strs(out@);
                        out.push(string_of(w[0].as_slice()));
                        proof {
                            assert(strs(out@) =~= before.push(words(ls[i as int])[0]));
                        }
                    }
                },
                None => {},
            }
        }
        i = i + 1;
    }
    proof {
        assert(ls.take(lines@.len() as int) =~= ls);
    }
    out
}

/// Whether a line of `git push --porcelain` output reports the update of
/// the measurements ref: it names the ref and is not a rejection (`!`).
pub open spec fn reports_push(line: Seq<char>) -> bool {
    contains_seq(line, "refs/notes/perf-v3:"@) && !starts_with(line, "!"@)
}

/// Whether some line of the porcelain output reports the update.
pub open spec fn push_reported(stdout: Seq<char>) -> bool {
    exists|i: int| 0 <= i < lines_of(stdout).len() && reports_push(#[trigger] lines_of(stdout)[i])
}

/// Whether the porcelain output of a push reports the measurements ref as
/// updated.
pub fn push_succeeded(stdout: &str) -> (b: bool)
    ensures
        b == push_reported(stdout@),
{
    let c = chars_of(stdout);
    let lines = lines_chars(c.as_slice());
    let target = chars_of("refs/notes/perf-v3:");
    let bang = chars_of("!");
    let mut i: usize = 0;
    while i < lines.len()
        invariant
            i <= lines@.len(),
            lines@.len() == lines_of(stdout@).len(),
            forall|k: int| 0 <= k < lines@.len() ==> #[trigger] lines@[k]@ == lines_of(stdout@)[k],
            target@ == "refs/notes/perf-v3:"@,
            bang@ == "!"@,
            forall|k: int| 0 <= k < i ==> !reports_push(#[trigger] lines_of(stdout@)[k]),
        decreases lines@.len() - i,
    {
        let l = lines[i].as_slice();
        if contains_chars(l, target.as_slice()) && !crate::text::starts_with_chars(
            l,
            bang.as_slice(),
        ) {
            assert(reports_push(lines_of(stdout@)[i as int]));
            return true;
        }
        i = i + 1;
    }
    false
}

/// What a push came to, from the result of
/// `git push --porcelain --force-with-lease=...`: git may exit with an error
/// although the measurements ref was updated, which the porcelain output
/// then reports.
pub fn git_push_notes_ref(result: Result<GitOutput, GitError>) -> (r: Result<(), GitError>)
    ensures
        match result {
            Ok(_) => r is Ok,
            Err(GitError::ExecError { command, output }) => if push_reported(output.stdout@) {
                r is Ok
            } else {
                r matches Err(GitError::RefFailedToPush { output: o }) && o == output
            },
            Err(e) => r == Err::<(), GitError>(e),
        },
        result matches Err(GitError::ExecError { .. }) ==> (r matches Err(e) ==> is_transient_spec(e)),
{
    match result {
        Ok(_) => Ok(()),
        Err(GitError::ExecError { command, output }) => {
            if push_succeeded(output.stdout.as_str()) {
                Ok(())
            } else {
                Err(GitError::RefFailedToPush { output })
            }
        },
        Err(e) => Err(e),
    }
}

/// Whether a push has something to publish: it has nothing where no write
/// ref was merged and the remote has no measurements yet.
pub fn check_push_has_measurements(merged_refs: usize, upstream_oid: &str) -> (r: Result<
    (),
    GitError,
>)
    ensures
        r is Err <==> (merged_refs == 0 && upstream_oid@ == "0000000000000000000000000000000000000000"@),
        r matches Err(e) ==> e is MissingMeasurements,
{
    if merged_refs == 0 && eq_str(upstream_oid, crate::git::EMPTY_OID) {
        Err(GitError::MissingMeasurements)
    } else {
        Ok(())
    }
}

/// The commands for `git update-ref --stdin` that delete the merged write
/// refs, each only if it still points at the object it was merged from.
pub open spec fn delete_refs_spec(refs: Seq<(Seq<char>, Seq<char>)>) -> Seq<char> {
    join(
        seq!["start"@] + refs.map_values(
            |r: (Seq<char>, Seq<char>)| "delete "@ + r.0 + " "@ + r.1,
        ) + seq!["commit"@, Seq::<char>::empty()],
        "\n"@,
    )
}

/// Writes the commands that delete the merged write refs.
pub fn delete_refs_commands(refs: &[Reference]) -> (r: String)
    ensures
        r@ == delete_refs_spec(refs@.map_values(|x: Reference| ref_view(x))),
{
    let ghost rv = refs@.map_values(|x: Reference| ref_view(x));
    let ghost cmds = rv.map_values(|r: (Seq<char>, Seq<char>)| "delete "@ + r.0 + " "@ + r.1);
    let mut out: Vec<char> = Vec::new();
    push_str(&mut out, "start");
    proof {
        assert(seq!["start"@].take(1) =~= seq!["start"@]);
        assert(out@ == join(seq!["start"@], "\n"@));
    }
    let mut i: usize = 0;
    while i < refs.len()
        invariant
            i <= refs@.len(),
            rv == refs@.map_values(|x: Reference| ref_view(x)),
            cmds == rv.map_values(|r: (Seq<char>, Seq<char>)| "delete "@ + r.0 + " "@ + r.1),
            out@ == join(seq!["start"@] + cmds.take(i as int), "\n"@),
        decreases refs@.len() - i,
    {
        let ghost before = out@;
        push_str(&mut out, "\n");
        push_str(&mut out, "delete ");
        push_str(&mut out, refs[i].refname.as_str());
        push_str(&mut out, " ");
        push_str(&mut out, refs[i].oid.as_str());
        proof {
            let prev = seq!["start"@] + cmds.take(i as int);
            let next = seq!["start"@] + cmds.take(i + 1);
            assert(next.drop_last() =~= prev);
            assert(next.last() == cmds[i as int]);
            assert(out@ =~= before + "\n"@ + cmds[i as int]);
        }
        i = i + 1;
    }
    let ghost body = seq!["start"@] + cmds;
    proof {
        assert(cmds.take(refs@.len() as int) =~= cmds);
    }
    let ghost before = out@;
    push_str(&mut out, "\n");
    push_str(&mut out, "commit");
    proof {
        assert(body.push("commit"@).drop_last() =~= body);
        assert(out@ =~= join(body.push("commit"@), "\n"@));
    }
    push_str(&mut out, "\n");
    proof {
        let all = body.push("commit"@).push(Seq::<char>::empty());
        assert(all.drop_last() =~= body.push("commit"@));
        assert(all =~= seq!["start"@] + cmds + seq!["commit"@, Seq::<char>::empty()]);
        assert(out@ =~= join(all, "\n"@));
    }
    string_of(out.as_slice())
}

/// The name of a temporary ref: `prefix` followed by a random `u32` as
/// eight lower-case hexadecimal digits.
pub fn create_temp_ref_name(prefix: &str, random: u32) -> (r: String)
    ensures
        r@ == prefix@ + hex_padded(random as nat, 8),
{
    let mut out = chars_of(prefix);
    let h = hex_padded_chars(random as u64, 8);
    append(&mut out, h.as_slice());
    string_of(out.as_slice())
}

/// What to do so that the remote of git-perf exists.
#[derive(Debug, Clone, PartialEq, Eq)]
pub enum RemoteSetup {
    /// It exists already.
    Present,
    /// Add it with the URL of `origin`.
    AddFrom(String),
}

/// Decides how the remote of git-perf comes to exist, from the URLs of
/// `git-perf-origin` and `origin` where they exist; with neither there is
/// no upstream.
pub fn ensure_remote_exists(perf_remote: Option<String>, origin: Option<String>) -> (r: Result<
    RemoteSetup,
    GitError,
>)
    ensures
        perf_remote is Some ==> r == Ok::<RemoteSetup, GitError>(RemoteSetup::Present),
        perf_remote is None && origin is Some ==> r == Ok::<RemoteSetup, GitError>(
            RemoteSetup::AddFrom(origin.unwrap()),
        ),
        perf_remote is None && origin is None ==> r matches Err(GitError::NoUpstream),
{
    if perf_remote.is_some() {
        return Ok(RemoteSetup::Present);
    }
    match origin {
        Some(url) => Ok(RemoteSetup::AddFrom(url)),
        None => Err(GitError::NoUpstream),
    }
}

/// `unindent::unindent`: what it gives for a text, a function of the text
/// alone.
pub uninterp spec fn unindented(text: Seq<char>) -> Seq<char>;

/// Removes the common indentation of the lines of `text` with
/// `unindent::unindent`.
#[verifier::external_body]
fn unindent_text(text: &str) -> (r: String)
    ensures
        r@ == unindented(text@),
{
    unindent::unindent(text)
}

/// The indented command block that `create_temp_ref` writes for
/// `git update-ref --stdin`.
pub open spec fn create_ref_block(target: Seq<char>, head: Seq<char>) -> Seq<char> {
    "\n            start\n            create "@ + target + " "@ + head
        + "\n            commit\n            "@
}

/// The commands that create `target` pointing at `current_head`.
pub fn create_ref_commands(target: &str, current_head: &str) -> (r: String)
    ensures
        r@ == unindented(create_ref_block(target@, current_head@)),
{
    let mut out: Vec<char> = Vec::new();
    push_str(&mut out, "\n            start\n            create ");
    push_str(&mut out, target);
    push_str(&mut out, " ");
    push_str(&mut out, current_head);
    push_str(&mut out, "\n            commit\n            ");
    let block = string_of(out.as_slice());
    unindent_text(block.as_str())
}

/// The indented command block that moves `target` from `old` to `new`.
pub open spec fn update_ref_block(target: Seq<char>, new: Seq<char>, old: Seq<char>) -> Seq<char> {
    "\n            start\n            update "@ + target + " "@ + new + " "@ + old
        + "\n            commit\n            "@
}

/// The commands that move `target` to `new` where it still points at `old`.
pub fn update_ref_commands(target: &str, new: &str, old: &str) -> (r: String)
    ensures
        r@ == unindented(update_ref_block(target@, new@, old@)),
{
    let mut out: Vec<char> = Vec::new();
    push_str(&mut out, "\n            start\n            update ");
    push_str(&mut out, target);
    push_str(&mut out, " ");
    push_str(&mut out, new);
    push_str(&mut out, " ");
    push_str(&mut out, old);
    push_str(&mut out, "\n            commit\n            ");
    let block = string_of(out.as_slice());
    unindent_text(block.as_str())
}

/// The indented command block that deletes a ref.
pub open spec fn delete_ref_block(name: Seq<char>) -> Seq<char> {
    "\n                    start\n                    delete "@ + name
        + "\n                    commit\n                "@
}

/// The commands that delete `ref_name`.
pub fn remove_reference_commands(ref_name: &str) -> (r: String)
    ensures
        r@ == unindented(delete_ref_block(ref_name@)),
{
    let mut out: Vec<char> = Vec::new();
    push_str(&mut out, "\n                    start\n                    delete ");
    push_str(&mut out, ref_name);
    push_str(&mut out, "\n                    commit\n                ");
    let block = string_of(out.as_slice());
    unindent_text(block.as_str())
}

/// The indented command block that resets the merge ref `target` to the
/// upstream object, where the upstream ref still points at it.
pub open spec fn consolidate_block(upstream: Seq<char>, target: Seq<char>) -> Seq<char> {
    "\n                start\n                verify refs/notes/perf-v3 "@ + upstream
        + "\n                update "@ + target + " "@ + upstream
        + " 0000000000000000000000000000000000000000\n                commit\n            "@
}

/// The commands that start a merge ref from the captured upstream object.
pub fn consolidate_commands(current_upstream_oid: &str, target: &str) -> (r: String)
    ensures
        r@ == unindented(consolidate_block(current_upstream_oid@, target@)),
{
    let mut out: Vec<char> = Vec::new();
    push_str(&mut out, "\n                start\n                verify refs/notes/perf-v3 ");
    push_str(&mut out, current_upstream_oid);
    push_str(&mut out, "\n                update ");
    push_str(&mut out, target);
    push_str(&mut out, " ");
    push_str(&mut out, current_upstream_oid);
    push_str(
        &mut out,
        " 0000000000000000000000000000000000000000\n                commit\n            ",
    );
    let block = string_of(out.as_slice());
    unindent_text(block.as_str())
}

} // verus!
