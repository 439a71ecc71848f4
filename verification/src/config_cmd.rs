//! What `config --list` reports: the git context, the configuration files in
//! use, the global settings and the configured measurements.
use vstd::prelude::*;
use crate::config::{
    LayeredConfig, backoff_max_elapsed_seconds, config_file_name, config_get_table, config_int,
    config_table, join_path, layers_of,
};
use crate::git::{GitError, GitOutput, get_repository_root, trimmed_stdout};
use crate::num::{decimal, hex_padded, hex_padded_chars, push_decimal};
use crate::text::{chars_of, push_str, string_of, strs, trim};

verus! {

/// The repository that the command runs in.
#[derive(Debug, Clone)]
pub struct GitContext {
    /// The current branch.
    pub branch: String,
    /// The path of the repository root.
    pub repository_root: String,
}

/// The configuration files that exist.
#[derive(Debug, Clone)]
pub struct ConfigSources {
    /// The system-wide configuration file, where it exists.
    pub system_config: Option<String>,
    /// The repository configuration file, where it exists.
    pub local_config: Option<String>,
}

/// Settings that belong to no measurement.
#[derive(Debug, Clone)]
pub struct GlobalSettings {
    /// The limit of the retries of a push or pull, in seconds.
    pub backoff_max_elapsed_seconds: u64,
}

/// The git context from the output of `git rev-parse --abbrev-ref HEAD` and
/// the result of the lookup of the repository root; the branch is the
/// trimmed output.
pub fn gather_git_context(branch_output: &GitOutput, root: Result<GitOutput, GitError>) -> (r:
    Result<GitContext, GitError>)
    ensures
        match root {
            Ok(o) => r matches Ok(c) && c.branch@ == trim(branch_output.stdout@)
                && c.repository_root@ == trim(o.stdout@),
            Err(e) => r == Err::<GitContext, GitError>(e),
        },
{
    let repository_root = match get_repository_root(root) {
        Ok(p) => p,
        Err(e) => return Err(e),
    };
    Ok(GitContext { branch: trimmed_stdout(branch_output), repository_root })
}

/// The configuration files in use, given which of them exist.
pub fn gather_config_sources(system_config: Option<String>, local_config: Option<String>) -> (r:
    ConfigSources)
    ensures
        r.system_config == system_config,
        r.local_config == local_config,
{
    ConfigSources { system_config, local_config }
}

/// The path at which the repository configuration is looked for.
pub fn local_config_candidate(repo_root: &str) -> (r: String)
    ensures
        r@ == join_path(repo_root@, config_file_name()),
{
    let mut out = chars_of(repo_root);
    if out.len() == 0 || out[out.len() - 1] != '/' {
        out.push('/');
    }
    let name = chars_of(".gitperfconfig");
    proof {
        reveal_strlit(".gitperfconfig");
        assert(name@ =~= config_file_name());
    }
    crate::git::append(&mut out, name.as_slice());
    proof {
        assert(out@ =~= join_path(repo_root@, config_file_name()));
    }
    string_of(out.as_slice())
}

/// The repository configuration file where it exists: `candidate` is the
/// path from [`local_config_candidate`], absent where the repository root is
/// unknown, and `exists` whether something is there.
pub fn get_local_config_path(candidate: Option<String>, exists: bool) -> (r: Option<String>)
    ensures
        r == (if exists {
            candidate
        } else {
            None
        }),
{
    if exists {
        candidate
    } else {
        None
    }
}

/// The global settings of the configuration (none where it could not be
/// read).
pub fn gather_global_settings(config: Option<&LayeredConfig>) -> (r: GlobalSettings)
    ensures
        r.backoff_max_elapsed_seconds == match layers_of(config) {
            Some(l) => match config_int(l, "backoff.max_elapsed_seconds"@) {
                Some(s) => s as u64,
                None => 60u64,
            },
            None => 60u64,
        },
{
    GlobalSettings { backoff_max_elapsed_seconds: backoff_max_elapsed_seconds(config) }
}

/// The names of the configured measurements: the keys of the `measurement`
/// table whose values are tables themselves (the others are defaults for
/// all measurements); none where there is no such table.
pub fn extract_measurement_names(config: &LayeredConfig) -> (r: Vec<String>)
    ensures
        strs(r@).no_duplicates(),
        match config_table(config.layers(), "measurement"@) {
            Some(entries) => forall|n: Seq<char>| strs(r@).contains(n) <==> entries.contains((n, true)),
            None => r@.len() == 0,
        },
{
    let entries = match config_get_table(config, "measurement") {
        Some(v) => v,
        None => return Vec::new(),
    };
    let ghost ev = entries@.map_values(|e: (String, bool)| (e.0@, e.1));
    let mut names: Vec<String> = Vec::new();
    let mut i: usize = 0;
    while i < entries.len()
        invariant
            i <= entries@.len(),
            ev == entries@.map_values(|e: (String, bool)| (e.0@, e.1)),
            ev.no_duplicates(),
            strs(names@).no_duplicates(),
            forall|n: Seq<char>| strs(names@).contains(n) <==> ev.take(i as int).contains((n, true)),
        decreases entries@.len() - i,
    {
        let ghost before = strs(names@);
        if entries[i].1 {
            let ghost n = entries@[i as int].0@;
            names.push(string_of(chars_of(entries[i].0.as_str()).as_slice()));
            proof {
                assert(strs(names@) =~= before.push(n));
                assert(!before.contains(n)) by {
                    if before.contains(n) {
                        let j = choose|j: int| 0 <= j < i && #[trigger] ev[j] == (n, true);
                        assert(ev.take(i as int)[j] == ev[j]);
                        assert(ev[j] == ev[i as int]);
                    }
                }
            }
        }
        proof {
            assert forall|n: Seq<char>| strs(names@).contains(n) <==> ev.take(i + 1).contains(
                (n, true),
            ) by {
                if ev.take(i + 1).contains((n, true)) {
                    let j = choose|j: int| 0 <= j < i + 1 && #[trigger] ev.take(i + 1)[j] == (n, true);
                    if j < i {
                        assert(ev.take(i as int)[j] == (n, true));
                    } else {
                        assert(ev[i as int] == (n, true));
                        assert(strs(names@)[strs(names@).len() - 1] == n);
                    }
                }
                if strs(names@).contains(n) && !before.contains(n) {
                    assert(ev[i as int] == (n, true));
                    assert(ev.take(i + 1)[i as int] == (n, true));
                }
                if before.contains(n) {
                    let j = choose|j: int| 0 <= j < i && #[trigger] ev.take(i as int)[j] == (n, true);
                    assert(ev.take(i + 1)[j] == (n, true));
                    let k = choose|k: int| 0 <= k < before.len() && #[trigger] before[k] == n;
                    assert(strs(names@)[k] == n);
                }
            }
        }
        i = i + 1;
    }
    proof {
        assert(ev.take(entries@.len() as int) =~= ev);
    }
    names
}

/// An epoch as the listing shows it: eight hexadecimal digits, lower case.
pub fn epoch_display(epoch: Option<u32>) -> (r: Option<String>)
    ensures
        match epoch {
            Some(e) => r matches Some(s) && s@ == hex_padded(e as nat, 8),
            None => r is None,
        },
{
    match epoch {
        Some(e) => Some(string_of(hex_padded_chars(e as u64, 8).as_slice())),
        None => None,
    }
}

/// The problems found in the configuration of one measurement, in this
/// order: no epoch; a sigma that is not positive; a negative minimal
/// relative deviation; fewer than two minimal measurements. `bad_sigma` and
/// `bad_deviation` are the texts of such values, where they are such.
pub open spec fn measurement_issues_spec(
    name: Seq<char>,
    epoch_set: bool,
    bad_sigma: Option<Seq<char>>,
    bad_deviation: Option<Seq<char>>,
    min_measurements: Option<u16>,
) -> Seq<Seq<char>> {
    let head = "Measurement '"@ + name + "': "@;
    let a: Seq<Seq<char>> = if epoch_set {
        Seq::empty()
    } else {
        seq![head + "No epoch configured (run 'git perf bump-epoch -m "@ + name + "')"@]
    };
    let b = match bad_sigma {
        Some(v) => a.push(head + "Invalid sigma value "@ + v + " (must be positive)"@),
        None => a,
    };
    let c = match bad_deviation {
        Some(v) => b.push(head + "Invalid min_relative_deviation "@ + v + " (must be non-negative)"@),
        None => b,
    };
    match min_measurements {
        Some(m) => if m < 2 {
            c.push(head + "Invalid min_measurements "@ + decimal(m as nat) + " (must be at least 2)"@)
        } else {
            c
        },
        None => c,
    }
}

fn issue_text(name: &str, middle: &str, value: &str, tail: &str) -> (r: String)
    ensures
        r@ == "Measurement '"@ + name@ + "': "@ + middle@ + value@ + tail@,
{
    let mut out: Vec<char> = chars_of("Measurement '");
    push_str(&mut out, name);
    push_str(&mut out, "': ");
    push_str(&mut out, middle);
    push_str(&mut out, value);
    push_str(&mut out, tail);
    proof {
        reveal_strlit("Measurement '");
    }
    string_of(out.as_slice())
}

/// Checks the configuration of one measurement as `config --validate` does.
pub fn measurement_issues(
    name: &str,
    epoch_set: bool,
    bad_sigma: Option<&str>,
    bad_deviation: Option<&str>,
    min_measurements: Option<u16>,
) -> (r: Vec<String>)
    ensures
        strs(r@) == measurement_issues_spec(
            name@,
            epoch_set,
            match bad_sigma {
                Some(v) => Some(v@),
                None => None,
            },
            match bad_deviation {
                Some(v) => Some(v@),
                None => None,
            },
            min_measurements,
        ),
{
    let mut out: Vec<String> = Vec::new();
    if !epoch_set {
        let t = issue_text(name, "No epoch configured (run 'git perf bump-epoch -m ", name, "')");
        out.push(t);
    }
    match bad_sigma {
        Some(v) => {
            let t = issue_text(name, "Invalid sigma value ", v, " (must be positive)");
            out.push(t);
        },
        None => {},
    }
    match bad_deviation {
        Some(v) => {
            let t = issue_text(
                name,
                "Invalid min_relative_deviation ",
                v,
                " (must be non-negative)",
            );
            out.push(t);
        },
        None => {},
    }
    match min_measurements {
        Some(m) => if m < 2 {
            let mut digits: Vec<char> = Vec::new();
            push_decimal(&mut digits, m as u64);
            let d = string_of(digits.as_slice());
            let t = issue_text(name, "Invalid min_measurements ", d.as_str(), " (must be at least 2)");
            out.push(t);
        },
        None => {},
    }
    proof {
        reveal_strlit("No epoch configured (run 'git perf bump-epoch -m ");
        reveal_strlit("Invalid sigma value ");
        reveal_strlit("Invalid min_relative_deviation ");
        reveal_strlit("Invalid min_measurements ");
        assert(strs(out@) =~= measurement_issues_spec(
            name@,
            epoch_set,
            match bad_sigma {
                Some(v) => Some(v@),
                None => None,
            },
            match bad_deviation {
                Some(v) => Some(v@),
                None => None,
            },
            min_measurements,
        ));
    }
    out
}

} // verus!
