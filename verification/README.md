# git-perf

Performance measurements stored in git notes: add or measure values for a
commit, publish and fetch them, audit HEAD against its history, and report
them as HTML or CSV.

## Layout

- `src/` is the library, written in Verus. Each public function states what
  it returns in its contract, and Verus proves the code against it:
  - `serialization`, `data`: the note format of measurements and its
    round trip;
  - `git`, `git_interop`, `size_ops`: reading what git printed and writing
    the commands that git is fed;
  - `config`, `config_cmd`: the layered configuration, epochs and the
    configuration listing, over `config` and `toml_edit`;
  - `filter`, `audit`, `measurement_retrieval`, `study`: selecting
    measurements and the series that an audit or study compares, over
    `regex`;
  - `reporting_config`, `reporting`, `section_plan`: report templates and
    the traces of each section;
  - `parsers`, `converters`, `import`: turning test and benchmark reports
    into measurements;
  - `status`, `reset`, `measurement_storage`, `cli`: the remaining commands'
    decisions.
- `app/` is the command-line program around the library: argument parsing,
  running git, files, and everything computed with floating point
  (statistics, change points, plots).
- `tests/` exercises the library through its public interface.
