//! Report assembly that does not depend on plotting: how measurement
//! filters are combined, how a measurement is labelled, and which output
//! format a path asks for.
use vstd::prelude::*;
use crate::data::{kv_view};
use crate::git::append;
use crate::reporting_config::{SectionConfig, SectionModel, SectionParams, strings_view};
use crate::stats::{ReductionFunc, ascii_lower, eq_ignore_ascii_case};
use crate::text::{chars_of, copy_str, push_str, string_of, strs};

verus! {

/// `p` wrapped in a non-capturing group.
pub open spec fn group_spec(p: Seq<char>) -> Seq<char> {
    seq!['(', '?', ':'] + p + seq![')']
}

/// The groups of `ps` joined with `|`.
pub open spec fn alternation_spec(ps: Seq<Seq<char>>) -> Seq<char>
    decreases ps.len(),
{
    if ps.len() == 0 {
        Seq::empty()
    } else if ps.len() == 1 {
        group_spec(ps[0])
    } else {
        alternation_spec(ps.drop_last()).push('|') + group_spec(ps.last())
    }
}

/// Combines filter patterns into one alternation, each pattern in a
/// non-capturing group so that precedence is kept; `None` without patterns.
pub fn wrap_patterns_for_regex(patterns: &[String]) -> (r: Option<String>)
    ensures
        patterns@.len() == 0 ==> r is None,
        patterns@.len() > 0 ==> (r matches Some(s) && s@ == alternation_spec(patterns@.map_values(|p: String| p@))),
{
    if patterns.len() == 0 {
        return None;
    }
    let ghost ps = patterns@.map_values(|p: String| p@);
    let mut out: Vec<char> = Vec::new();
    let mut i: usize = 0;
    while i < patterns.len()
        invariant
            i <= patterns@.len(),
            ps == patterns@.map_values(|p: String| p@),
            out@ == alternation_spec(ps.take(i as int)),
        decreases patterns@.len() - i,
    {
        let ghost before = out@;
        if i > 0 {
            out.push('|');
        }
        out.push('(');
        out.push('?');
        out.push(':');
        let pc = chars_of(patterns[i].as_str());
        append(&mut out, pc.as_slice());
        out.push(')');
        proof {
            let q = ps.take(i + 1);
            assert(q.drop_last() =~= ps.take(i as int));
            assert(q.last() == patterns@[i as int]@);
            if i == 0 {
                assert(q =~= seq![patterns@[0]@]);
                assert(out@ =~= group_spec(patterns@[0]@));
            } else {
                assert(out@ =~= before.push('|') + group_spec(patterns@[i as int]@));
            }
        }
        i = i + 1;
    }
    assert(ps.take(i as int) =~= ps);
    Some(string_of(out.as_slice()))
}

/// A measurement's label: `name (unit)` when a unit is configured, else the name.
pub open spec fn label_spec(name: Seq<char>, unit: Option<Seq<char>>) -> Seq<char> {
    match unit {
        Some(u) => name + seq![' ', '('] + u + seq![')'],
        None => name,
    }
}

/// Labels a measurement with its configured unit, if any.
pub fn format_measurement_with_unit(measurement_name: &str, unit: Option<&str>) -> (r: String)
    ensures
        r@ == label_spec(measurement_name@, match unit { Some(u) => Some(u@), None => None }),
{
    let mut out = chars_of(measurement_name);
    match unit {
        Some(u) => {
            out.push(' ');
            out.push('(');
            let uc = chars_of(u);
            append(&mut out, uc.as_slice());
            out.push(')');
        },
        None => {},
    }
    string_of(out.as_slice())
}

/// The formats a report can be written in.
#[derive(Debug, Clone, Copy, PartialEq, Eq)]
pub enum OutputFormat {
    Html,
    Csv,
}

/// What `std::path::Path::extension` gives for a path, as text.
pub uninterp spec fn path_extension(path: Seq<char>) -> Option<Seq<char>>;

/// `Path::new(path).extension()`, as text.
#[verifier::external_body]
fn extension_of(path: &str) -> (r: Option<String>)
    ensures
        match path_extension(path@) {
            Some(e) => r matches Some(x) && x@ == e,
            None => r is None,
        },
{
    std::path::Path::new(path).extension().and_then(|e| e.to_str()).map(String::from)
}

/// Whether `Path::new(path) == Path::new("-")`: `Path`'s `==` compares
/// the paths component by component, so `-/` counts as `-` too.
pub uninterp spec fn path_is_dash(path: Seq<char>) -> bool;

/// `Path::new(path) == Path::new("-")`.
#[verifier::external_body]
fn is_dash_path(path: &str) -> (b: bool)
    ensures
        b == path_is_dash(path@),
{
    std::path::Path::new(path) == std::path::Path::new("-")
}

/// The format that an output path asks for: the path `-` (standard output)
/// is CSV; otherwise the extension decides, ignoring ASCII case.
pub open spec fn format_of_path(path: Seq<char>) -> Option<OutputFormat> {
    if path_is_dash(path) {
        Some(OutputFormat::Csv)
    } else {
        match path_extension(path) {
            Some(e) => if eq_ignore_ascii_case(e, "html"@) {
                Some(OutputFormat::Html)
            } else if eq_ignore_ascii_case(e, "csv"@) {
                Some(OutputFormat::Csv)
            } else {
                None
            },
            None => None,
        }
    }
}

impl OutputFormat {
    /// The format for an output path.
    pub fn from_path(path: &str) -> (r: Option<OutputFormat>)
        ensures
            r == format_of_path(path@),
    {
        if is_dash_path(path) {
            return Some(OutputFormat::Csv);
        }
        match extension_of(path) {
            Some(e) => {
                let c = chars_of(e.as_str());
                if crate::stats::eq_ignore_case_str(c.as_slice(), "html") {
                    Some(OutputFormat::Html)
                } else if crate::stats::eq_ignore_case_str(c.as_slice(), "csv") {
                    Some(OutputFormat::Csv)
                } else {
                    None
                }
            },
            None => None,
        }
    }
}

/// The title of a report: the one given, else `Performance Measurements`.
pub fn report_title(title: Option<String>) -> (r: String)
    ensures
        r@ == match title {
            Some(t) => t@,
            None => "Performance Measurements"@,
        },
{
    match title {
        Some(t) => t,
        None => copy_str("Performance Measurements"),
    }
}

/// Whether a commit hash has at least seven characters, all ASCII.
pub open spec fn abbreviable(commit: Seq<char>) -> bool {
    commit.len() >= 7 && forall|i: int| 0 <= i < 7 ==> (commit[i] as u32) < 128
}

/// The range of commits a report covers, newest first in `commits`: the
/// first seven characters of the oldest and of the newest, or of the only
/// one, or `No commits`.
pub open spec fn commit_range_spec(commits: Seq<Seq<char>>) -> Seq<char> {
    if commits.len() == 0 {
        "No commits"@
    } else if commits.len() == 1 {
        commits[0].take(7)
    } else {
        commits.last().take(7) + ".."@ + commits[0].take(7)
    }
}

/// Describes the range of the reported commits.
pub fn commit_range(commits: &[String]) -> (r: String)
    requires
        forall|i: int| 0 <= i < commits@.len() ==> abbreviable(#[trigger] commits@[i]@),
    ensures
        r@ == commit_range_spec(strs(commits@)),
{
    if commits.len() == 0 {
        return copy_str("No commits");
    }
    let first = chars_of(commits[0].as_str());
    assert(abbreviable(commits@[0]@));
    let first7 = crate::text::slice_range(first.as_slice(), 0, 7);
    assert(first7@ =~= commits@[0]@.take(7));
    if commits.len() == 1 {
        return string_of(first7.as_slice());
    }
    let n = commits.len();
    let last = chars_of(commits[n - 1].as_str());
    assert(abbreviable(commits@[n - 1]@));
    let last7 = crate::text::slice_range(last.as_slice(), 0, 7);
    assert(last7@ =~= commits@[n - 1]@.take(7));
    let mut out = last7;
    push_str(&mut out, "..");
    append(&mut out, first7.as_slice());
    proof {
        assert(strs(commits@).last() == commits@[n - 1]@);
    }
    string_of(out.as_slice())
}

/// The section that a report without sections in its template uses: the
/// command line's patterns combined into one filter, its key-values,
/// grouping, aggregation and flags, under the id `main` and the placeholder
/// `{{PLOTLY_BODY}}`.
pub fn build_single_section_config(
    combined_patterns: &[String],
    key_values: &[(String, String)],
    separate_by: Vec<String>,
    aggregate_by: Option<ReductionFunc>,
    show_epochs: bool,
    show_changes: bool,
) -> (r: SectionConfig)
    ensures
        r@.id == "main"@,
        r@.placeholder == "{{PLOTLY_BODY}}"@,
        combined_patterns@.len() == 0 ==> r@.params.measurement_filter is None,
        combined_patterns@.len() > 0 ==> r@.params.measurement_filter == Some(
            alternation_spec(strs(combined_patterns@)),
        ),
        r@.params.key_value_filter == kv_view(key_values@),
        r@.params.separate_by == strs(separate_by@),
        r@.params.aggregate_by == aggregate_by,
        r@.params.depth is None,
        r@.params.show_epochs == show_epochs,
        r@.params.detect_changes == show_changes,
{
    let filter = wrap_patterns_for_regex(combined_patterns);
    let mut kvs: Vec<(String, String)> = Vec::new();
    let mut i: usize = 0;
    while i < key_values.len()
        invariant
            i <= key_values@.len(),
            kv_view(kvs@) == kv_view(key_values@).take(i as int),
        decreases key_values@.len() - i,
    {
        let (k, v) = &key_values[i];
        let ghost before = kv_view(kvs@);
        kvs.push((copy_str(k.as_str()), copy_str(v.as_str())));
        proof {
            assert(kv_view(kvs@) =~= before.push(kv_view(key_values@)[i as int]));
            assert(kv_view(key_values@).take(i + 1) =~= kv_view(key_values@).take(i as int).push(
                kv_view(key_values@)[i as int],
            ));
        }
        i = i + 1;
    }
    proof {
        assert(kv_view(key_values@).take(key_values@.len() as int) =~= kv_view(key_values@));
        assert(strings_view(separate_by@) == strs(separate_by@));
    }
    SectionConfig {
        id: copy_str("main"),
        placeholder: copy_str("{{PLOTLY_BODY}}"),
        measurement_filter: filter,
        key_value_filter: kvs,
        separate_by,
        aggregate_by,
        depth: None,
        show_epochs,
        detect_changes: show_changes,
    }
}

/// A section with the global flags added: a flag that is set globally is
/// set for every section.
pub open spec fn merged_flags(m: SectionModel, show_epochs: bool, show_changes: bool) -> SectionModel {
    SectionModel {
        params: SectionParams {
            show_epochs: m.params.show_epochs || show_epochs,
            detect_changes: m.params.detect_changes || show_changes,
            ..m.params
        },
        ..m
    }
}

/// Adds the global show flags to every section.
pub fn merge_show_flags(sections: Vec<SectionConfig>, show_epochs: bool, show_changes: bool) -> (r:
    Vec<SectionConfig>)
    ensures
        r@.len() == sections@.len(),
        forall|i: int|
            0 <= i < r@.len() ==> (#[trigger] r@[i])@ == merged_flags(sections@[i]@, show_epochs, show_changes),
{
    let mut out: Vec<SectionConfig> = Vec::new();
    let mut rest = sections;
    let ghost orig = rest@;
    let total = rest.len();
    assert(orig.len() == total);
    let mut taken: usize = 0;
    while rest.len() > 0
        invariant
            taken + rest@.len() == orig.len(),
            orig.len() <= usize::MAX,
            rest@ == orig.skip(taken as int),
            out@.len() == taken,
            forall|i: int|
                0 <= i < taken ==> (#[trigger] out@[i])@ == merged_flags(orig[i]@, show_epochs, show_changes),
        decreases rest@.len(),
    {
        let sc = rest.remove(0);
        proof {
            assert(orig.skip(taken as int)[0] == sc);
            assert(rest@ =~= orig.skip(taken + 1));
        }
        let SectionConfig {
            id,
            placeholder,
            measurement_filter,
            key_value_filter,
            separate_by,
            aggregate_by,
            depth,
            show_epochs: e,
            detect_changes: c,
        } = sc;
        out.push(
            SectionConfig {
                id,
                placeholder,
                measurement_filter,
                key_value_filter,
                separate_by,
                aggregate_by,
                depth,
                show_epochs: e || show_epochs,
                detect_changes: c || show_changes,
            },
        );
        taken = taken + 1;
    }
    out
}

/// The sections of a report: for HTML, those of the template with the
/// global flags added, or, where the template has none, one section built
/// from the command line; for CSV always that one section.
pub fn sections_for_report(
    format: OutputFormat,
    template_sections: Vec<SectionConfig>,
    combined_patterns: &[String],
    key_values: &[(String, String)],
    separate_by: Vec<String>,
    aggregate_by: Option<ReductionFunc>,
    show_epochs: bool,
    show_changes: bool,
) -> (r: Vec<SectionConfig>)
    ensures
        format == OutputFormat::Html && template_sections@.len() > 0 ==> r@.len()
            == template_sections@.len() && forall|i: int|
            0 <= i < r@.len() ==> (#[trigger] r@[i])@ == merged_flags(
                template_sections@[i]@,
                show_epochs,
                show_changes,
            ),
        !(format == OutputFormat::Html && template_sections@.len() > 0) ==> r@.len() == 1 && r@[0]@.id
            == "main"@ && r@[0]@.params.key_value_filter == kv_view(key_values@)
            && r@[0]@.params.separate_by == strs(separate_by@) && r@[0]@.params.aggregate_by
            == aggregate_by && r@[0]@.params.show_epochs == show_epochs
            && r@[0]@.params.detect_changes == show_changes && r@[0]@.params.depth is None && (
        if combined_patterns@.len() == 0 {
            r@[0]@.params.measurement_filter is None
        } else {
            r@[0]@.params.measurement_filter == Some(alternation_spec(strs(combined_patterns@)))
        }),
{
    let is_html = match format {
        OutputFormat::Html => true,
        OutputFormat::Csv => false,
    };
    if is_html && template_sections.len() > 0 {
        return merge_show_flags(template_sections, show_epochs, show_changes);
    }
    let single = build_single_section_config(
        combined_patterns,
        key_values,
        separate_by,
        aggregate_by,
        show_epochs,
        show_changes,
    );
    let mut out: Vec<SectionConfig> = Vec::new();
    out.push(single);
    out
}

} // verus!
