//! Settings of the configuration files: epochs, backoff and audit parameters.
//!
//! Reading the files is left to the caller; these functions decide what the
//! values read mean and edit the text of a configuration.
use vstd::prelude::*;
use crate::num::{parse_unsigned, parse_u32_hex};
use crate::stats::{DispersionMethod, ReductionFunc, dispersion_method_of, reduction_func_of};
use crate::text::{chars_of, push_str, string_of, strs};

verus! {

#[verifier::external_type_specification]
#[verifier::external_body]
pub struct ExDocument(toml_edit::Document);

#[verifier::external_type_specification]
#[verifier::external_body]
pub struct ExTomlError(toml_edit::TomlError);

#[verifier::external_type_specification]
#[verifier::external_body]
pub struct ExConfig(::config::Config);

#[verifier::external_type_specification]
#[verifier::external_body]
pub struct ExConfigCrateError(::config::ConfigError);

/// Whether the `config` crate builds a configuration from the TOML texts
/// `layers`, later layers overriding earlier ones.
pub uninterp spec fn config_builds(layers: Seq<Seq<char>>) -> bool;

/// What `config::Config::get_int` gives for `key` in the configuration
/// built from `layers`, where it gives a value.
pub uninterp spec fn config_int(layers: Seq<Seq<char>>, key: Seq<char>) -> Option<i64>;

/// What `config::Config::get_string` gives for `key` in the configuration
/// built from `layers`, where it gives a value.
pub uninterp spec fn config_string(layers: Seq<Seq<char>>, key: Seq<char>) -> Option<Seq<char>>;

/// The entries of the table that `config::Config::get_table` gives for `key`
/// in the configuration built from `layers`: each key with whether its value
/// is a table.
pub uninterp spec fn config_table(layers: Seq<Seq<char>>, key: Seq<char>) -> Option<
    Set<(Seq<char>, bool)>,
>;

/// Builds a configuration from TOML texts with `config::Config::builder`,
/// one `File::from_str` source per text, in order.
#[verifier::external_body]
fn build_config(layers: &[String]) -> (r: Result<::config::Config, ::config::ConfigError>)
    ensures
        r is Ok <==> config_builds(strs(layers@)),
{
    let mut builder = ::config::Config::builder();
    for text in layers {
        builder = builder.add_source(::config::File::from_str(text, ::config::FileFormat::Toml));
    }
    builder.build()
}

/// The configuration that git-perf reads: the system-wide file, then the
/// repository's `.gitperfconfig`, which overrides it. Only
/// [`read_hierarchical_config`] makes one.
pub struct LayeredConfig {
    layers: Vec<String>,
    config: ::config::Config,
}

impl LayeredConfig {
    /// The texts this configuration was built from.
    pub closed spec fn layers(&self) -> Seq<Seq<char>> {
        strs(self.layers@)
    }
}

/// Why the configuration could not be read.
#[derive(Debug, Clone, PartialEq, Eq)]
pub enum ConfigReadError {
    /// A layer is not a valid configuration.
    Invalid,
}

/// Builds the configuration from the texts of the configuration files that
/// exist, the system-wide one first.
pub fn read_hierarchical_config(layers: &[String]) -> (r: Result<LayeredConfig, ConfigReadError>)
    ensures
        r is Ok <==> config_builds(strs(layers@)),
        r matches Ok(c) ==> c.layers() == strs(layers@),
{
    match build_config(layers) {
        Ok(config) => {
            let mut copy: Vec<String> = Vec::new();
            let mut i: usize = 0;
            while i < layers.len()
                invariant
                    i <= layers@.len(),
                    copy@.len() == i,
                    forall|k: int| 0 <= k < i ==> (#[trigger] copy@[k])@ == layers@[k]@,
                decreases layers@.len() - i,
            {
                copy.push(string_of(chars_of(layers[i].as_str()).as_slice()));
                i = i + 1;
            }
            assert(strs(copy@) =~= strs(layers@));
            Ok(LayeredConfig { layers: copy, config })
        },
        Err(_) => Err(ConfigReadError::Invalid),
    }
}

/// `config::Config::get_int`, where it gives a value.
#[verifier::external_body]
fn config_get_int(c: &LayeredConfig, key: &str) -> (r: Option<i64>)
    ensures
        r == config_int(c.layers(), key@),
{
    c.config.get_int(key).ok()
}

/// `config::Config::get_string`, where it gives a value.
#[verifier::external_body]
fn config_get_string(c: &LayeredConfig, key: &str) -> (r: Option<String>)
    ensures
        match config_string(c.layers(), key@) {
            Some(s) => r matches Some(t) && t@ == s,
            None => r is None,
        },
{
    c.config.get_string(key).ok()
}

/// `config::Config::get_table`, each entry as its key and whether its value
/// is a table (`ValueKind::Table`); the crate keeps the entries in a
/// `HashMap`, so their order is not fixed.
#[verifier::external_body]
pub(crate) fn config_get_table(c: &LayeredConfig, key: &str) -> (r: Option<Vec<(String, bool)>>)
    ensures
        match config_table(c.layers(), key@) {
            Some(s) => r matches Some(v) && v@.map_values(|e: (String, bool)| (e.0@, e.1)).to_set()
                == s && v@.map_values(|e: (String, bool)| (e.0@, e.1)).no_duplicates(),
            None => r is None,
        },
{
    let table = c.config.get_table(key).ok()?;
    Some(
        table.into_iter().map(
            |(k, v)| (k, matches!(v.kind, ::config::ValueKind::Table(_))),
        ).collect(),
    )
}

/// `measurement.<name>.<field>`, the key of a setting of one measurement.
pub open spec fn measurement_key(name: Seq<char>, field: Seq<char>) -> Seq<char> {
    "measurement."@ + name + "."@ + field
}

/// Writes `prefix + name + "." + field`.
fn setting_key(prefix: &str, name: &str, field: &str) -> (r: String)
    ensures
        r@ == prefix@ + name@ + "."@ + field@,
{
    let mut out: Vec<char> = Vec::new();
    push_str(&mut out, prefix);
    push_str(&mut out, name);
    push_str(&mut out, ".");
    push_str(&mut out, field);
    string_of(out.as_slice())
}

/// Whether `toml_edit` parses `text` as a TOML document
/// (`<toml_edit::Document as FromStr>::from_str`).
pub uninterp spec fn toml_parses(text: Seq<char>) -> bool;

/// The string stored at `measurement.<name>.epoch` of the document parsed
/// from `text`, if that entry exists and holds a string.
pub uninterp spec fn toml_measurement_epoch(text: Seq<char>, name: Seq<char>) -> Option<Seq<char>>;

/// The text that `toml_edit` renders for the document parsed from `text`
/// after `epoch` was assigned to `measurement.<name>.epoch`.
pub uninterp spec fn toml_with_epoch(text: Seq<char>, name: Seq<char>, epoch: Seq<char>) -> Seq<
    char,
>;

/// Parses `text` with `toml_edit`; whether it succeeds depends on the text alone.
#[verifier::external_body]
fn parse_document(text: &str) -> (r: Result<toml_edit::Document, toml_edit::TomlError>)
    ensures
        r is Ok <==> toml_parses(text@),
{
    text.parse::<toml_edit::Document>()
}

/// A parsed configuration together with the text it was parsed from. Only
/// [`ConfigDocument::parse`] makes one.
pub struct ConfigDocument {
    text: String,
    doc: toml_edit::Document,
}

impl ConfigDocument {
    /// The text this document was parsed from.
    pub closed spec fn source(&self) -> Seq<char> {
        self.text@
    }

    /// Parses a configuration text.
    pub fn parse(text: &str) -> (r: Option<ConfigDocument>)
        ensures
            r is Some <==> toml_parses(text@),
            r matches Some(d) ==> d.source() == text@,
    {
        match parse_document(text) {
            Ok(doc) => Some(ConfigDocument { text: string_of(chars_of(text).as_slice()), doc }),
            Err(_) => None,
        }
    }
}

/// Looks up `measurement.<name>.epoch` with `Document::get`, `Item::get` and
/// `Item::as_str`.
#[verifier::external_body]
fn document_epoch(d: &ConfigDocument, name: &str) -> (r: Option<String>)
    ensures
        r matches Some(s) ==> toml_measurement_epoch(d.source(), name@) == Some(s@),
        r is None ==> toml_measurement_epoch(d.source(), name@) is None,
{
    let measurement = d.doc.get("measurement")?;
    let entry = measurement.get(name)?;
    let epoch = entry.get("epoch")?;
    epoch.as_str().map(String::from)
}

/// Of the item that `Table::get` and then `Item::get` reach along `path` in
/// the document parsed from `text`: whether `Item::is_table_like` holds of
/// it (a table or an inline table); none where a step finds no item.
pub uninterp spec fn toml_item_table_like(text: Seq<char>, path: Seq<Seq<char>>) -> Option<bool>;

/// Whether assigning to `measurement.<name>.epoch` through the `IndexMut`
/// impls of `toml_edit` succeeds on the document parsed from `text`: where
/// `measurement` is present it is a table or an inline table, and so is
/// `measurement.<name>` where present. Elsewhere those impls panic.
pub open spec fn toml_epoch_settable(text: Seq<char>, name: Seq<char>) -> bool {
    match toml_item_table_like(text, seq!["measurement"@]) {
        None => true,
        Some(false) => false,
        Some(true) => match toml_item_table_like(text, seq!["measurement"@, name]) {
            None => true,
            Some(b) => b,
        },
    }
}

/// `Table::get("measurement")` on the document, and `Item::is_table_like`
/// of what it finds.
#[verifier::external_body]
fn measurement_table_like(d: &ConfigDocument) -> (r: Option<bool>)
    ensures
        r == toml_item_table_like(d.source(), seq!["measurement"@]),
{
    d.doc.get("measurement").map(|m| m.is_table_like())
}

/// `Table::get("measurement")`, then `Item::get(name)`, and
/// `Item::is_table_like` of what they find.
#[verifier::external_body]
fn measurement_entry_table_like(d: &ConfigDocument, name: &str) -> (r: Option<bool>)
    ensures
        r == toml_item_table_like(d.source(), seq!["measurement"@, name@]),
{
    d.doc.get("measurement").and_then(|m| m.get(name)).map(|e| e.is_table_like())
}

/// Whether the epoch of `name` can be assigned in the document.
fn epoch_settable(d: &ConfigDocument, name: &str) -> (b: bool)
    ensures
        b == toml_epoch_settable(d.source(), name@),
{
    match measurement_table_like(d) {
        None => true,
        Some(false) => false,
        Some(true) => match measurement_entry_table_like(d, name) {
            None => true,
            Some(t) => t,
        },
    }
}

/// Assigns `epoch` to `measurement.<name>.epoch` through the `IndexMut`
/// impls of `toml_edit`, which create the tables that are missing, and
/// renders the document with its `Display` impl.
#[verifier::external_body]
fn render_with_epoch(d: ConfigDocument, name: &str, epoch: &str) -> (r: String)
    requires
        toml_epoch_settable(d.source(), name@),
    ensures
        r@ == toml_with_epoch(d.source(), name@, epoch@),
{
    let mut doc = d.doc;
    doc["measurement"][name]["epoch"] = toml_edit::value(epoch);
    doc.to_string()
}

/// The epoch that a configured hexadecimal string denotes.
pub open spec fn hex_epoch(s: Seq<char>) -> Option<u32> {
    match parse_unsigned(s, 16, u32::MAX as nat) {
        Some(v) => Some(v as u32),
        None => None,
    }
}

/// Reads an epoch written in hexadecimal.
pub fn parse_epoch(s: &str) -> (r: Option<u32>)
    ensures
        r == hex_epoch(s@),
{
    let c = chars_of(s);
    parse_u32_hex(c.as_slice())
}

/// The epoch of the wildcard entry `measurement."*"` of a local configuration text.
pub open spec fn wildcard_epoch(local_config: Option<Seq<char>>) -> Option<u32> {
    match local_config {
        Some(text) => if toml_parses(text) {
            match toml_measurement_epoch(text, seq!['*']) {
                Some(e) => hex_epoch(e),
                None => None,
            }
        } else {
            None
        },
        None => None,
    }
}

/// The epoch of a measurement: the measurement's own entry where it holds a
/// valid hexadecimal number, else the wildcard entry of the local configuration.
pub open spec fn epoch_resolution(specific: Option<Seq<char>>, local_config: Option<Seq<char>>) -> Option<
    u32,
> {
    match specific {
        Some(s) => match hex_epoch(s) {
            Some(e) => Some(e),
            None => wildcard_epoch(local_config),
        },
        None => wildcard_epoch(local_config),
    }
}

/// The epoch of a measurement: none where the configuration could not be
/// read; else the hexadecimal string at `measurement.<name>.epoch`, else
/// the wildcard entry of the local configuration text.
pub open spec fn epoch_of_config(
    layers: Option<Seq<Seq<char>>>,
    local_config: Option<Seq<char>>,
    name: Seq<char>,
) -> Option<u32> {
    match layers {
        None => None,
        Some(l) => epoch_resolution(config_string(l, measurement_key(name, "epoch"@)), local_config),
    }
}

/// The layers of a configuration that could be read.
pub open spec fn layers_of(config: Option<&LayeredConfig>) -> Option<Seq<Seq<char>>> {
    match config {
        Some(c) => Some(c.layers()),
        None => None,
    }
}

/// Determines the epoch of `measurement` from the configuration (none where
/// it could not be read) and the text of the local configuration file,
/// where there is one.
pub fn determine_epoch_from_config(
    config: Option<&LayeredConfig>,
    local_config: Option<&str>,
    measurement: &str,
) -> (r: Option<u32>)
    ensures
        r == epoch_of_config(
            layers_of(config),
            match local_config {
                Some(t) => Some(t@),
                None => None,
            },
            measurement@,
        ),
{
    let c = match config {
        Some(c) => c,
        None => return None,
    };
    let key = setting_key("measurement.", measurement, "epoch");
    let specific = config_get_string(c, key.as_str());
    match specific {
        Some(s) => resolve_epoch(Some(s.as_str()), local_config),
        None => resolve_epoch(None, local_config),
    }
}

/// The epoch from the string configured for a measurement, where there is
/// one, and the text of the local configuration file, where there is one.
pub fn resolve_epoch(specific: Option<&str>, local_config: Option<&str>) -> (r: Option<u32>)
    ensures
        r == epoch_resolution(
            match specific {
                Some(s) => Some(s@),
                None => None,
            },
            match local_config {
                Some(t) => Some(t@),
                None => None,
            },
        ),
{
    if let Some(s) = specific {
        if let Some(e) = parse_epoch(s) {
            return Some(e);
        }
    }
    match local_config {
        Some(text) => match ConfigDocument::parse(text) {
            Some(doc) => {
                let star = "*";
                proof {
                    reveal_strlit("*");
                    assert(star@ =~= seq!['*']);
                }
                match document_epoch(&doc, star) {
                    Some(e) => parse_epoch(e.as_str()),
                    None => None,
                }
            },
            None => None,
        },
        None => None,
    }
}

/// Why a configuration could not be edited.
#[derive(Debug, Clone, PartialEq, Eq)]
pub enum ConfigEditError {
    /// The existing configuration is not valid TOML.
    Parse,
}

/// The epoch written for a head revision: its first eight characters.
pub open spec fn epoch_of_revision(head_revision: Seq<char>) -> Seq<char> {
    head_revision.take(8)
}

/// Whether a revision starts with eight ASCII characters, as an abbreviated
/// object name does.
pub open spec fn revision_has_short_form(head_revision: Seq<char>) -> bool {
    head_revision.len() >= 8 && forall|i: int| 0 <= i < 8 ==> (head_revision[i] as u32) < 128
}

/// Sets `measurement.<measurement>.epoch` in `conf_str` to the first eight
/// characters of `head_revision`. On a text that is not valid TOML it fails
/// and leaves `conf_str` as it was.
pub fn bump_epoch_in_conf(measurement: &str, conf_str: &mut String, head_revision: &str) -> (r:
    Result<(), ConfigEditError>)
    requires
        revision_has_short_form(head_revision@),
        toml_parses(old(conf_str)@) ==> toml_epoch_settable(old(conf_str)@, measurement@),
    ensures
        r is Ok <==> toml_parses(old(conf_str)@),
        r is Ok ==> final(conf_str)@ == toml_with_epoch(
            old(conf_str)@,
            measurement@,
            epoch_of_revision(head_revision@),
        ),
        r is Err ==> final(conf_str)@ == old(conf_str)@,
{
    match ConfigDocument::parse(conf_str.as_str()) {
        Some(doc) => {
            let rev = chars_of(head_revision);
            let short = string_of(&rev.as_slice()[0..8]);
            proof {
                assert(rev@.subrange(0, 8) =~= head_revision@.take(8));
            }
            *conf_str = render_with_epoch(doc, measurement, short.as_str());
            Ok(())
        },
        None => Err(ConfigEditError::Parse),
    }
}

/// The new configuration text after a bump of the epoch of `measurement`:
/// the existing text, or an empty one where there is no configuration file,
/// with the epoch set to the start of `head_revision`.
pub fn bump_epoch(measurement: &str, existing: Option<&str>, head_revision: &str) -> (r: Result<
    String,
    ConfigEditError,
>)
    requires
        revision_has_short_form(head_revision@),
        ({
            let text = match existing {
                Some(t) => t@,
                None => Seq::<char>::empty(),
            };
            toml_parses(text) ==> toml_epoch_settable(text, measurement@)
        }),
    ensures
        ({
            let text = match existing {
                Some(t) => t@,
                None => Seq::<char>::empty(),
            };
            &&& r is Ok <==> toml_parses(text)
            &&& r matches Ok(s) ==> s@ == toml_with_epoch(
                text,
                measurement@,
                epoch_of_revision(head_revision@),
            )
        }),
{
    let mut conf = match existing {
        Some(t) => string_of(chars_of(t).as_slice()),
        None => String::new(),
    };
    match bump_epoch_in_conf(measurement, &mut conf, head_revision) {
        Ok(()) => Ok(conf),
        Err(e) => Err(e),
    }
}

/// A bump of the epoch of `measurement` where the configuration can take
/// it: none where the existing text parses but `measurement` or
/// `measurement.<name>` holds a value that is not a table, as [`bump_epoch`]
/// needs.
pub fn bump_epoch_checked(measurement: &str, existing: Option<&str>, head_revision: &str) -> (r: Option<
    Result<String, ConfigEditError>,
>)
    requires
        revision_has_short_form(head_revision@),
    ensures
        ({
            let text = match existing {
                Some(t) => t@,
                None => Seq::<char>::empty(),
            };
            &&& r is None <==> (toml_parses(text) && !toml_epoch_settable(text, measurement@))
            &&& r matches Some(res) ==> ((res is Ok <==> toml_parses(text)) && (res matches Ok(s) ==> s@
                == toml_with_epoch(text, measurement@, epoch_of_revision(head_revision@))))
        }),
{
    let text = match existing {
        Some(t) => string_of(chars_of(t).as_slice()),
        None => String::new(),
    };
    proof {
        assert(text@ == match existing {
            Some(t) => t@,
            None => Seq::<char>::empty(),
        });
    }
    match ConfigDocument::parse(text.as_str()) {
        Some(doc) => {
            if !epoch_settable(&doc, measurement) {
                return None;
            }
        },
        None => {},
    }
    Some(bump_epoch(measurement, existing, head_revision))
}

/// The backoff limit in seconds: the integer at
/// `backoff.max_elapsed_seconds`, converted to `u64` as `as` does, or 60
/// where none is configured or the configuration could not be read.
pub fn backoff_max_elapsed_seconds(config: Option<&LayeredConfig>) -> (r: u64)
    ensures
        r == match layers_of(config) {
            Some(l) => match config_int(l, "backoff.max_elapsed_seconds"@) {
                Some(s) => s as u64,
                None => 60u64,
            },
            None => 60u64,
        },
{
    match config {
        Some(c) => match config_get_int(c, "backoff.max_elapsed_seconds") {
            Some(s) => s as u64,
            None => 60,
        },
        None => 60,
    }
}

/// The dispersion method configured for a measurement.
pub open spec fn dispersion_resolution(specific: Option<Seq<char>>, global: Option<Seq<char>>) -> DispersionMethod {
    let from_specific = match specific {
        Some(s) => dispersion_method_of(s),
        None => None,
    };
    let from_global = match global {
        Some(g) => dispersion_method_of(g),
        None => None,
    };
    match from_specific {
        Some(m) => m,
        None => match from_global {
            Some(m) => m,
            None => DispersionMethod::StandardDeviation,
        },
    }
}

/// Chooses the dispersion method from the strings configured for the
/// measurement and globally: the first that names a method, else the
/// standard deviation.
pub fn choose_dispersion_method(specific: Option<&str>, global: Option<&str>) -> (r: DispersionMethod)
    ensures
        r == dispersion_resolution(
            match specific {
                Some(s) => Some(s@),
                None => None,
            },
            match global {
                Some(g) => Some(g@),
                None => None,
            },
        ),
{
    if let Some(s) = specific {
        if let Some(m) = DispersionMethod::from_str(s) {
            return m;
        }
    }
    if let Some(g) = global {
        if let Some(m) = DispersionMethod::from_str(g) {
            return m;
        }
    }
    DispersionMethod::StandardDeviation
}

/// The dispersion method of a measurement: the one named at
/// `measurement.<name>.dispersion_method`, else at the parent table's
/// `measurement.dispersion_method`, else the standard deviation (also where
/// the configuration could not be read).
pub fn audit_dispersion_method(config: Option<&LayeredConfig>, measurement: &str) -> (r:
    DispersionMethod)
    ensures
        r == match layers_of(config) {
            Some(l) => dispersion_resolution(
                config_string(l, measurement_key(measurement@, "dispersion_method"@)),
                config_string(l, "measurement.dispersion_method"@),
            ),
            None => DispersionMethod::StandardDeviation,
        },
{
    let c = match config {
        Some(c) => c,
        None => return DispersionMethod::StandardDeviation,
    };
    let key = setting_key("measurement.", measurement, "dispersion_method");
    let specific = config_get_string(c, key.as_str());
    let global = config_get_string(c, "measurement.dispersion_method");
    let s = match &specific {
        Some(x) => Some(x.as_str()),
        None => None,
    };
    let g = match &global {
        Some(x) => Some(x.as_str()),
        None => None,
    };
    choose_dispersion_method(s, g)
}

/// Whether a measurement has a table of its own, `measurement.<name>`,
/// rather than only the defaults of the parent table.
pub fn has_specific_config(config: &LayeredConfig, measurement: &str) -> (r: bool)
    ensures
        r == config_table(config.layers(), "measurement."@ + measurement@) is Some,
{
    let mut out: Vec<char> = Vec::new();
    push_str(&mut out, "measurement.");
    push_str(&mut out, measurement);
    let key = string_of(out.as_slice());
    config_get_table(config, key.as_str()).is_some()
}

/// A configured integer as a count of measurements, where it is one.
pub open spec fn as_count(v: Option<i64>) -> Option<u16> {
    match v {
        Some(x) => if 0 <= x <= u16::MAX {
            Some(x as u16)
        } else {
            None
        },
        None => None,
    }
}

/// The setting of a measurement, else the one of the parent table
/// `measurement` that applies to all measurements.
pub open spec fn with_parent<T>(specific: Option<T>, parent: Option<T>) -> Option<T> {
    match specific {
        Some(x) => Some(x),
        None => parent,
    }
}

/// The minimum number of measurements that an audit of `measurement` needs:
/// `measurement.<name>.min_measurements`, else `measurement.min_measurements`,
/// where it is a count.
pub fn audit_min_measurements(config: Option<&LayeredConfig>, measurement: &str) -> (r: Option<u16>)
    ensures
        r == match layers_of(config) {
            Some(l) => with_parent(
                as_count(config_int(l, measurement_key(measurement@, "min_measurements"@))),
                as_count(config_int(l, "measurement.min_measurements"@)),
            ),
            None => None,
        },
{
    let c = match config {
        Some(c) => c,
        None => return None,
    };
    let key = setting_key("measurement.", measurement, "min_measurements");
    let specific = to_count(config_get_int(c, key.as_str()));
    if specific.is_some() {
        return specific;
    }
    to_count(config_get_int(c, "measurement.min_measurements"))
}

fn to_count(v: Option<i64>) -> (r: Option<u16>)
    ensures
        r == as_count(v),
{
    match v {
        Some(x) => if 0 <= x && x <= 65535 {
            Some(x as u16)
        } else {
            None
        },
        None => None,
    }
}

/// The reduction function of the audit of `measurement`:
/// `measurement.<name>.aggregate_by`, else `measurement.aggregate_by`, where
/// it names a function.
pub fn audit_aggregate_by(config: Option<&LayeredConfig>, measurement: &str) -> (r: Option<
    ReductionFunc,
>)
    ensures
        r == match layers_of(config) {
            Some(l) => with_parent(
                match config_string(l, measurement_key(measurement@, "aggregate_by"@)) {
                    Some(s) => reduction_func_of(s),
                    None => None,
                },
                match config_string(l, "measurement.aggregate_by"@) {
                    Some(s) => reduction_func_of(s),
                    None => None,
                },
            ),
            None => None,
        },
{
    let c = match config {
        Some(c) => c,
        None => return None,
    };
    let key = setting_key("measurement.", measurement, "aggregate_by");
    let specific = match config_get_string(c, key.as_str()) {
        Some(s) => ReductionFunc::from_str(s.as_str()),
        None => None,
    };
    if specific.is_some() {
        return specific;
    }
    match config_get_string(c, "measurement.aggregate_by") {
        Some(s) => ReductionFunc::from_str(s.as_str()),
        None => None,
    }
}

/// The unit of `measurement`: `measurement.<name>.unit`, else
/// `measurement.unit`.
pub fn measurement_unit(config: Option<&LayeredConfig>, measurement: &str) -> (r: Option<String>)
    ensures
        match layers_of(config) {
            Some(l) => match with_parent(
                config_string(l, measurement_key(measurement@, "unit"@)),
                config_string(l, "measurement.unit"@),
            ) {
                Some(u) => r matches Some(t) && t@ == u,
                None => r is None,
            },
            None => r is None,
        },
{
    let c = match config {
        Some(c) => c,
        None => return None,
    };
    let key = setting_key("measurement.", measurement, "unit");
    match config_get_string(c, key.as_str()) {
        Some(u) => Some(u),
        None => config_get_string(c, "measurement.unit"),
    }
}

/// `v` where it is the text of a floating-point number, else nothing.
pub open spec fn as_float_text(v: Option<Seq<char>>) -> Option<Seq<char>> {
    match v {
        Some(t) => if crate::num::float_text(t) {
            Some(t)
        } else {
            None
        },
        None => None,
    }
}

fn float_setting(c: &LayeredConfig, key: &str) -> (r: Option<String>)
    ensures
        match as_float_text(config_string(c.layers(), key@)) {
            Some(t) => r matches Some(u) && u@ == t,
            None => r is None,
        },
{
    match config_get_string(c, key) {
        Some(s) => {
            let cs = chars_of(s.as_str());
            if crate::num::is_float_text(cs.as_slice()) {
                Some(s)
            } else {
                None
            }
        },
        None => None,
    }
}

/// The float setting `field` of `measurement`, as its text:
/// `measurement.<name>.<field>`, else `measurement.<field>`, where it reads as
/// a floating-point number.
pub open spec fn measurement_float(l: Seq<Seq<char>>, measurement: Seq<char>, field: Seq<char>) -> Option<
    Seq<char>,
> {
    with_parent(
        as_float_text(config_string(l, measurement_key(measurement, field))),
        as_float_text(config_string(l, "measurement."@ + field)),
    )
}

fn float_with_parent(c: &LayeredConfig, measurement: &str, field: &str) -> (r: Option<String>)
    ensures
        match measurement_float(c.layers(), measurement@, field@) {
            Some(t) => r matches Some(u) && u@ == t,
            None => r is None,
        },
{
    let key = setting_key("measurement.", measurement, field);
    match float_setting(c, key.as_str()) {
        Some(t) => Some(t),
        None => {
            let mut parent: Vec<char> = chars_of("measurement.");
            push_str(&mut parent, field);
            let pk = string_of(parent.as_slice());
            proof {
                reveal_strlit("measurement.");
            }
            float_setting(c, pk.as_str())
        },
    }
}

/// The sigma of the audit of `measurement`, as the text of a number:
/// `measurement.<name>.sigma`, else `measurement.sigma`.
pub fn audit_sigma(config: Option<&LayeredConfig>, measurement: &str) -> (r: Option<String>)
    ensures
        match layers_of(config) {
            Some(l) => match measurement_float(l, measurement@, "sigma"@) {
                Some(t) => r matches Some(u) && u@ == t,
                None => r is None,
            },
            None => r is None,
        },
{
    match config {
        Some(c) => float_with_parent(c, measurement, "sigma"),
        None => None,
    }
}

/// The relative deviation, in percent, below which an audit of
/// `measurement` passes, as the text of a number:
/// `measurement.<name>.min_relative_deviation`, else
/// `measurement.min_relative_deviation`.
pub fn audit_min_relative_deviation(config: Option<&LayeredConfig>, measurement: &str) -> (r: Option<
    String,
>)
    ensures
        match layers_of(config) {
            Some(l) => match measurement_float(l, measurement@, "min_relative_deviation"@) {
                Some(t) => r matches Some(u) && u@ == t,
                None => r is None,
            },
            None => r is None,
        },
{
    match config {
        Some(c) => float_with_parent(c, measurement, "min_relative_deviation"),
        None => None,
    }
}

/// The file name of the repository configuration.
pub open spec fn config_file_name() -> Seq<char> {
    seq!['.', 'g', 'i', 't', 'p', 'e', 'r', 'f', 'c', 'o', 'n', 'f', 'i', 'g']
}

/// `dir` joined with `name` as `Path::join` does for a relative name: a
/// separator goes between them unless `dir` already ends with one.
pub open spec fn join_path(dir: Seq<char>, name: Seq<char>) -> Seq<char> {
    if dir.len() > 0 && dir.last() == '/' {
        dir + name
    } else {
        dir.push('/') + name
    }
}

/// Why the path of the repository configuration is not known.
#[derive(Debug, Clone, PartialEq, Eq)]
pub enum ConfigPathError {
    /// The repository root could not be determined.
    NoRepository,
    /// The repository root that git reported is empty.
    EmptyRoot,
}

/// The path of the repository configuration, `.gitperfconfig` in the
/// repository root, given what the lookup of the root gave.
pub fn get_main_config_path(repo_root: Option<&str>) -> (r: Result<String, ConfigPathError>)
    ensures
        match repo_root {
            None => r == Err::<String, ConfigPathError>(ConfigPathError::NoRepository),
            Some(root) => if root@.len() == 0 {
                r == Err::<String, ConfigPathError>(ConfigPathError::EmptyRoot)
            } else {
                r matches Ok(p) && p@ == join_path(root@, config_file_name())
            },
        },
{
    match repo_root {
        None => Err(ConfigPathError::NoRepository),
        Some(root) => {
            let c = chars_of(root);
            if c.len() == 0 {
                return Err(ConfigPathError::EmptyRoot);
            }
            let mut out = c;
            if out[out.len() - 1] != '/' {
                out.push('/');
            }
            let name = chars_of(".gitperfconfig");
            proof {
                reveal_strlit(".gitperfconfig");
                assert(name@ =~= config_file_name());
            }
            let ghost before = out@;
            crate::git::append(&mut out, name.as_slice());
            proof {
                assert(out@ =~= join_path(root@, config_file_name()));
            }
            Ok(string_of(out.as_slice()))
        },
    }
}

/// The repository configuration file where it exists: `main_path` is the
/// path computed by [`get_main_config_path`] and `is_file` whether a file
/// is there.
pub fn find_config_path(main_path: Result<String, ConfigPathError>, is_file: bool) -> (r: Option<
    String,
>)
    ensures
        r == match main_path {
            Ok(p) => if is_file {
                Some(p)
            } else {
                None
            },
            Err(_) => None,
        },
{
    match main_path {
        Ok(p) => if is_file {
            Some(p)
        } else {
            None
        },
        Err(_) => None,
    }
}

} // verus!
