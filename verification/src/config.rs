//! Strict operational configuration.
//!
//! A missing file, a missing key or an unknown key is a fatal startup error, and
//! there are no runtime defaults.

use vstd::prelude::*;
use vstd::string::*;

use crate::envelope::text_option;

verus! {

/// Operational configuration of the hub server. Every field is required.
#[derive(Debug)]
pub struct Config {
    /// TCP port bound on 127.0.0.1; the address itself is not configurable.
    pub port: u16,
    /// Append-only JSONL audit log, written solely by the hub.
    pub audit_log_path: String,
    /// Service diagnostics log.
    pub service_log_path: String,
    /// Agent roster: the file that maps agent names to tokens.
    pub roster_path: String,
}

/// Why configuration loading failed. Both variants name the file and the cause.
#[derive(Debug)]
pub enum ConfigError {
    /// The config file could not be read.
    Read { path: String, source: String },
    /// The config file is not a valid strict [`Config`].
    Parse { path: String, source: String },
}

/// The contents of a [`ConfigError`].
pub enum ConfigErrorView {
    Read { path: Seq<char>, source: Seq<char> },
    Parse { path: Seq<char>, source: Seq<char> },
}

impl View for ConfigError {
    type V = ConfigErrorView;

    open spec fn view(&self) -> ConfigErrorView {
        match *self {
            ConfigError::Read { path, source } => ConfigErrorView::Read {
                path: path@,
                source: source@,
            },
            ConfigError::Parse { path, source } => ConfigErrorView::Parse {
                path: path@,
                source: source@,
            },
        }
    }
}

impl ConfigErrorView {
    /// The operator's startup evidence.
    pub open spec fn text(self) -> Seq<char> {
        match self {
            ConfigErrorView::Read { path, source } => "cannot read config file "@ + path + ": "@
                + source,
            ConfigErrorView::Parse { path, source } => "invalid config file "@ + path + ": "@
                + source,
        }
    }
}

impl ConfigError {
    /// Renders the operator's startup evidence.
    pub fn to_string(&self) -> (text: String)
        ensures
            text@ == self@.text(),
            text@ == match self {
                ConfigError::Read { path, source } => "cannot read config file "@ + path@ + ": "@
                    + source@,
                ConfigError::Parse { path, source } => "invalid config file "@ + path@ + ": "@
                    + source@,
            },
    {
        match self {
            ConfigError::Read { path, source } => {
                let mut text = "cannot read config file ".to_string();
                text.append(path.as_str());
                text.append(": ");
                text.append(source.as_str());
                text
            },
            ConfigError::Parse { path, source } => {
                let mut text = "invalid config file ".to_string();
                text.append(path.as_str());
                text.append(": ");
                text.append(source.as_str());
                text
            },
        }
    }
}

/// A value in a TOML file, as far as the configuration looks at it.
#[derive(Debug)]
pub enum TomlValue {
    Text(String),
    Integer(i64),
    Float,
    Boolean,
    Datetime,
    Array,
    Table,
}

/// The contents of a [`TomlValue`].
pub enum TomlValueView {
    Text(Seq<char>),
    Integer(i64),
    Float,
    Boolean,
    Datetime,
    Array,
    Table,
}

impl View for TomlValue {
    type V = TomlValueView;

    open spec fn view(&self) -> TomlValueView {
        match *self {
            TomlValue::Text(text) => TomlValueView::Text(text@),
            TomlValue::Integer(number) => TomlValueView::Integer(number),
            TomlValue::Float => TomlValueView::Float,
            TomlValue::Boolean => TomlValueView::Boolean,
            TomlValue::Datetime => TomlValueView::Datetime,
            TomlValue::Array => TomlValueView::Array,
            TomlValue::Table => TomlValueView::Table,
        }
    }
}

/// The contents of a list of keys and values.
pub open spec fn entries_view(entries: Seq<(String, TomlValue)>) -> Seq<
    (Seq<char>, TomlValueView),
> {
    entries.map_values(|entry: (String, TomlValue)| (entry.0@, entry.1@))
}

/// What the toml crate makes of `text`: its top-level keys with their values;
/// `None` for a text that is not TOML.
pub uninterp spec fn toml_entries(text: Seq<char>) -> Option<Seq<(Seq<char>, TomlValueView)>>;

/// Calls `toml::from_str` for a `toml::Table` and hands out its entries. The claim is
/// that the outcome is a function of the text.
#[verifier::external_body]
fn parse_toml(text: &str) -> (parsed: Option<Vec<(String, TomlValue)>>)
    ensures
        match parsed {
            Some(entries) => toml_entries(text@) == Some(entries_view(entries@)),
            None => toml_entries(text@) is None,
        },
{
    let plain = |value: toml::Value| match value {
        toml::Value::String(text) => TomlValue::Text(text),
        toml::Value::Integer(number) => TomlValue::Integer(number),
        toml::Value::Float(_) => TomlValue::Float,
        toml::Value::Boolean(_) => TomlValue::Boolean,
        toml::Value::Datetime(_) => TomlValue::Datetime,
        toml::Value::Array(_) => TomlValue::Array,
        toml::Value::Table(_) => TomlValue::Table,
    };
    let table = toml::from_str::<toml::Table>(text).ok()?;
    Some(table.into_iter().map(|(key, value)| (key, plain(value))).collect())
}

/// The contents of a [`Config`].
pub struct ConfigView {
    pub port: u16,
    pub audit_log_path: Seq<char>,
    pub service_log_path: Seq<char>,
    pub roster_path: Seq<char>,
}

impl View for Config {
    type V = ConfigView;

    open spec fn view(&self) -> ConfigView {
        ConfigView {
            port: self.port,
            audit_log_path: self.audit_log_path@,
            service_log_path: self.service_log_path@,
            roster_path: self.roster_path@,
        }
    }
}

/// Whether the configuration has a key of this name.
pub open spec fn known_key(key: Seq<char>) -> bool {
    key == "port"@ || key == "audit_log_path"@ || key == "service_log_path"@ || key
        == "roster_path"@
}

/// The first value under `key`.
pub open spec fn value_of(entries: Seq<(Seq<char>, TomlValueView)>, key: Seq<char>) -> Option<
    TomlValueView,
>
    decreases entries.len(),
{
    if entries.len() == 0 {
        None
    } else if entries[0].0 == key {
        Some(entries[0].1)
    } else {
        value_of(entries.drop_first(), key)
    }
}

/// Whether every key is one of the configuration's.
pub open spec fn no_stray_key(entries: Seq<(Seq<char>, TomlValueView)>) -> bool {
    forall|k: int| 0 <= k < entries.len() ==> known_key((#[trigger] entries[k]).0)
}

/// The text under `key`.
pub open spec fn text_at(entries: Seq<(Seq<char>, TomlValueView)>, key: Seq<char>) -> Option<
    Seq<char>,
> {
    match value_of(entries, key) {
        Some(TomlValueView::Text(text)) => Some(text),
        _ => None,
    }
}

/// The port: an integer that a port can be.
pub open spec fn port_in(entries: Seq<(Seq<char>, TomlValueView)>) -> Option<u16> {
    match value_of(entries, "port"@) {
        Some(TomlValueView::Integer(number)) if 0 <= number <= u16::MAX => Some(number as u16),
        _ => None,
    }
}

/// The configuration that `entries` spell out. There is one if exactly the four keys
/// are there, each with a value of its type.
pub open spec fn config_of(entries: Seq<(Seq<char>, TomlValueView)>) -> Option<ConfigView> {
    match (
        port_in(entries),
        text_at(entries, "audit_log_path"@),
        text_at(entries, "service_log_path"@),
        text_at(entries, "roster_path"@),
    ) {
        (Some(port), Some(audit_log_path), Some(service_log_path), Some(roster_path)) =>
            if no_stray_key(entries) {
                Some(ConfigView { port, audit_log_path, service_log_path, roster_path })
            } else {
                None
            },
        _ => None,
    }
}

fn is_known(key: &String) -> (known: bool)
    ensures
        known == known_key(key@),
{
    *key == "port".to_string() || *key == "audit_log_path".to_string() || *key
        == "service_log_path".to_string() || *key == "roster_path".to_string()
}

fn find<'a>(entries: &'a Vec<(String, TomlValue)>, key: &String) -> (found: Option<&'a TomlValue>)
    ensures
        match found {
            Some(value) => value_of(entries_view(entries@), key@) == Some(value@),
            None => value_of(entries_view(entries@), key@) is None,
        },
{
    let ghost all = entries_view(entries@);
    let mut i: usize = 0;
    assert(all.skip(0) =~= all);
    while i < entries.len()
        invariant
            i <= entries@.len(),
            all == entries_view(entries@),
            value_of(all.skip(i as int), key@) == value_of(all, key@),
        decreases entries@.len() - i,
    {
        assert(all.skip(i as int)[0] == all[i as int]);
        assert(all.skip(i as int).drop_first() =~= all.skip(i + 1));
        if entries[i].0 == *key {
            return Some(&entries[i].1);
        }
        i = i + 1;
    }
    None
}

fn knows_every_key(entries: &Vec<(String, TomlValue)>) -> (known: bool)
    ensures
        known == no_stray_key(entries_view(entries@)),
{
    let ghost all = entries_view(entries@);
    let mut i: usize = 0;
    while i < entries.len()
        invariant
            i <= entries@.len(),
            all == entries_view(entries@),
            forall|k: int| 0 <= k < i ==> known_key((#[trigger] all[k]).0),
        decreases entries@.len() - i,
    {
        assert(all[i as int].0 == entries@[i as int].0@);
        if !is_known(&entries[i].0) {
            return false;
        }
        i = i + 1;
    }
    true
}

fn find_text(entries: &Vec<(String, TomlValue)>, key: &str) -> (text: Option<String>)
    ensures
        text_option(text) == text_at(entries_view(entries@), key@),
{
    match find(entries, &key.to_string()) {
        Some(value) => match value {
            TomlValue::Text(text) => Some(text.clone()),
            _ => None,
        },
        None => None,
    }
}

fn find_port(entries: &Vec<(String, TomlValue)>) -> (port: Option<u16>)
    ensures
        port == port_in(entries_view(entries@)),
{
    match find(entries, &"port".to_string()) {
        Some(value) => match value {
            TomlValue::Integer(number) => if 0 <= *number && *number <= 65_535 {
                Some(*number as u16)
            } else {
                None
            },
            _ => None,
        },
        None => None,
    }
}

fn assemble(entries: &Vec<(String, TomlValue)>) -> (config: Option<Config>)
    ensures
        match config {
            Some(c) => config_of(entries_view(entries@)) == Some(c@),
            None => config_of(entries_view(entries@)) is None,
        },
{
    if !knows_every_key(entries) {
        return None;
    }
    match (
        find_port(entries),
        find_text(entries, "audit_log_path"),
        find_text(entries, "service_log_path"),
        find_text(entries, "roster_path"),
    ) {
        (Some(port), Some(audit_log_path), Some(service_log_path), Some(roster_path)) => Some(
            Config { port, audit_log_path, service_log_path, roster_path },
        ),
        _ => None,
    }
}

/// The outcome for a config file that holds these entries, or no TOML at all, where
/// `complaint` is what the strict parser has against it.
pub open spec fn decided(
    path: Seq<char>,
    parsed: Option<Seq<(Seq<char>, TomlValueView)>>,
    complaint: Seq<char>,
) -> Result<ConfigView, ConfigErrorView> {
    match parsed {
        Some(entries) => match config_of(entries) {
            Some(config) => Ok(config),
            None => Err(ConfigErrorView::Parse { path, source: complaint }),
        },
        None => Err(ConfigErrorView::Parse { path, source: complaint }),
    }
}

/// Decides on the config file at `path` once it has been read, or could not be. The
/// configuration is what the file holds and nothing else. `complaint` is what the
/// strict parser has against the text, with the place; it becomes the cause where
/// the text is no configuration.
pub fn load(path: &str, file: Result<String, String>, complaint: String) -> (loaded: Result<
    Config,
    ConfigError,
>)
    ensures
        match file {
            Err(source) => loaded is Err && loaded->Err_0@ == (ConfigErrorView::Read {
                path: path@,
                source: source@,
            }),
            Ok(text) => match loaded {
                Ok(config) => decided(path@, toml_entries(text@), complaint@) == Ok::<
                    _,
                    ConfigErrorView,
                >(config@),
                Err(error) => decided(path@, toml_entries(text@), complaint@) == Err::<
                    ConfigView,
                    _,
                >(error@),
            },
        },
{
    match file {
        Err(source) => Err(ConfigError::Read { path: path.to_string(), source }),
        Ok(text) => load_parsed(path, parse_toml(text.as_str()), complaint),
    }
}

/// [`load`], with the outcome of parsing the file's text as an argument.
pub fn load_parsed(path: &str, parsed: Option<Vec<(String, TomlValue)>>, complaint: String) -> (
loaded: Result<Config, ConfigError>)
    ensures
        ({
            let outcome = decided(
                path@,
                match parsed {
                    Some(entries) => Some(entries_view(entries@)),
                    None => None,
                },
                complaint@,
            );
            match loaded {
                Ok(config) => outcome == Ok::<_, ConfigErrorView>(config@),
                Err(error) => outcome == Err::<ConfigView, _>(error@),
            }
        }),
{
    let config = match parsed {
        Some(entries) => assemble(&entries),
        None => None,
    };
    match config {
        Some(config) => Ok(config),
        None => Err(ConfigError::Parse { path: path.to_string(), source: complaint }),
    }
}

proof fn lemma_value_of(entries: Seq<(Seq<char>, TomlValueView)>, key: Seq<char>)
    ensures
        value_of(entries, key) is Some <==> exists|k: int|
            0 <= k < entries.len() && (#[trigger] entries[k]).0 == key,
    decreases entries.len(),
{
    if entries.len() > 0 {
        let rest = entries.drop_first();
        lemma_value_of(rest, key);
        if exists|k: int| 0 <= k < entries.len() && (#[trigger] entries[k]).0 == key {
            let k = choose|k: int| 0 <= k < entries.len() && (#[trigger] entries[k]).0 == key;
            if k > 0 {
                assert(rest[k - 1].0 == key);
            }
        }
        if value_of(rest, key) is Some {
            let k = choose|k: int| 0 <= k < rest.len() && (#[trigger] rest[k]).0 == key;
            assert(entries[k + 1].0 == key);
        }
    }
}

/// The configuration is strict: a file loads only if each of the four keys is there,
/// and no other is; no default is filled in and no key is ignored.
pub proof fn lemma_configuration_is_strict(entries: Seq<(Seq<char>, TomlValueView)>)
    ensures
        config_of(entries) matches Some(config) ==> {
            &&& forall|key: Seq<char>|
                known_key(key) <==> exists|k: int|
                    0 <= k < entries.len() && (#[trigger] entries[k]).0 == key
            &&& value_of(entries, "port"@) == Some(TomlValueView::Integer(config.port as i64))
            &&& value_of(entries, "audit_log_path"@) == Some(
                TomlValueView::Text(config.audit_log_path),
            )
            &&& value_of(entries, "service_log_path"@) == Some(
                TomlValueView::Text(config.service_log_path),
            )
            &&& value_of(entries, "roster_path"@) == Some(TomlValueView::Text(config.roster_path))
        },
{
    lemma_value_of(entries, "port"@);
    lemma_value_of(entries, "audit_log_path"@);
    lemma_value_of(entries, "service_log_path"@);
    lemma_value_of(entries, "roster_path"@);
}

/// Without any one of the four keys, or with any key added, no configuration loads.
pub proof fn lemma_no_key_may_go_or_come(
    path: Seq<char>,
    entries: Seq<(Seq<char>, TomlValueView)>,
    key: Seq<char>,
    value: TomlValueView,
    complaint: Seq<char>,
)
    ensures
        known_key(key) ==> decided(
            path,
            Some(entries.filter(|entry: (Seq<char>, TomlValueView)| entry.0 != key)),
            complaint,
        ) == Err::<ConfigView, _>(ConfigErrorView::Parse { path, source: complaint }),
        !known_key(key) ==> decided(path, Some(entries.push((key, value))), complaint) == Err::<
            ConfigView,
            _,
        >(ConfigErrorView::Parse { path, source: complaint }),
{
    if known_key(key) {
        let keep = |entry: (Seq<char>, TomlValueView)| entry.0 != key;
        let fewer = entries.filter(keep);
        assert forall|k: int| 0 <= k < fewer.len() implies (#[trigger] fewer[k]).0 != key by {
            entries.lemma_filter_pred(keep, k);
        }
        lemma_value_of(fewer, key);
    } else {
        let more = entries.push((key, value));
        assert(!known_key(more[entries.len() as int].0));
    }
}

/// The contents of a configuration, of a value and of a list of entries leave nothing
/// out.
pub proof fn lemma_contents_of_a_configuration(
    config: Config,
    value: TomlValue,
    entries: Seq<(String, TomlValue)>,
    k: int,
)
    ensures
        config@.port == config.port,
        config@.audit_log_path == config.audit_log_path@,
        config@.service_log_path == config.service_log_path@,
        config@.roster_path == config.roster_path@,
        match value {
            TomlValue::Text(text) => value@ == TomlValueView::Text(text@),
            TomlValue::Integer(number) => value@ == TomlValueView::Integer(number),
            _ => !(value@ is Text) && !(value@ is Integer),
        },
        entries_view(entries).len() == entries.len(),
        0 <= k < entries.len() ==> entries_view(entries)[k] == (entries[k].0@, entries[k].1@),
{
}

proof fn lemma_first_value_counts(
    entries: Seq<(Seq<char>, TomlValueView)>,
    key: Seq<char>,
    k: int,
)
    requires
        0 <= k < entries.len(),
        entries[k].0 == key,
        forall|m: int| 0 <= m < k ==> (#[trigger] entries[m]).0 != key,
    ensures
        value_of(entries, key) == Some(entries[k].1),
    decreases entries.len(),
{
    if k > 0 {
        let rest = entries.drop_first();
        assert(entries[0].0 != key);
        assert forall|m: int| 0 <= m < k - 1 implies (#[trigger] rest[m]).0 != key by {
            assert(rest[m] == entries[m + 1]);
        }
        lemma_first_value_counts(rest, key, k - 1);
    }
}

/// Which files load, and what they load: with the four keys there, at these places, a
/// file loads exactly if the port is an integer that a port can be, the three paths are
/// texts and no key is there beside these four. Each setting is then the value that
/// stands under its own key.
pub proof fn lemma_configuration_is_its_entries(
    path: Seq<char>,
    entries: Seq<(Seq<char>, TomlValueView)>,
    complaint: Seq<char>,
    port: int,
    audit: int,
    service: int,
    roster: int,
)
    requires
        0 <= port < entries.len(),
        entries[port].0 == "port"@,
        forall|m: int| 0 <= m < port ==> (#[trigger] entries[m]).0 != "port"@,
        0 <= audit < entries.len(),
        entries[audit].0 == "audit_log_path"@,
        forall|m: int| 0 <= m < audit ==> (#[trigger] entries[m]).0 != "audit_log_path"@,
        0 <= service < entries.len(),
        entries[service].0 == "service_log_path"@,
        forall|m: int| 0 <= m < service ==> (#[trigger] entries[m]).0 != "service_log_path"@,
        0 <= roster < entries.len(),
        entries[roster].0 == "roster_path"@,
        forall|m: int| 0 <= m < roster ==> (#[trigger] entries[m]).0 != "roster_path"@,
    ensures
        match decided(path, Some(entries), complaint) {
            Ok(config) => {
                &&& entries[port].1 matches TomlValueView::Integer(number)
                &&& 0 <= number <= 65_535
                &&& config.port == number
                &&& entries[audit].1 == TomlValueView::Text(config.audit_log_path)
                &&& entries[service].1 == TomlValueView::Text(config.service_log_path)
                &&& entries[roster].1 == TomlValueView::Text(config.roster_path)
                &&& forall|k: int|
                    0 <= k < entries.len() ==> {
                        ||| (#[trigger] entries[k]).0 == "port"@
                        ||| entries[k].0 == "audit_log_path"@
                        ||| entries[k].0 == "service_log_path"@
                        ||| entries[k].0 == "roster_path"@
                    }
            },
            Err(error) => {
                &&& error == (ConfigErrorView::Parse { path, source: complaint })
                &&& {
                    ||| !(entries[port].1 is Integer)
                    ||| entries[port].1->Integer_0 < 0
                    ||| entries[port].1->Integer_0 > 65_535
                    ||| !(entries[audit].1 is Text)
                    ||| !(entries[service].1 is Text)
                    ||| !(entries[roster].1 is Text)
                    ||| exists|k: int|
                        {
                            &&& 0 <= k < entries.len()
                            &&& (#[trigger] entries[k]).0 != "port"@
                            &&& entries[k].0 != "audit_log_path"@
                            &&& entries[k].0 != "service_log_path"@
                            &&& entries[k].0 != "roster_path"@
                        }
                }
            },
        },
{
    lemma_first_value_counts(entries, "port"@, port);
    lemma_first_value_counts(entries, "audit_log_path"@, audit);
    lemma_first_value_counts(entries, "service_log_path"@, service);
    lemma_first_value_counts(entries, "roster_path"@, roster);
}

/// A file that lacks a key, or is no TOML at all, does not load, and the strict
/// parser's complaint is told.
pub proof fn lemma_missing_keys_are_fatal(
    path: Seq<char>,
    entries: Seq<(Seq<char>, TomlValueView)>,
    complaint: Seq<char>,
    key: Seq<char>,
)
    requires
        key == "port"@ || key == "audit_log_path"@ || key == "service_log_path"@ || key
            == "roster_path"@,
        forall|k: int| 0 <= k < entries.len() ==> (#[trigger] entries[k]).0 != key,
    ensures
        decided(path, Some(entries), complaint) == Err::<ConfigView, _>(
            ConfigErrorView::Parse { path, source: complaint },
        ),
        decided(path, None, complaint) == Err::<ConfigView, _>(
            ConfigErrorView::Parse { path, source: complaint },
        ),
{
    lemma_value_of(entries, key);
}

/// The contents of an error leave nothing out.
pub proof fn lemma_contents_of_a_config_error(error: ConfigError)
    ensures
        match error {
            ConfigError::Read { path, source } => error@ == (ConfigErrorView::Read {
                path: path@,
                source: source@,
            }),
            ConfigError::Parse { path, source } => error@ == (ConfigErrorView::Parse {
                path: path@,
                source: source@,
            }),
        },
{
}

} // verus!
