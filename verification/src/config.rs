//! Settings: the field names that mark each role, multi-line grouping and the table view.

use vstd::prelude::*;

verus! {

/// Top-level settings.
#[derive(Debug, Clone)]
pub struct Config {
    pub fields: FieldAliases,
    pub expand_nested: bool,
    pub highlight_errors: bool,
    pub multiline: MultilineConfig,
    pub table: TableConfig,
}

/// The JSON keys that carry each semantic role.
#[derive(Debug, Clone)]
pub struct FieldAliases {
    pub level: Vec<String>,
    pub timestamp: Vec<String>,
    pub message: Vec<String>,
    pub trace_id: Vec<String>,
    pub caller: Vec<String>,
}

/// Grouping of continuation lines (stack traces) with the entry before them.
#[derive(Debug, Clone)]
pub struct MultilineConfig {
    pub enabled: bool,
    pub continuation_pattern: String,
}

/// Settings of the table view.
#[derive(Debug, Clone)]
pub struct TableConfig {
    pub columns: Vec<String>,
    pub show_extras_in_detail: bool,
}

/// The texts of a list of strings.
pub open spec fn texts(v: Seq<String>) -> Seq<Seq<char>> {
    v.map_values(|s: String| s@)
}

/// Builds a vector of owned strings from string literals.
fn owned(items: &[&str]) -> (v: Vec<String>)
    ensures
        texts(v@) == items@.map_values(|s: &str| s@),
{
    let mut v: Vec<String> = Vec::new();
    let mut i: usize = 0;
    while i < items.len()
        invariant
            i <= items@.len(),
            v@.len() == i,
            forall|k: int| 0 <= k < i ==> (#[trigger] v@[k])@ == items@[k]@,
        decreases items.len() - i,
    {
        let item = String::from_str(items[i]);
        v.push(item);
        i = i + 1;
    }
    assert(texts(v@) =~= items@.map_values(|s: &str| s@));
    v
}

/// The built-in level aliases.
pub open spec fn default_level_aliases() -> Seq<Seq<char>> {
    seq!["level"@, "lvl"@, "severity"@, "log_level"@]
}

/// The built-in timestamp aliases.
pub open spec fn default_timestamp_aliases() -> Seq<Seq<char>> {
    seq!["time"@, "timestamp"@, "ts"@, "@timestamp"@]
}

/// The built-in message aliases.
pub open spec fn default_message_aliases() -> Seq<Seq<char>> {
    seq!["msg"@, "message"@, "body"@]
}

/// The built-in trace id aliases.
pub open spec fn default_trace_id_aliases() -> Seq<Seq<char>> {
    seq!["trace_id"@, "traceId"@, "traceid"@, "request_id"@, "x-trace-id"@]
}

/// The built-in caller aliases.
pub open spec fn default_caller_aliases() -> Seq<Seq<char>> {
    seq!["caller"@, "file"@, "source"@]
}

impl Default for FieldAliases {
    fn default() -> (a: Self)
        ensures
            texts(a.level@) == default_level_aliases(),
            texts(a.timestamp@) == default_timestamp_aliases(),
            texts(a.message@) == default_message_aliases(),
            texts(a.trace_id@) == default_trace_id_aliases(),
            texts(a.caller@) == default_caller_aliases(),
    {
        let a = FieldAliases {
            level: owned(&["level", "lvl", "severity", "log_level"]),
            timestamp: owned(&["time", "timestamp", "ts", "@timestamp"]),
            message: owned(&["msg", "message", "body"]),
            trace_id: owned(&["trace_id", "traceId", "traceid", "request_id", "x-trace-id"]),
            caller: owned(&["caller", "file", "source"]),
        };
        a
    }
}

/// Adds the aliases that a settings file gives to the built-in ones: each role keeps
/// its built-in aliases, followed by the configured ones.
pub fn with_builtin_aliases(configured: FieldAliases) -> (a: FieldAliases)
    ensures
        texts(a.level@) == default_level_aliases() + texts(configured.level@),
        texts(a.timestamp@) == default_timestamp_aliases() + texts(configured.timestamp@),
        texts(a.message@) == default_message_aliases() + texts(configured.message@),
        texts(a.trace_id@) == default_trace_id_aliases() + texts(configured.trace_id@),
        texts(a.caller@) == default_caller_aliases() + texts(configured.caller@),
{
    let FieldAliases { mut level, mut timestamp, mut message, mut trace_id, mut caller } = configured;
    let ghost c = (level@, timestamp@, message@, trace_id@, caller@);
    let mut a = FieldAliases::default();
    let ghost d = (a.level@, a.timestamp@, a.message@, a.trace_id@, a.caller@);
    a.level.append(&mut level);
    a.timestamp.append(&mut timestamp);
    a.message.append(&mut message);
    a.trace_id.append(&mut trace_id);
    a.caller.append(&mut caller);
    proof {
        lemma_texts_add(d.0, c.0);
        lemma_texts_add(d.1, c.1);
        lemma_texts_add(d.2, c.2);
        lemma_texts_add(d.3, c.3);
        lemma_texts_add(d.4, c.4);
    }
    a
}

/// The texts of two joined lists are the joined texts.
pub proof fn lemma_texts_add(a: Seq<String>, b: Seq<String>)
    ensures
        texts(a + b) == texts(a) + texts(b),
{
    assert(texts(a + b) =~= texts(a) + texts(b));
}

impl Default for MultilineConfig {
    fn default() -> (m: Self)
        ensures
            m.enabled,
            m.continuation_pattern@ == "^[^\\{]"@,
    {
        MultilineConfig { enabled: true, continuation_pattern: String::from_str("^[^\\{]") }
    }
}

impl Default for TableConfig {
    fn default() -> (t: Self)
        ensures
            texts(t.columns@) == seq!["time"@, "level"@, "message"@],
            !t.show_extras_in_detail,
    {
        TableConfig { columns: owned(&["time", "level", "message"]), show_extras_in_detail: false }
    }
}

impl Default for Config {
    fn default() -> (c: Self)
        ensures
            texts(c.fields.level@) == default_level_aliases(),
            texts(c.fields.timestamp@) == default_timestamp_aliases(),
            texts(c.fields.message@) == default_message_aliases(),
            texts(c.fields.trace_id@) == default_trace_id_aliases(),
            texts(c.fields.caller@) == default_caller_aliases(),
            !c.expand_nested,
            !c.highlight_errors,
            c.multiline.enabled,
            c.multiline.continuation_pattern@ == "^[^\\{]"@,
            texts(c.table.columns@) == seq!["time"@, "level"@, "message"@],
            !c.table.show_extras_in_detail,
    {
        Config {
            fields: FieldAliases::default(),
            expand_nested: false,
            highlight_errors: false,
            multiline: MultilineConfig::default(),
            table: TableConfig::default(),
        }
    }
}

} // verus!

verus! {

/// Where the settings come from.
#[derive(Debug, Clone, Copy, PartialEq, Eq, Structural)]
pub enum ConfigSource {
    /// The file given on the command line.
    Explicit,
    /// `.pretty.yaml` in the current directory.
    Local,
    /// `config.yaml` under `pretty` in the user's configuration directory.
    UserDir,
    /// The built-in defaults.
    Defaults,
}

/// The file to read settings from, in order: the one given on the command line, then
/// `.pretty.yaml` in the current directory when it exists, then the one in the
/// user's configuration directory when that directory is known; else the defaults.
pub fn config_source(explicit_given: bool, local_exists: bool, user_dir_known: bool) -> (s: ConfigSource)
    ensures
        s == if explicit_given {
            ConfigSource::Explicit
        } else if local_exists {
            ConfigSource::Local
        } else if user_dir_known {
            ConfigSource::UserDir
        } else {
            ConfigSource::Defaults
        },
{
    if explicit_given {
        ConfigSource::Explicit
    } else if local_exists {
        ConfigSource::Local
    } else if user_dir_known {
        ConfigSource::UserDir
    } else {
        ConfigSource::Defaults
    }
}

/// Applies the command-line switches: each one that is set turns its setting on;
/// nothing else changes.
pub fn apply_switches(config: &mut Config, expand: bool, highlight_errors: bool)
    ensures
        final(config).expand_nested == (old(config).expand_nested || expand),
        final(config).highlight_errors == (old(config).highlight_errors || highlight_errors),
        final(config).fields == old(config).fields,
        final(config).multiline == old(config).multiline,
        final(config).table == old(config).table,
{
    if expand {
        config.expand_nested = true;
    }
    if highlight_errors {
        config.highlight_errors = true;
    }
}

/// Colours are off when asked, or when standard output is not a terminal.
pub fn colors_disabled(no_color_switch: bool, stdout_is_terminal: bool) -> (b: bool)
    ensures
        b == (no_color_switch || !stdout_is_terminal),
{
    no_color_switch || !stdout_is_terminal
}

/// The table shows extra fields when asked on the command line or in the settings.
pub fn table_shows_extras(extras_switch: bool, config: &Config) -> (b: bool)
    ensures
        b == (extras_switch || config.table.show_extras_in_detail),
{
    extras_switch || config.table.show_extras_in_detail
}

} // verus!
