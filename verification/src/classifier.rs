//! The semantic role of each field of a JSON log line.

use vstd::prelude::*;
use crate::config::{
    Config, FieldAliases, default_caller_aliases, default_level_aliases, default_message_aliases,
    default_timestamp_aliases, default_trace_id_aliases, texts,
};
use crate::json::{JsonValue, value_text, value_to_string};
use crate::keyed::{insert_by_key_exec, sort_by_key};
use crate::parser::ParsedLine;
use crate::text::{has_text, list_has_text, lowercase, text_eq, to_lowercase};

verus! {

/// Severity of a log entry.
#[derive(Debug, Clone, PartialEq)]
pub enum LogLevel {
    Error,
    Warn,
    Info,
    Debug,
    Trace,
    Unknown(String),
}

/// The mathematical value of a [`LogLevel`].
pub enum LevelKind {
    Error,
    Warn,
    Info,
    Debug,
    Trace,
    Unknown(Seq<char>),
}

impl View for LogLevel {
    type V = LevelKind;

    open spec fn view(&self) -> LevelKind {
        match self {
            LogLevel::Error => LevelKind::Error,
            LogLevel::Warn => LevelKind::Warn,
            LogLevel::Info => LevelKind::Info,
            LogLevel::Debug => LevelKind::Debug,
            LogLevel::Trace => LevelKind::Trace,
            LogLevel::Unknown(s) => LevelKind::Unknown(s@),
        }
    }
}

/// The level that a lowercased level name stands for.
pub open spec fn level_of_lowercase(lower: Seq<char>) -> LevelKind {
    if lower == "error"@ || lower == "err"@ || lower == "fatal"@ || lower == "crit"@ || lower == "critical"@ {
        LevelKind::Error
    } else if lower == "warn"@ || lower == "warning"@ {
        LevelKind::Warn
    } else if lower == "info"@ || lower == "information"@ {
        LevelKind::Info
    } else if lower == "debug"@ || lower == "dbg"@ {
        LevelKind::Debug
    } else if lower == "trace"@ {
        LevelKind::Trace
    } else {
        LevelKind::Unknown(lower)
    }
}

impl LogLevel {
    /// Reads a level name, ignoring case, with its common aliases
    /// (`err`, `fatal`, `crit`, `critical`, `warning`, `information`, `dbg`).
    pub fn from_str(s: &str) -> (l: Self)
        ensures
            l@ == level_of_lowercase(lowercase(s@)),
    {
        let lower = to_lowercase(s);
        let t = lower.as_str();
        if text_eq(t, "error") || text_eq(t, "err") || text_eq(t, "fatal") || text_eq(t, "crit")
            || text_eq(t, "critical") {
            LogLevel::Error
        } else if text_eq(t, "warn") || text_eq(t, "warning") {
            LogLevel::Warn
        } else if text_eq(t, "info") || text_eq(t, "information") {
            LogLevel::Info
        } else if text_eq(t, "debug") || text_eq(t, "dbg") {
            LogLevel::Debug
        } else if text_eq(t, "trace") {
            LogLevel::Trace
        } else {
            LogLevel::Unknown(lower)
        }
    }
}

/// A log line with each recognised field in its place.
#[derive(Debug, Clone)]
pub struct ClassifiedLine {
    pub level: Option<LogLevel>,
    pub timestamp: Option<String>,
    pub message: Option<String>,
    pub trace_id: Option<String>,
    pub caller: Option<String>,
    pub extras: Vec<(String, JsonValue)>,
    pub continuation_lines: Vec<String>,
}

/// The role that a key plays.
pub enum Role {
    Level,
    Timestamp,
    Message,
    TraceId,
    Caller,
    Extra,
}

/// The role of key `k`: the first of level, timestamp, message, trace id and caller
/// whose aliases hold it, or an extra field.
pub open spec fn role_of(a: FieldAliases, k: Seq<char>) -> Role {
    if has_text(a.level@, k) {
        Role::Level
    } else if has_text(a.timestamp@, k) {
        Role::Timestamp
    } else if has_text(a.message@, k) {
        Role::Message
    } else if has_text(a.trace_id@, k) {
        Role::TraceId
    } else if has_text(a.caller@, k) {
        Role::Caller
    } else {
        Role::Extra
    }
}

/// The text of the last field of `fields` whose key has role `r`.
pub open spec fn last_with_role(fields: Seq<(String, JsonValue)>, a: FieldAliases, r: Role) -> Option<Seq<char>>
    decreases fields.len(),
{
    if fields.len() == 0 {
        None
    } else if role_of(a, fields.last().0@) == r {
        Some(value_text(fields.last().1@))
    } else {
        last_with_role(fields.drop_last(), a, r)
    }
}

/// The fields of `fields` whose keys have no role, in their order.
pub open spec fn extra_fields(fields: Seq<(String, JsonValue)>, a: FieldAliases) -> Seq<(String, JsonValue)> {
    fields.filter(|f: (String, JsonValue)| role_of(a, f.0@) == Role::Extra)
}

/// The text of an optional string.
pub open spec fn opt_text(o: Option<String>) -> Option<Seq<char>> {
    match o {
        Some(s) => Some(s@),
        None => None,
    }
}

/// The level of an optional level.
pub open spec fn opt_level(o: Option<LogLevel>) -> Option<LevelKind> {
    match o {
        Some(l) => Some(l@),
        None => None,
    }
}

/// The level that the text of a level field stands for.
pub open spec fn level_of_text(t: Option<Seq<char>>) -> Option<LevelKind> {
    match t {
        Some(s) => Some(level_of_lowercase(lowercase(s))),
        None => None,
    }
}

/// The classification of `fields` with continuation lines `cont`: each role gets the
/// last field whose key is one of its aliases, and the other fields become the extras,
/// sorted by key.
pub open spec fn classified_as(c: ClassifiedLine, fields: Seq<(String, JsonValue)>, cont: Seq<String>, a: FieldAliases) -> bool {
    &&& opt_level(c.level) == level_of_text(last_with_role(fields, a, Role::Level))
    &&& opt_text(c.timestamp) == last_with_role(fields, a, Role::Timestamp)
    &&& opt_text(c.message) == last_with_role(fields, a, Role::Message)
    &&& opt_text(c.trace_id) == last_with_role(fields, a, Role::TraceId)
    &&& opt_text(c.caller) == last_with_role(fields, a, Role::Caller)
    &&& c.extras@ == sort_by_key(extra_fields(fields, a))
    &&& c.continuation_lines@ == cont
}

/// The role of the key `k`.
fn role_exec(a: &FieldAliases, k: &str) -> (r: Role)
    ensures
        r == role_of(*a, k@),
{
    if list_has_text(&a.level, k) {
        Role::Level
    } else if list_has_text(&a.timestamp, k) {
        Role::Timestamp
    } else if list_has_text(&a.message, k) {
        Role::Message
    } else if list_has_text(&a.trace_id, k) {
        Role::TraceId
    } else if list_has_text(&a.caller, k) {
        Role::Caller
    } else {
        Role::Extra
    }
}

/// Assigns each field of a parsed line to its role.
pub fn classify(parsed: ParsedLine, config: &Config) -> (c: ClassifiedLine)
    ensures
        classified_as(c, parsed.fields@, parsed.continuation_lines@, config.fields),
{
    let ParsedLine { fields, continuation_lines } = parsed;
    let ghost a = config.fields;
    let mut level: Option<LogLevel> = None;
    let mut timestamp: Option<String> = None;
    let mut message: Option<String> = None;
    let mut trace_id: Option<String> = None;
    let mut caller: Option<String> = None;
    let mut extras: Vec<(String, JsonValue)> = Vec::new();
    let mut i: usize = 0;
    while i < fields.len()
        invariant
            i <= fields@.len(),
            a == config.fields,
            opt_level(level) == level_of_text(last_with_role(fields@.take(i as int), a, Role::Level)),
            opt_text(timestamp) == last_with_role(fields@.take(i as int), a, Role::Timestamp),
            opt_text(message) == last_with_role(fields@.take(i as int), a, Role::Message),
            opt_text(trace_id) == last_with_role(fields@.take(i as int), a, Role::TraceId),
            opt_text(caller) == last_with_role(fields@.take(i as int), a, Role::Caller),
            extras@ == sort_by_key(extra_fields(fields@.take(i as int), a)),
        decreases fields.len() - i,
    {
        let key = &fields[i].0;
        let value = &fields[i].1;
        let role = role_exec(&config.fields, key.as_str());
        let ghost prefix = fields@.take(i as int);
        let ghost next = fields@.take(i + 1);
        proof {
            assert(next.drop_last() =~= prefix);
            assert(next.last() == fields@[i as int]);
            assert(extra_fields(next, a) =~= if role == Role::Extra {
                extra_fields(prefix, a).push(fields@[i as int])
            } else {
                extra_fields(prefix, a)
            }) by {
                assert(next =~= prefix.push(fields@[i as int]));
                prefix.lemma_filter_push(fields@[i as int], |f: (String, JsonValue)| role_of(a, f.0@) == Role::Extra);
            }
        }
        match role {
            Role::Level => {
                level = Some(LogLevel::from_str(value_to_string(value).as_str()));
            },
            Role::Timestamp => {
                timestamp = Some(value_to_string(value));
            },
            Role::Message => {
                message = Some(value_to_string(value));
            },
            Role::TraceId => {
                trace_id = Some(value_to_string(value));
            },
            Role::Caller => {
                caller = Some(value_to_string(value));
            },
            Role::Extra => {
                let ghost ex = extra_fields(prefix, a);
                proof {
                    assert(ex.push(fields@[i as int]).drop_last() =~= ex);
                }
                insert_by_key_exec(&mut extras, (key.clone(), value.duplicate()));
            },
        }
        i = i + 1;
    }
    assert(fields@.take(fields@.len() as int) =~= fields@);
    ClassifiedLine { level, timestamp, message, trace_id, caller, extras, continuation_lines }
}

/// `list` holds the text `k` exactly when its texts do.
proof fn lemma_has_text_texts(list: Seq<String>, k: Seq<char>)
    ensures
        has_text(list, k) <==> texts(list).contains(k),
{
    if has_text(list, k) {
        let i = choose|i: int| 0 <= i < list.len() && (#[trigger] list[i])@ == k;
        assert(texts(list)[i] == k);
    }
    if texts(list).contains(k) {
        let i = choose|i: int| 0 <= i < texts(list).len() && texts(list)[i] == k;
        assert(list[i]@ == k);
    }
}

/// The role of key `k`, read off the texts of the alias lists.
proof fn lemma_role_from_texts(a: FieldAliases, k: Seq<char>)
    ensures
        role_of(a, k) == if texts(a.level@).contains(k) {
            Role::Level
        } else if texts(a.timestamp@).contains(k) {
            Role::Timestamp
        } else if texts(a.message@).contains(k) {
            Role::Message
        } else if texts(a.trace_id@).contains(k) {
            Role::TraceId
        } else if texts(a.caller@).contains(k) {
            Role::Caller
        } else {
            Role::Extra
        },
{
    lemma_has_text_texts(a.level@, k);
    lemma_has_text_texts(a.timestamp@, k);
    lemma_has_text_texts(a.message@, k);
    lemma_has_text_texts(a.trace_id@, k);
    lemma_has_text_texts(a.caller@, k);
}

/// With the built-in aliases, each documented field name takes its documented role:
/// `level`, `lvl`, `severity`, `log_level` give the level; `time`, `timestamp`, `ts`,
/// `@timestamp` the timestamp; `msg`, `message`, `body` the message; `trace_id`,
/// `traceId`, `traceid`, `request_id`, `x-trace-id` the trace id; `caller`, `file`,
/// `source` the caller.
pub proof fn law_default_alias_roles(a: FieldAliases)
    requires
        texts(a.level@) == default_level_aliases(),
        texts(a.timestamp@) == default_timestamp_aliases(),
        texts(a.message@) == default_message_aliases(),
        texts(a.trace_id@) == default_trace_id_aliases(),
        texts(a.caller@) == default_caller_aliases(),
    ensures
        role_of(a, "level"@) == Role::Level,
        role_of(a, "lvl"@) == Role::Level,
        role_of(a, "severity"@) == Role::Level,
        role_of(a, "log_level"@) == Role::Level,
        role_of(a, "time"@) == Role::Timestamp,
        role_of(a, "timestamp"@) == Role::Timestamp,
        role_of(a, "ts"@) == Role::Timestamp,
        role_of(a, "@timestamp"@) == Role::Timestamp,
        role_of(a, "msg"@) == Role::Message,
        role_of(a, "message"@) == Role::Message,
        role_of(a, "body"@) == Role::Message,
        role_of(a, "trace_id"@) == Role::TraceId,
        role_of(a, "traceId"@) == Role::TraceId,
        role_of(a, "traceid"@) == Role::TraceId,
        role_of(a, "request_id"@) == Role::TraceId,
        role_of(a, "x-trace-id"@) == Role::TraceId,
        role_of(a, "caller"@) == Role::Caller,
        role_of(a, "file"@) == Role::Caller,
        role_of(a, "source"@) == Role::Caller,
{
    reveal_strlit("level");
    reveal_strlit("lvl");
    reveal_strlit("severity");
    reveal_strlit("log_level");
    reveal_strlit("time");
    reveal_strlit("timestamp");
    reveal_strlit("ts");
    reveal_strlit("@timestamp");
    reveal_strlit("msg");
    reveal_strlit("message");
    reveal_strlit("body");
    reveal_strlit("trace_id");
    reveal_strlit("traceId");
    reveal_strlit("traceid");
    reveal_strlit("request_id");
    reveal_strlit("x-trace-id");
    reveal_strlit("caller");
    reveal_strlit("file");
    reveal_strlit("source");
    assert("time"@.len() != "level"@.len());
    assert("time"@.len() != "lvl"@.len());
    assert("time"@.len() != "severity"@.len());
    assert("time"@.len() != "log_level"@.len());
    assert("timestamp"@.len() != "level"@.len());
    assert("timestamp"@.len() != "lvl"@.len());
    assert("timestamp"@.len() != "severity"@.len());
    assert("timestamp"@[0] != "log_level"@[0]);
    assert("ts"@.len() != "level"@.len());
    assert("ts"@.len() != "lvl"@.len());
    assert("ts"@.len() != "severity"@.len());
    assert("ts"@.len() != "log_level"@.len());
    assert("@timestamp"@.len() != "level"@.len());
    assert("@timestamp"@.len() != "lvl"@.len());
    assert("@timestamp"@.len() != "severity"@.len());
    assert("@timestamp"@.len() != "log_level"@.len());
    assert("msg"@.len() != "level"@.len());
    assert("msg"@[0] != "lvl"@[0]);
    assert("msg"@.len() != "severity"@.len());
    assert("msg"@.len() != "log_level"@.len());
    assert("msg"@.len() != "time"@.len());
    assert("msg"@.len() != "timestamp"@.len());
    assert("msg"@.len() != "ts"@.len());
    assert("msg"@.len() != "@timestamp"@.len());
    assert("message"@.len() != "level"@.len());
    assert("message"@.len() != "lvl"@.len());
    assert("message"@.len() != "severity"@.len());
    assert("message"@.len() != "log_level"@.len());
    assert("message"@.len() != "time"@.len());
    assert("message"@.len() != "timestamp"@.len());
    assert("message"@.len() != "ts"@.len());
    assert("message"@.len() != "@timestamp"@.len());
    assert("body"@.len() != "level"@.len());
    assert("body"@.len() != "lvl"@.len());
    assert("body"@.len() != "severity"@.len());
    assert("body"@.len() != "log_level"@.len());
    assert("body"@[0] != "time"@[0]);
    assert("body"@.len() != "timestamp"@.len());
    assert("body"@.len() != "ts"@.len());
    assert("body"@.len() != "@timestamp"@.len());
    assert("trace_id"@.len() != "level"@.len());
    assert("trace_id"@.len() != "lvl"@.len());
    assert("trace_id"@[0] != "severity"@[0]);
    assert("trace_id"@.len() != "log_level"@.len());
    assert("trace_id"@.len() != "time"@.len());
    assert("trace_id"@.len() != "timestamp"@.len());
    assert("trace_id"@.len() != "ts"@.len());
    assert("trace_id"@.len() != "@timestamp"@.len());
    assert("trace_id"@.len() != "msg"@.len());
    assert("trace_id"@.len() != "message"@.len());
    assert("trace_id"@.len() != "body"@.len());
    assert("traceId"@.len() != "level"@.len());
    assert("traceId"@.len() != "lvl"@.len());
    assert("traceId"@.len() != "severity"@.len());
    assert("traceId"@.len() != "log_level"@.len());
    assert("traceId"@.len() != "time"@.len());
    assert("traceId"@.len() != "timestamp"@.len());
    assert("traceId"@.len() != "ts"@.len());
    assert("traceId"@.len() != "@timestamp"@.len());
    assert("traceId"@.len() != "msg"@.len());
    assert("traceId"@[0] != "message"@[0]);
    assert("traceId"@.len() != "body"@.len());
    assert("traceid"@.len() != "level"@.len());
    assert("traceid"@.len() != "lvl"@.len());
    assert("traceid"@.len() != "severity"@.len());
    assert("traceid"@.len() != "log_level"@.len());
    assert("traceid"@.len() != "time"@.len());
    assert("traceid"@.len() != "timestamp"@.len());
    assert("traceid"@.len() != "ts"@.len());
    assert("traceid"@.len() != "@timestamp"@.len());
    assert("traceid"@.len() != "msg"@.len());
    assert("traceid"@[0] != "message"@[0]);
    assert("traceid"@.len() != "body"@.len());
    assert("request_id"@.len() != "level"@.len());
    assert("request_id"@.len() != "lvl"@.len());
    assert("request_id"@.len() != "severity"@.len());
    assert("request_id"@.len() != "log_level"@.len());
    assert("request_id"@.len() != "time"@.len());
    assert("request_id"@.len() != "timestamp"@.len());
    assert("request_id"@.len() != "ts"@.len());
    assert("request_id"@[0] != "@timestamp"@[0]);
    assert("request_id"@.len() != "msg"@.len());
    assert("request_id"@.len() != "message"@.len());
    assert("request_id"@.len() != "body"@.len());
    assert("x-trace-id"@.len() != "level"@.len());
    assert("x-trace-id"@.len() != "lvl"@.len());
    assert("x-trace-id"@.len() != "severity"@.len());
    assert("x-trace-id"@.len() != "log_level"@.len());
    assert("x-trace-id"@.len() != "time"@.len());
    assert("x-trace-id"@.len() != "timestamp"@.len());
    assert("x-trace-id"@.len() != "ts"@.len());
    assert("x-trace-id"@[0] != "@timestamp"@[0]);
    assert("x-trace-id"@.len() != "msg"@.len());
    assert("x-trace-id"@.len() != "message"@.len());
    assert("x-trace-id"@.len() != "body"@.len());
    assert("caller"@.len() != "level"@.len());
    assert("caller"@.len() != "lvl"@.len());
    assert("caller"@.len() != "severity"@.len());
    assert("caller"@.len() != "log_level"@.len());
    assert("caller"@.len() != "time"@.len());
    assert("caller"@.len() != "timestamp"@.len());
    assert("caller"@.len() != "ts"@.len());
    assert("caller"@.len() != "@timestamp"@.len());
    assert("caller"@.len() != "msg"@.len());
    assert("caller"@.len() != "message"@.len());
    assert("caller"@.len() != "body"@.len());
    assert("caller"@.len() != "trace_id"@.len());
    assert("caller"@.len() != "traceId"@.len());
    assert("caller"@.len() != "traceid"@.len());
    assert("caller"@.len() != "request_id"@.len());
    assert("caller"@.len() != "x-trace-id"@.len());
    assert("file"@.len() != "level"@.len());
    assert("file"@.len() != "lvl"@.len());
    assert("file"@.len() != "severity"@.len());
    assert("file"@.len() != "log_level"@.len());
    assert("file"@[0] != "time"@[0]);
    assert("file"@.len() != "timestamp"@.len());
    assert("file"@.len() != "ts"@.len());
    assert("file"@.len() != "@timestamp"@.len());
    assert("file"@.len() != "msg"@.len());
    assert("file"@.len() != "message"@.len());
    assert("file"@[0] != "body"@[0]);
    assert("file"@.len() != "trace_id"@.len());
    assert("file"@.len() != "traceId"@.len());
    assert("file"@.len() != "traceid"@.len());
    assert("file"@.len() != "request_id"@.len());
    assert("file"@.len() != "x-trace-id"@.len());
    assert("source"@.len() != "level"@.len());
    assert("source"@.len() != "lvl"@.len());
    assert("source"@.len() != "severity"@.len());
    assert("source"@.len() != "log_level"@.len());
    assert("source"@.len() != "time"@.len());
    assert("source"@.len() != "timestamp"@.len());
    assert("source"@.len() != "ts"@.len());
    assert("source"@.len() != "@timestamp"@.len());
    assert("source"@.len() != "msg"@.len());
    assert("source"@.len() != "message"@.len());
    assert("source"@.len() != "body"@.len());
    assert("source"@.len() != "trace_id"@.len());
    assert("source"@.len() != "traceId"@.len());
    assert("source"@.len() != "traceid"@.len());
    assert("source"@.len() != "request_id"@.len());
    assert("source"@.len() != "x-trace-id"@.len());
    lemma_role_from_texts(a, "level"@);
    lemma_role_from_texts(a, "lvl"@);
    lemma_role_from_texts(a, "severity"@);
    lemma_role_from_texts(a, "log_level"@);
    lemma_role_from_texts(a, "time"@);
    lemma_role_from_texts(a, "timestamp"@);
    lemma_role_from_texts(a, "ts"@);
    lemma_role_from_texts(a, "@timestamp"@);
    lemma_role_from_texts(a, "msg"@);
    lemma_role_from_texts(a, "message"@);
    lemma_role_from_texts(a, "body"@);
    lemma_role_from_texts(a, "trace_id"@);
    lemma_role_from_texts(a, "traceId"@);
    lemma_role_from_texts(a, "traceid"@);
    lemma_role_from_texts(a, "request_id"@);
    lemma_role_from_texts(a, "x-trace-id"@);
    lemma_role_from_texts(a, "caller"@);
    lemma_role_from_texts(a, "file"@);
    lemma_role_from_texts(a, "source"@);
}

} // verus!
