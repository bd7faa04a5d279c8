use pretty_log::config::{
    apply_switches, colors_disabled, config_source, table_shows_extras, with_builtin_aliases, Config, ConfigSource,
    FieldAliases, MultilineConfig,
};

#[test]
fn default_config_has_level_aliases() {
    let cfg = Config::default();
    assert!(cfg.fields.level.contains(&"level".to_string()));
    assert!(cfg.fields.level.contains(&"lvl".to_string()));
    assert!(cfg.fields.level.contains(&"severity".to_string()));
}

#[test]
fn default_config_has_timestamp_aliases() {
    let cfg = Config::default();
    assert!(cfg.fields.timestamp.contains(&"time".to_string()));
    assert!(cfg.fields.timestamp.contains(&"ts".to_string()));
}

#[test]
fn default_config_multiline_enabled() {
    let cfg = Config::default();
    assert!(cfg.multiline.enabled);
}

#[test]
fn default_table_config_has_expected_columns() {
    let cfg = Config::default();
    assert_eq!(cfg.table.columns, vec!["time", "level", "message"]);
    assert!(!cfg.table.show_extras_in_detail);
}

#[test]
fn default_continuation_pattern_is_not_a_brace() {
    let m = MultilineConfig::default();
    assert_eq!(m.continuation_pattern, r"^[^\{]");
    assert!(!Config::default().expand_nested);
    assert!(!Config::default().highlight_errors);
}

#[test]
fn config_source_follows_the_search_order() {
    assert_eq!(config_source(true, true, true), ConfigSource::Explicit);
    assert_eq!(config_source(false, true, true), ConfigSource::Local);
    assert_eq!(config_source(false, false, true), ConfigSource::UserDir);
    assert_eq!(config_source(false, false, false), ConfigSource::Defaults);
}

#[test]
fn switches_only_turn_settings_on() {
    let mut cfg = Config::default();
    apply_switches(&mut cfg, true, false);
    assert!(cfg.expand_nested);
    assert!(!cfg.highlight_errors);
    apply_switches(&mut cfg, false, false);
    assert!(cfg.expand_nested);
    apply_switches(&mut cfg, false, true);
    assert!(cfg.highlight_errors);
}

#[test]
fn colors_and_extras_switches() {
    assert!(colors_disabled(true, true));
    assert!(colors_disabled(false, false));
    assert!(!colors_disabled(false, true));
    let mut cfg = Config::default();
    assert!(!table_shows_extras(false, &cfg));
    assert!(table_shows_extras(true, &cfg));
    cfg.table.show_extras_in_detail = true;
    assert!(table_shows_extras(false, &cfg));
}

#[test]
fn configured_aliases_are_added_to_the_builtin_ones() {
    let configured = FieldAliases {
        level: vec!["sev".to_string()],
        timestamp: vec![],
        message: vec!["text".to_string(), "msg".to_string()],
        trace_id: vec![],
        caller: vec!["where".to_string()],
    };
    let a = with_builtin_aliases(configured);
    assert_eq!(a.level, vec!["level", "lvl", "severity", "log_level", "sev"]);
    assert_eq!(a.timestamp, FieldAliases::default().timestamp);
    assert_eq!(a.message, vec!["msg", "message", "body", "text", "msg"]);
    assert_eq!(a.trace_id, FieldAliases::default().trace_id);
    assert_eq!(a.caller, vec!["caller", "file", "source", "where"]);
}
