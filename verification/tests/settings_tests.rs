use scylla::settings::{log_enabled, log_line};
use scylla::plugin_api::ConfigField;
use scylla::plugin_config::{ConfigValues, PluginConfig};
use scylla::settings::fields::SettingsField;
use scylla::settings::{
    clock, compiled_defaults_from, is_float_text, merge_saved, parse_u64, parse_u8, LogLevel,
    PersistedSettings, ReaderMode, Settings,
};

#[test]
fn test_all_returns_six_variants() {
    let all = SettingsField::all();
    assert_eq!(all.len(), 6);
}

#[test]
fn test_labels_are_non_empty() {
    for field in SettingsField::all() {
        assert!(!field.label().is_empty());
    }
}

#[test]
fn test_reader_mode_toggle() {
    assert_eq!(ReaderMode::Paged.toggle(), ReaderMode::Scrollable);
    assert_eq!(ReaderMode::Scrollable.toggle(), ReaderMode::Paged);
}

#[test]
fn test_reader_mode_display() {
    assert_eq!(ReaderMode::Paged.to_string(), "Paged");
    assert_eq!(ReaderMode::Scrollable.to_string(), "Scrollable");
}

#[test]
fn test_settings_defaults() {
    let s = Settings::new();
    assert_eq!(s.rate_limit_secs, 2);
    assert_eq!(s.reader_mode, ReaderMode::Paged);
    assert!(!s.debug_log);
}

#[test]
fn test_field_value_rate_limit() {
    let s = Settings::new();
    assert_eq!(s.field_value(&SettingsField::RateLimit), "2");
}

#[test]
fn test_field_value_debug_log() {
    let mut s = Settings::new();
    assert_eq!(s.field_value(&SettingsField::DebugLog), "OFF");
    s.debug_log = true;
    assert_eq!(s.field_value(&SettingsField::DebugLog), "ON");
}

#[test]
fn test_field_value_reader_mode() {
    let mut s = Settings::new();
    assert_eq!(s.field_value(&SettingsField::ReaderMode), "Paged");
    s.reader_mode = ReaderMode::Scrollable;
    assert_eq!(s.field_value(&SettingsField::ReaderMode), "Scrollable");
}

#[test]
fn test_persisted_settings_default() {
    let p = PersistedSettings::default();
    assert_eq!(p.rate_limit_secs, 2);
    assert!(!p.debug_log);
    assert_eq!(p.reader_mode, ReaderMode::Paged);
    assert_eq!(p.max_workers, 4);
}

#[test]
fn test_compiled_defaults_fallback() {
    // No build value is set: every setting falls back to its default.
    let d = compiled_defaults_from(None, None, None, None);
    assert_eq!(d.rate_limit_secs, 2);
    assert!(!d.debug_log);
    assert_eq!(d.reader_mode, ReaderMode::Paged);
    assert_eq!(d.max_workers, 4);
}

#[test]
fn compiled_defaults_take_valid_build_values() {
    let d = compiled_defaults_from(Some("7"), Some("true"), Some("Scrollable"), Some("12"));
    assert_eq!(d.rate_limit_secs, 7);
    assert!(d.debug_log);
    assert_eq!(d.reader_mode, ReaderMode::Scrollable);
    assert_eq!(d.max_workers, 12);
    let bad = compiled_defaults_from(Some("x7"), Some("TRUE"), Some("paged"), Some("300"));
    assert_eq!(bad.rate_limit_secs, 2);
    assert!(!bad.debug_log);
    assert_eq!(bad.reader_mode, ReaderMode::Paged);
    assert_eq!(bad.max_workers, 4);
}

#[test]
fn unsigned_parsing_follows_str_parse() {
    assert_eq!(parse_u64("0"), Some(0));
    assert_eq!(parse_u64("+42"), Some(42));
    assert_eq!(parse_u64("18446744073709551615"), Some(u64::MAX));
    assert_eq!(parse_u64("18446744073709551616"), None);
    assert_eq!(parse_u64(""), None);
    assert_eq!(parse_u64("+"), None);
    assert_eq!(parse_u64("-1"), None);
    assert_eq!(parse_u64(" 1"), None);
    assert_eq!(parse_u8("255"), Some(255));
    assert_eq!(parse_u8("256"), None);
    for s in ["0", "+42", "18446744073709551615", "18446744073709551616", "", "+", "-0", "1_0"] {
        assert_eq!(parse_u64(s), s.parse::<u64>().ok(), "{}", s);
        assert_eq!(parse_u8(s), s.parse::<u8>().ok(), "{}", s);
    }
}

#[test]
fn float_text_follows_str_parse() {
    for s in [
        "1", "1.", ".5", "1.5", "-1.5e3", "+2E-4", "inf", "-Infinity", "NaN", "nan", "1e", ".", "e5",
        "1.2.3", "abc", "", "+", "1 ", "0x10", "1_000", "infinit", "+.e1", "5.e2",
    ] {
        assert_eq!(is_float_text(s), s.parse::<f64>().is_ok(), "{}", s);
    }
}

#[test]
fn merge_keeps_directories_and_takes_saved_values() {
    let merged = PersistedSettings::default();
    let user = PersistedSettings {
        rate_limit_secs: 9,
        debug_log: true,
        reader_mode: ReaderMode::Scrollable,
        max_workers: 2,
        config_dir: Some("/c".into()),
        data_dir: None,
    };
    let m = merge_saved(merged, &user);
    assert_eq!(m.rate_limit_secs, 9);
    assert!(m.debug_log);
    assert_eq!(m.reader_mode, ReaderMode::Scrollable);
    assert_eq!(m.max_workers, 2);
    assert!(m.config_dir.is_none());
}

#[test]
fn log_levels_and_clock() {
    assert_eq!(LogLevel::Error.to_string(), "ERROR");
    assert_eq!(LogLevel::Debug.to_string(), "DEBUG");
    assert_eq!(clock(0), "00:00:00 UTC");
    assert_eq!(clock(3600 * 25 + 61), "01:01:01 UTC");
    assert_eq!(clock(86399), "23:59:59 UTC");
}

fn plugin(schema: Vec<ConfigField>) -> PluginConfig {
    PluginConfig {
        domain: "d".into(),
        schema,
        accepts_cookies: true,
        values: ConfigValues::new(),
        cookies: String::new(),
        path: String::new(),
    }
}

fn number_field() -> ConfigField {
    ConfigField {
        key: "n".into(),
        label: "N".into(),
        field_type: "number".into(),
        default: "1".into(),
    }
}

#[test]
fn save_current_field_edits_values_cookies_and_refuses_bad_numbers() {
    let mut s = Settings::new();
    s.reload_plugins(vec![plugin(vec![number_field()])]);
    assert_eq!(s.field_value(&SettingsField::Plugins), "1 domain(s)");
    assert_eq!(s.save_current_field(0, 0, "abc"), Err("Invalid number".to_string()));
    assert!(s.plugin_configs[0].values.get("n").is_none());
    assert_eq!(s.save_current_field(0, 0, "2.5"), Ok(Some(0)));
    assert_eq!(s.plugin_configs[0].values.get("n").map(|v| v.as_str()), Some("2.5"));
    assert_eq!(s.save_current_field(0, 0, ""), Ok(Some(0)));
    assert_eq!(s.save_current_field(0, 1, "k=v"), Ok(Some(0)));
    assert_eq!(s.plugin_configs[0].cookies, "k=v");
    assert_eq!(s.save_current_field(0, 2, "x"), Ok(None));
    assert_eq!(s.save_current_field(3, 0, "x"), Ok(None));
}

#[test]
fn log_lines_and_levels() {
    assert!(log_enabled(&LogLevel::Error, false));
    assert!(!log_enabled(&LogLevel::Debug, false));
    assert!(log_enabled(&LogLevel::Debug, true));
    assert_eq!(
        log_line("01:02:03 UTC", &LogLevel::Debug, "UI", "hello"),
        "[01:02:03 UTC] [DEBUG] [UI] hello"
    );
}

#[test]
fn log_file_is_under_scylla_reader() {
    let f = scylla::settings::log_file();
    assert!(f.ends_with("/scylla-reader/scylla-reader.log"));
}
