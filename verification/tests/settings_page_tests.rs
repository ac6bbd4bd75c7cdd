use scylla::plugin_api::ConfigField;
use scylla::plugin_config::PluginConfig;
use scylla::settings::{ReaderMode, Settings, SettingsPage};
use scylla::settings_page::{handle_settings, SettingsKey, SettingsRequest, SettingsUi};

#[test]
fn test_handle_settings_main_navigate() {
    let mut ui = SettingsUi::new();
    let mut s = Settings::new();
    assert_eq!(ui.selected_field, 0);
    handle_settings(&mut ui, &mut s, SettingsKey::Down);
    assert_eq!(ui.selected_field, 1);
    handle_settings(&mut ui, &mut s, SettingsKey::Down);
    assert_eq!(ui.selected_field, 2);
    handle_settings(&mut ui, &mut s, SettingsKey::Up);
    assert_eq!(ui.selected_field, 1);
    handle_settings(&mut ui, &mut s, SettingsKey::Up);
    assert_eq!(ui.selected_field, 0);
}

#[test]
fn test_handle_settings_main_tab_does_not_navigate() {
    let mut ui = SettingsUi::new();
    let mut s = Settings::new();
    let r = handle_settings(&mut ui, &mut s, SettingsKey::Other);
    assert!(r.is_none());
    assert_eq!(ui.selected_field, 0);
}

#[test]
fn test_handle_settings_main_enter_edits_rate_limit() {
    let mut ui = SettingsUi::new();
    let mut s = Settings::new();
    ui.selected_field = 0;
    assert!(!ui.editing);
    handle_settings(&mut ui, &mut s, SettingsKey::Enter);
    assert!(ui.editing);
    assert_eq!(ui.edit_buffer, "2");
}

#[test]
fn test_handle_settings_main_enter_saves_rate_limit() {
    let mut ui = SettingsUi::new();
    let mut s = Settings::new();
    ui.editing = true;
    ui.edit_buffer = "5".to_string();
    let r = handle_settings(&mut ui, &mut s, SettingsKey::Enter);
    assert_eq!(r, Some(SettingsRequest::SetRateLimit(5)));
    assert!(!ui.editing);
    assert_eq!(s.rate_limit_secs, 5);
}

#[test]
fn test_handle_settings_main_enter_debug_log() {
    let mut ui = SettingsUi::new();
    let mut s = Settings::new();
    ui.selected_field = 1;
    let r = handle_settings(&mut ui, &mut s, SettingsKey::Enter);
    assert_eq!(r, Some(SettingsRequest::ReloadLog));
    assert_eq!(ui.settings_page, SettingsPage::DebugLog);
}

#[test]
fn test_handle_settings_main_enter_toggles_reader_mode() {
    let mut ui = SettingsUi::new();
    let mut s = Settings::new();
    ui.selected_field = 2;
    assert_eq!(s.reader_mode, ReaderMode::Paged);
    let r = handle_settings(&mut ui, &mut s, SettingsKey::Enter);
    assert_eq!(r, Some(SettingsRequest::SaveSettings));
    assert_eq!(s.reader_mode, ReaderMode::Scrollable);
}

#[test]
fn test_handle_plugin_field_edit_enter_saves_and_goes_back() {
    let mut ui = SettingsUi::new();
    let mut s = Settings::new();
    ui.settings_page = SettingsPage::PluginFieldEdit;
    handle_settings(&mut ui, &mut s, SettingsKey::Enter);
    assert_eq!(ui.settings_page, SettingsPage::PluginFields);
}

#[test]
fn test_handle_settings_main_char_while_editing() {
    let mut ui = SettingsUi::new();
    let mut s = Settings::new();
    ui.editing = true;
    ui.edit_buffer = "2".to_string();
    handle_settings(&mut ui, &mut s, SettingsKey::Char('5'));
    assert_eq!(ui.edit_buffer, "25");
}

#[test]
fn test_handle_settings_main_backspace_while_editing() {
    let mut ui = SettingsUi::new();
    let mut s = Settings::new();
    ui.editing = true;
    ui.edit_buffer = "25".to_string();
    handle_settings(&mut ui, &mut s, SettingsKey::Backspace);
    assert_eq!(ui.edit_buffer, "2");
}

#[test]
fn test_handle_settings_main_enter_invalid_rate_limit_keeps_old() {
    let mut ui = SettingsUi::new();
    let mut s = Settings::new();
    ui.editing = true;
    ui.edit_buffer = "not_a_number".to_string();
    let old_rate = s.rate_limit_secs;
    let r = handle_settings(&mut ui, &mut s, SettingsKey::Enter);
    assert!(r.is_none());
    assert!(!ui.editing);
    assert_eq!(s.rate_limit_secs, old_rate);
}

#[test]
fn test_handle_settings_main_enter_toggles_reader_mode_and_saves() {
    let mut ui = SettingsUi::new();
    let mut s = Settings::new();
    ui.selected_field = 2;
    handle_settings(&mut ui, &mut s, SettingsKey::Enter);
    assert_eq!(s.reader_mode, ReaderMode::Scrollable);
    handle_settings(&mut ui, &mut s, SettingsKey::Enter);
    assert_eq!(s.reader_mode, ReaderMode::Paged);
}

#[test]
fn test_handle_plugin_list_navigate() {
    let mut ui = SettingsUi::new();
    let mut s = Settings::new();
    ui.settings_page = SettingsPage::PluginList;
    handle_settings(&mut ui, &mut s, SettingsKey::Down);
    handle_settings(&mut ui, &mut s, SettingsKey::Up);
    assert_eq!(ui.selected_plugin, 0);
}

fn field(key: &str, ty: &str, default: &str) -> ConfigField {
    ConfigField { key: key.into(), label: key.into(), field_type: ty.into(), default: default.into() }
}

#[test]
fn plugin_fields_edit_and_save() {
    let mut ui = SettingsUi::new();
    let mut s = Settings::new();
    s.reload_plugins(vec![PluginConfig::for_domain("site", vec![field("count", "number", "5")], true, None)]);
    ui.selected_field = 4;
    assert_eq!(handle_settings(&mut ui, &mut s, SettingsKey::Enter), Some(SettingsRequest::ReloadPlugins));
    assert_eq!(ui.settings_page, SettingsPage::PluginList);
    handle_settings(&mut ui, &mut s, SettingsKey::Enter);
    assert_eq!(ui.settings_page, SettingsPage::PluginFields);
    handle_settings(&mut ui, &mut s, SettingsKey::Down);
    handle_settings(&mut ui, &mut s, SettingsKey::Down);
    assert_eq!(ui.selected_plugin_field, 1);
    handle_settings(&mut ui, &mut s, SettingsKey::Up);
    handle_settings(&mut ui, &mut s, SettingsKey::Enter);
    assert_eq!(ui.settings_page, SettingsPage::PluginFieldEdit);
    assert_eq!(ui.plugin_field_buffer, "5");
    handle_settings(&mut ui, &mut s, SettingsKey::Char('x'));
    let r = handle_settings(&mut ui, &mut s, SettingsKey::Enter);
    assert_eq!(r, Some(SettingsRequest::FieldRefused("Invalid number".to_string())));
    assert_eq!(ui.plugin_field_buffer, "");
    handle_settings(&mut ui, &mut s, SettingsKey::Enter);
    handle_settings(&mut ui, &mut s, SettingsKey::Backspace);
    handle_settings(&mut ui, &mut s, SettingsKey::Char('7'));
    let r = handle_settings(&mut ui, &mut s, SettingsKey::Enter);
    assert_eq!(r, Some(SettingsRequest::SavePlugin(0)));
    assert_eq!(s.plugin_configs[0].values.get("count"), Some(&"7".to_string()));
}

#[test]
fn debug_log_page_toggles_and_scrolls() {
    let mut ui = SettingsUi::new();
    let mut s = Settings::new();
    ui.settings_page = SettingsPage::DebugLog;
    ui.log_lines = vec!["a".into(), "b".into()];
    handle_settings(&mut ui, &mut s, SettingsKey::Down);
    handle_settings(&mut ui, &mut s, SettingsKey::Down);
    assert_eq!(ui.log_scroll, 1);
    assert_eq!(handle_settings(&mut ui, &mut s, SettingsKey::Enter), Some(SettingsRequest::DebugToggled(true)));
    assert!(s.debug_log);
    assert_eq!(ui.log_scroll, 0);
}

#[test]
fn server_page_escape_and_refresh() {
    let mut ui = SettingsUi::new();
    let mut s = Settings::new();
    ui.selected_field = 5;
    assert_eq!(handle_settings(&mut ui, &mut s, SettingsKey::Enter), Some(SettingsRequest::RefreshServer));
    assert_eq!(ui.settings_page, SettingsPage::Server);
    assert_eq!(handle_settings(&mut ui, &mut s, SettingsKey::Char('s')), Some(SettingsRequest::RefreshServer));
    handle_settings(&mut ui, &mut s, SettingsKey::Escape);
    assert_eq!(ui.settings_page, SettingsPage::Main);
}
