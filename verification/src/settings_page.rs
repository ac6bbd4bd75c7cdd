//! The settings screen's keys: the main list and its rate-limit editor,
//! the debug log, the plugin list, a plugin's fields and the field editor,
//! and the server page.
use vstd::prelude::*;
use crate::plugin_config::{lookup, PluginConfig};
use crate::settings::fields::SettingsField;
use crate::settings::{
    edit_applied, edit_outcome, parse_u64, unsigned_text, ReaderMode, Settings, SettingsPage,
};
use crate::text::{decimal, decimal_string, pop_char, push_char};

verus! {

/// Where the settings screen stands.
#[derive(Debug)]
pub struct SettingsUi {
    pub settings_page: SettingsPage,
    /// The selected row of the main list.
    pub selected_field: usize,
    /// Whether the rate limit is being typed.
    pub editing: bool,
    pub edit_buffer: String,
    pub log_scroll: usize,
    /// The debug log's lines, as last read.
    pub log_lines: Vec<String>,
    pub selected_plugin: usize,
    pub selected_plugin_field: usize,
    pub plugin_field_buffer: String,
    pub plugin_field_editing: bool,
}

impl SettingsUi {
    /// The screen as it opens: the main list, its first row selected,
    /// nothing being edited, no log read.
    pub fn new() -> (r: Self)
        ensures
            r.settings_page == SettingsPage::Main,
            r.selected_field == 0,
            !r.editing,
            r.edit_buffer@.len() == 0,
            r.log_scroll == 0,
            r.log_lines@.len() == 0,
            r.selected_plugin == 0,
            r.selected_plugin_field == 0,
            r.plugin_field_buffer@.len() == 0,
            !r.plugin_field_editing,
    {
        SettingsUi {
            settings_page: SettingsPage::Main,
            selected_field: 0,
            editing: false,
            edit_buffer: String::new(),
            log_scroll: 0,
            log_lines: Vec::new(),
            selected_plugin: 0,
            selected_plugin_field: 0,
            plugin_field_buffer: String::new(),
            plugin_field_editing: false,
        }
    }
}

/// A key the settings screen answers.
#[derive(Debug, Clone, Copy, PartialEq, Eq, Structural)]
pub enum SettingsKey {
    Down,
    Up,
    Enter,
    Escape,
    Backspace,
    Char(char),
    Other,
}

/// What a key of the settings screen asks the program to do.
#[derive(Debug, PartialEq)]
pub enum SettingsRequest {
    /// The rate limit changed: save the settings and tell the worker.
    SetRateLimit(u64),
    /// A setting changed: save the settings.
    SaveSettings,
    /// Read the debug log into the screen.
    ReloadLog,
    /// Debug logging was switched: apply it, save the settings, start a
    /// fresh log when it is on, and read the log into the screen.
    DebugToggled(bool),
    /// Find the plugin configurations again.
    ReloadPlugins,
    /// Ask the server for its settings.
    RefreshServer,
    /// The plugin configuration at this position changed: write it out.
    SavePlugin(usize),
    /// The edited value was refused, for this reason.
    FieldRefused(String),
}

/// The number of rows of the main list.
pub open spec fn main_rows() -> nat {
    6
}

/// The row after moving down a list of `n` rows, kept on the last one;
/// unchanged in an empty list.
pub open spec fn row_down(i: usize, n: nat) -> usize {
    if n > 0 {
        if i + 1 < n {
            (i + 1) as usize
        } else {
            (n - 1) as usize
        }
    } else {
        i
    }
}

/// The row after moving up, kept on the first one.
pub open spec fn row_up(i: usize) -> usize {
    if i > 0 {
        (i - 1) as usize
    } else {
        0
    }
}

/// The setting on a row of the main list.
pub open spec fn field_at(i: int) -> SettingsField {
    if i == 0 {
        SettingsField::RateLimit
    } else if i == 1 {
        SettingsField::DebugLog
    } else if i == 2 {
        SettingsField::ReaderMode
    } else if i == 3 {
        SettingsField::AutoEmbed
    } else if i == 4 {
        SettingsField::Plugins
    } else {
        SettingsField::Server
    }
}

/// How many rows a plugin's field list has: its fields, and one for the
/// cookies when it takes them.
pub open spec fn plugin_rows(c: PluginConfig) -> nat {
    c.schema@.len() + if c.accepts_cookies {
        1nat
    } else {
        0nat
    }
}

/// The text a plugin's field row starts editing with: the cookies on the
/// cookie row, the stored value (or nothing) on a field's row.
pub open spec fn field_text_of(c: PluginConfig, row: int) -> Option<Seq<char>> {
    if c.accepts_cookies && row == c.schema@.len() {
        Some(c.cookies@)
    } else if 0 <= row < c.schema@.len() {
        match lookup(c.values@, c.schema@[row].key@) {
            Some(v) => Some(v),
            None => Some(seq![]),
        }
    } else {
        None
    }
}

/// Whether nothing of the settings changed.
pub open spec fn same_settings(a: Settings, b: Settings) -> bool {
    &&& a.rate_limit_secs == b.rate_limit_secs
    &&& a.debug_log == b.debug_log
    &&& a.reader_mode == b.reader_mode
    &&& a.max_workers == b.max_workers
    &&& a.plugin_configs == b.plugin_configs
}

/// The settings screen's answer to a key on the main list.
pub open spec fn main_step(
    u: SettingsUi,
    s: Settings,
    key: SettingsKey,
    n: SettingsUi,
    t: Settings,
    r: Option<SettingsRequest>,
) -> bool {
    match key {
        SettingsKey::Down => r is None && same_settings(s, t) && n == SettingsUi {
            selected_field: row_down(u.selected_field, main_rows()),
            ..u
        },
        SettingsKey::Up => r is None && same_settings(s, t) && n == SettingsUi {
            selected_field: row_up(u.selected_field),
            ..u
        },
        SettingsKey::Enter => match field_at(u.selected_field as int) {
            SettingsField::RateLimit => if u.editing {
                &&& n == SettingsUi { editing: false, ..u }
                &&& match unsigned_text(u.edit_buffer@) {
                    Some(v) => if v <= u64::MAX {
                        r == Some(SettingsRequest::SetRateLimit(v as u64)) && t == Settings {
                            rate_limit_secs: v as u64,
                            ..s
                        }
                    } else {
                        r is None && same_settings(s, t)
                    },
                    None => r is None && same_settings(s, t),
                }
            } else {
                &&& r is None
                &&& same_settings(s, t)
                &&& n.edit_buffer@ == decimal(s.rate_limit_secs as nat)
                &&& n == SettingsUi { editing: true, edit_buffer: n.edit_buffer, ..u }
            },
            SettingsField::DebugLog => r == Some(SettingsRequest::ReloadLog) && same_settings(s, t)
                && n == SettingsUi { log_scroll: 0, settings_page: SettingsPage::DebugLog, ..u },
            SettingsField::ReaderMode => r == Some(SettingsRequest::SaveSettings) && t == Settings {
                reader_mode: match s.reader_mode {
                    ReaderMode::Paged => ReaderMode::Scrollable,
                    ReaderMode::Scrollable => ReaderMode::Paged,
                },
                ..s
            } && n == u,
            SettingsField::Plugins => r == Some(SettingsRequest::ReloadPlugins) && same_settings(s, t)
                && n == SettingsUi {
                selected_plugin: 0,
                settings_page: SettingsPage::PluginList,
                ..u
            },
            SettingsField::Server => r == Some(SettingsRequest::RefreshServer) && same_settings(s, t)
                && n == SettingsUi { settings_page: SettingsPage::Server, ..u },
            SettingsField::AutoEmbed => r is None && same_settings(s, t) && n == u,
        },
        SettingsKey::Char(c) => r is None && same_settings(s, t) && if u.editing {
            n.edit_buffer@ == u.edit_buffer@.push(c) && n == SettingsUi {
                edit_buffer: n.edit_buffer,
                ..u
            }
        } else {
            n == u
        },
        SettingsKey::Backspace => r is None && same_settings(s, t) && if u.editing {
            n.edit_buffer@ == (if u.edit_buffer@.len() > 0 {
                u.edit_buffer@.drop_last()
            } else {
                u.edit_buffer@
            }) && n == SettingsUi { edit_buffer: n.edit_buffer, ..u }
        } else {
            n == u
        },
        _ => r is None && same_settings(s, t) && n == u,
    }
}

/// The settings screen's answer to a key on the debug log.
pub open spec fn log_step(
    u: SettingsUi,
    s: Settings,
    key: SettingsKey,
    n: SettingsUi,
    t: Settings,
    r: Option<SettingsRequest>,
) -> bool {
    match key {
        SettingsKey::Enter => r == Some(SettingsRequest::DebugToggled(!s.debug_log)) && t == Settings {
            debug_log: !s.debug_log,
            ..s
        } && n == SettingsUi { log_scroll: 0, ..u },
        SettingsKey::Up => r is None && same_settings(s, t) && n == SettingsUi {
            log_scroll: row_up(u.log_scroll),
            ..u
        },
        SettingsKey::Down => r is None && same_settings(s, t) && n == SettingsUi {
            log_scroll: if u.log_lines@.len() > 0 {
                row_down(u.log_scroll, u.log_lines@.len())
            } else {
                0
            },
            ..u
        },
        _ => r is None && same_settings(s, t) && n == u,
    }
}

/// The settings screen's answer to a key on the plugin list.
pub open spec fn plugin_list_step(
    u: SettingsUi,
    s: Settings,
    key: SettingsKey,
    n: SettingsUi,
    t: Settings,
    r: Option<SettingsRequest>,
) -> bool {
    &&& r is None
    &&& same_settings(s, t)
    &&& match key {
        SettingsKey::Down => n == SettingsUi {
            selected_plugin: row_down(u.selected_plugin, s.plugin_configs@.len()),
            ..u
        },
        SettingsKey::Up => n == SettingsUi { selected_plugin: row_up(u.selected_plugin), ..u },
        SettingsKey::Enter => if s.plugin_configs@.len() > 0 {
            n == SettingsUi {
                selected_plugin_field: 0,
                settings_page: SettingsPage::PluginFields,
                ..u
            }
        } else {
            n == u
        },
        _ => n == u,
    }
}

/// The settings screen's answer to a key on a plugin's fields.
pub open spec fn plugin_fields_step(
    u: SettingsUi,
    s: Settings,
    key: SettingsKey,
    n: SettingsUi,
    t: Settings,
    r: Option<SettingsRequest>,
) -> bool {
    &&& r is None
    &&& same_settings(s, t)
    &&& if u.selected_plugin >= s.plugin_configs@.len() {
        n == SettingsUi { settings_page: SettingsPage::PluginList, ..u }
    } else {
        let c = s.plugin_configs@[u.selected_plugin as int];
        match key {
            SettingsKey::Down => n == SettingsUi {
                selected_plugin_field: row_down(u.selected_plugin_field, plugin_rows(c)),
                ..u
            },
            SettingsKey::Up => n == SettingsUi {
                selected_plugin_field: row_up(u.selected_plugin_field),
                ..u
            },
            SettingsKey::Enter => match field_text_of(c, u.selected_plugin_field as int) {
                Some(text) => n.plugin_field_buffer@ == text && n == SettingsUi {
                    plugin_field_buffer: n.plugin_field_buffer,
                    plugin_field_editing: true,
                    settings_page: SettingsPage::PluginFieldEdit,
                    ..u
                },
                None => n == u,
            },
            _ => n == u,
        }
    }
}

/// The settings screen's answer to a key in the field editor.
pub open spec fn field_edit_step(
    u: SettingsUi,
    s: Settings,
    key: SettingsKey,
    n: SettingsUi,
    t: Settings,
    r: Option<SettingsRequest>,
) -> bool {
    match key {
        SettingsKey::Enter => {
            &&& edit_applied(
                s,
                t,
                u.selected_plugin,
                u.selected_plugin_field,
                u.plugin_field_buffer@,
            )
            &&& n.plugin_field_buffer@.len() == 0
            &&& n == SettingsUi {
                plugin_field_buffer: n.plugin_field_buffer,
                plugin_field_editing: false,
                settings_page: SettingsPage::PluginFields,
                ..u
            }
            &&& match edit_outcome(
                s.plugin_configs@,
                u.selected_plugin as int,
                u.selected_plugin_field as int,
                u.plugin_field_buffer@,
            ) {
                Ok(Some(i)) => r == Some(SettingsRequest::SavePlugin(i)),
                Ok(None) => r is None,
                Err(e) => r matches Some(SettingsRequest::FieldRefused(m)) && m@ == e,
            }
        },
        SettingsKey::Char(c) => r is None && t == s && n.plugin_field_buffer@
            == u.plugin_field_buffer@.push(c) && n == SettingsUi {
            plugin_field_buffer: n.plugin_field_buffer,
            ..u
        },
        SettingsKey::Backspace => r is None && t == s && n.plugin_field_buffer@ == (
        if u.plugin_field_buffer@.len() > 0 {
            u.plugin_field_buffer@.drop_last()
        } else {
            u.plugin_field_buffer@
        }) && n == SettingsUi { plugin_field_buffer: n.plugin_field_buffer, ..u },
        _ => r is None && t == s && n == u,
    }
}

/// The settings screen's answer to a key on the server page.
pub open spec fn server_step(
    u: SettingsUi,
    s: Settings,
    key: SettingsKey,
    n: SettingsUi,
    t: Settings,
    r: Option<SettingsRequest>,
) -> bool {
    &&& same_settings(s, t)
    &&& match key {
        SettingsKey::Escape => r is None && n == SettingsUi { settings_page: SettingsPage::Main, ..u },
        SettingsKey::Char(c) => if c == 's' {
            r == Some(SettingsRequest::RefreshServer) && n == u
        } else {
            r is None && n == u
        },
        _ => r is None && n == u,
    }
}

/// The main settings page's answer to a key (see `main_step`).
pub fn handle_settings_main(ui: &mut SettingsUi, settings: &mut Settings, key: SettingsKey) -> (r: Option<
    SettingsRequest,
>)
    ensures
        main_step(*old(ui), *old(settings), key, *final(ui), *final(settings), r),
{
    match key {
        SettingsKey::Down => {
            ui.selected_field = if ui.selected_field < 5 {
                ui.selected_field + 1
            } else {
                5
            };
            None
        },
        SettingsKey::Up => {
            if ui.selected_field > 0 {
                ui.selected_field = ui.selected_field - 1;
            }
            None
        },
        SettingsKey::Enter => {
            let i = ui.selected_field;
            if i == 0 {
                if ui.editing {
                    ui.editing = false;
                    match parse_u64(ui.edit_buffer.as_str()) {
                        Some(rate) => {
                            settings.rate_limit_secs = rate;
                            Some(SettingsRequest::SetRateLimit(rate))
                        },
                        None => None,
                    }
                } else {
                    ui.edit_buffer = decimal_string(settings.rate_limit_secs);
                    ui.editing = true;
                    None
                }
            } else if i == 1 {
                ui.log_scroll = 0;
                ui.settings_page = SettingsPage::DebugLog;
                Some(SettingsRequest::ReloadLog)
            } else if i == 2 {
                settings.reader_mode = settings.reader_mode.toggle();
                Some(SettingsRequest::SaveSettings)
            } else if i == 3 {
                None
            } else if i == 4 {
                ui.selected_plugin = 0;
                ui.settings_page = SettingsPage::PluginList;
                Some(SettingsRequest::ReloadPlugins)
            } else {
                ui.settings_page = SettingsPage::Server;
                Some(SettingsRequest::RefreshServer)
            }
        },
        SettingsKey::Char(c) => {
            if ui.editing {
                push_char(&mut ui.edit_buffer, c);
            }
            None
        },
        SettingsKey::Backspace => {
            if ui.editing {
                pop_char(&mut ui.edit_buffer);
            }
            None
        },
        _ => None,
    }
}

/// The debug log page's answer to a key (see `log_step`).
fn handle_debug_log(ui: &mut SettingsUi, settings: &mut Settings, key: SettingsKey) -> (r: Option<
    SettingsRequest,
>)
    ensures
        log_step(*old(ui), *old(settings), key, *final(ui), *final(settings), r),
{
    match key {
        SettingsKey::Enter => {
            settings.debug_log = !settings.debug_log;
            ui.log_scroll = 0;
            Some(SettingsRequest::DebugToggled(settings.debug_log))
        },
        SettingsKey::Up => {
            if ui.log_scroll > 0 {
                ui.log_scroll = ui.log_scroll - 1;
            }
            None
        },
        SettingsKey::Down => {
            let n = ui.log_lines.len();
            ui.log_scroll = if n == 0 {
                0
            } else if ui.log_scroll < n - 1 {
                ui.log_scroll + 1
            } else {
                n - 1
            };
            None
        },
        _ => None,
    }
}

/// The plugin list's answer to a key (see `plugin_list_step`).
pub fn handle_plugin_list(ui: &mut SettingsUi, settings: &Settings, key: SettingsKey) -> (r: Option<
    SettingsRequest,
>)
    ensures
        plugin_list_step(*old(ui), *settings, key, *final(ui), *settings, r),
{
    let n = settings.plugin_configs.len();
    match key {
        SettingsKey::Down => {
            if n > 0 {
                ui.selected_plugin = if ui.selected_plugin < n - 1 {
                    ui.selected_plugin + 1
                } else {
                    n - 1
                };
            }
        },
        SettingsKey::Up => {
            if ui.selected_plugin > 0 {
                ui.selected_plugin = ui.selected_plugin - 1;
            }
        },
        SettingsKey::Enter => {
            if n > 0 {
                ui.selected_plugin_field = 0;
                ui.settings_page = SettingsPage::PluginFields;
            }
        },
        _ => {},
    }
    None
}

/// A plugin's field list's answer to a key (see `plugin_fields_step`).
pub fn handle_plugin_fields(ui: &mut SettingsUi, settings: &Settings, key: SettingsKey) -> (r: Option<
    SettingsRequest,
>)
    ensures
        plugin_fields_step(*old(ui), *settings, key, *final(ui), *settings, r),
{
    if ui.selected_plugin >= settings.plugin_configs.len() {
        ui.settings_page = SettingsPage::PluginList;
        return None;
    }
    let config = &settings.plugin_configs[ui.selected_plugin];
    let n = config.schema.len();
    match key {
        SettingsKey::Down => {
            if config.accepts_cookies || n > 0 {
                let last = if config.accepts_cookies {
                    n
                } else {
                    n - 1
                };
                ui.selected_plugin_field = if ui.selected_plugin_field < last {
                    ui.selected_plugin_field + 1
                } else {
                    last
                };
            }
        },
        SettingsKey::Up => {
            if ui.selected_plugin_field > 0 {
                ui.selected_plugin_field = ui.selected_plugin_field - 1;
            }
        },
        SettingsKey::Enter => {
            let row = ui.selected_plugin_field;
            if config.accepts_cookies && row == n {
                ui.plugin_field_buffer = config.cookies.clone();
            } else if row < n {
                ui.plugin_field_buffer = match config.values.get(config.schema[row].key.as_str()) {
                    Some(v) => v.clone(),
                    None => String::new(),
                };
            } else {
                return None;
            }
            ui.plugin_field_editing = true;
            ui.settings_page = SettingsPage::PluginFieldEdit;
        },
        _ => {},
    }
    None
}

/// The answer to a key while a plugin field is typed (see `field_edit_step`).
pub fn handle_plugin_field_edit(ui: &mut SettingsUi, settings: &mut Settings, key: SettingsKey) -> (r: Option<
    SettingsRequest,
>)
    ensures
        field_edit_step(*old(ui), *old(settings), key, *final(ui), *final(settings), r),
{
    match key {
        SettingsKey::Enter => {
            let result = settings.save_current_field(
                ui.selected_plugin,
                ui.selected_plugin_field,
                ui.plugin_field_buffer.as_str(),
            );
            ui.plugin_field_buffer = String::new();
            ui.plugin_field_editing = false;
            ui.settings_page = SettingsPage::PluginFields;
            match result {
                Ok(Some(i)) => Some(SettingsRequest::SavePlugin(i)),
                Ok(None) => None,
                Err(e) => Some(SettingsRequest::FieldRefused(e)),
            }
        },
        SettingsKey::Char(c) => {
            push_char(&mut ui.plugin_field_buffer, c);
            None
        },
        SettingsKey::Backspace => {
            pop_char(&mut ui.plugin_field_buffer);
            None
        },
        _ => None,
    }
}

/// The server page's answer to a key (see `server_step`).
pub fn handle_server_page(ui: &mut SettingsUi, settings: &Settings, key: SettingsKey) -> (r: Option<
    SettingsRequest,
>)
    ensures
        server_step(*old(ui), *settings, key, *final(ui), *settings, r),
{
    match key {
        SettingsKey::Escape => {
            ui.settings_page = SettingsPage::Main;
            None
        },
        SettingsKey::Char(c) => if c == 's' {
            Some(SettingsRequest::RefreshServer)
        } else {
            None
        },
        _ => None,
    }
}

/// The settings screen's answer to a key, by page.
pub fn handle_settings(ui: &mut SettingsUi, settings: &mut Settings, key: SettingsKey) -> (r: Option<
    SettingsRequest,
>)
    ensures
        match old(ui).settings_page {
            SettingsPage::Main => main_step(*old(ui), *old(settings), key, *final(ui), *final(settings), r),
            SettingsPage::DebugLog => log_step(*old(ui), *old(settings), key, *final(ui), *final(settings), r),
            SettingsPage::PluginList => plugin_list_step(*old(ui), *old(settings), key, *final(ui), *final(settings), r),
            SettingsPage::PluginFields => plugin_fields_step(*old(ui), *old(settings), key, *final(ui), *final(settings), r),
            SettingsPage::PluginFieldEdit => field_edit_step(*old(ui), *old(settings), key, *final(ui), *final(settings), r),
            SettingsPage::Server => server_step(*old(ui), *old(settings), key, *final(ui), *final(settings), r),
        },
{
    match ui.settings_page {
        SettingsPage::Main => handle_settings_main(ui, settings, key),
        SettingsPage::DebugLog => handle_debug_log(ui, settings, key),
        SettingsPage::PluginList => handle_plugin_list(ui, settings, key),
        SettingsPage::PluginFields => handle_plugin_fields(ui, settings, key),
        SettingsPage::PluginFieldEdit => handle_plugin_field_edit(ui, settings, key),
        SettingsPage::Server => handle_server_page(ui, settings, key),
    }
}

} // verus!
