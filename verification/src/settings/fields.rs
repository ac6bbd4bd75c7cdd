//! The settings the main settings page lists.
use vstd::prelude::*;

verus! {

/// A setting on the main settings page.
#[derive(Debug, PartialEq, Eq, Structural, Clone, Copy)]
pub enum SettingsField {
    RateLimit,
    DebugLog,
    ReaderMode,
    AutoEmbed,
    Plugins,
    Server,
}

/// How a setting is labelled.
pub open spec fn field_label(f: SettingsField) -> Seq<char> {
    match f {
        SettingsField::RateLimit => "Rate Limit (seconds between requests)"@,
        SettingsField::DebugLog => "Debug Logging"@,
        SettingsField::ReaderMode => "Reader Mode"@,
        SettingsField::AutoEmbed => "Auto-Embed New Chapters"@,
        SettingsField::Plugins => "Plugin Configs"@,
        SettingsField::Server => "Server Connection"@,
    }
}

impl SettingsField {
    /// The setting's label.
    pub fn label(&self) -> (r: &'static str)
        ensures
            r@ == field_label(*self),
    {
        match self {
            SettingsField::RateLimit => "Rate Limit (seconds between requests)",
            SettingsField::DebugLog => "Debug Logging",
            SettingsField::ReaderMode => "Reader Mode",
            SettingsField::AutoEmbed => "Auto-Embed New Chapters",
            SettingsField::Plugins => "Plugin Configs",
            SettingsField::Server => "Server Connection",
        }
    }

    /// Every setting, in page order.
    pub fn all() -> (r: Vec<SettingsField>)
        ensures
            r@ == seq![
                SettingsField::RateLimit,
                SettingsField::DebugLog,
                SettingsField::ReaderMode,
                SettingsField::AutoEmbed,
                SettingsField::Plugins,
                SettingsField::Server,
            ],
    {
        let r = vec![
            SettingsField::RateLimit,
            SettingsField::DebugLog,
            SettingsField::ReaderMode,
            SettingsField::AutoEmbed,
            SettingsField::Plugins,
            SettingsField::Server,
        ];
        assert(r@ =~= seq![
            SettingsField::RateLimit,
            SettingsField::DebugLog,
            SettingsField::ReaderMode,
            SettingsField::AutoEmbed,
            SettingsField::Plugins,
            SettingsField::Server,
        ]);
        r
    }
}

/// Every label has text.
pub proof fn lemma_labels_non_empty(f: SettingsField)
    ensures
        field_label(f).len() > 0,
{
    reveal_strlit("Rate Limit (seconds between requests)");
    reveal_strlit("Debug Logging");
    reveal_strlit("Reader Mode");
    reveal_strlit("Auto-Embed New Chapters");
    reveal_strlit("Plugin Configs");
    reveal_strlit("Server Connection");
}

} // verus!
