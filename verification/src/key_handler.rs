//! The keys that act on the whole screen before any page sees them: page
//! switching, the hints, leaving, and what changed in the library that the
//! store must learn.
use vstd::prelude::*;
use crate::chapter_results::chosen_session;
use crate::library::{find_book, Library};
use crate::models::BookStatus;
use crate::session_picker::{find_session, opening_chapter, picker_book, session_with_id};
use crate::settings::SettingsPage;
use crate::settings_page::SettingsUi;
use crate::text::str_eq;

verus! {

/// The pages of the screen.
#[derive(Debug, Clone, Copy, PartialEq, Eq, Structural)]
pub enum Page {
    Library,
    Reader,
    Jobs,
    Settings,
}

/// A key as the screen sees it first.
#[derive(Debug, Clone, Copy, PartialEq, Eq, Structural)]
pub enum GlobalKey {
    /// `1`: the library page.
    Library,
    /// `2`: the reader page.
    Reader,
    /// `8`: the jobs page.
    Jobs,
    /// `9`: the settings page.
    Settings,
    /// `:`: the command palette.
    Palette,
    /// `?`: the key hints.
    ToggleHints,
    Escape,
    Other,
}

/// What became of a key.
#[derive(Debug, PartialEq)]
pub enum GlobalOutcome {
    /// The program ends.
    Quit,
    /// The key was used up here.
    Handled,
    /// The open dialog closes.
    CloseDialog,
    /// The key goes on to the open dialog or the page.
    PassOn,
    /// The command palette opens.
    OpenPalette,
    /// The reader page shows and resumes the selected book: read in this
    /// session, and fetch this chapter.
    Resume { session_id: i64, session_name: String, chapter_idx: usize, chapter_url: String },
}

/// What the store must learn after a key: the book selected before it is
/// gone, or its status changed.
#[derive(Debug, PartialEq)]
pub struct BookSync {
    pub delete: Option<String>,
    pub status: Option<(String, BookStatus)>,
}

/// The settings screen after Escape, on a page other than the main one.
pub open spec fn settings_back(u: SettingsUi, n: SettingsUi) -> bool {
    match u.settings_page {
        SettingsPage::DebugLog | SettingsPage::PluginList | SettingsPage::Server => n
            == SettingsUi { settings_page: SettingsPage::Main, ..u },
        SettingsPage::PluginFields => n == SettingsUi { settings_page: SettingsPage::PluginList, ..u },
        SettingsPage::PluginFieldEdit => {
            &&& n.plugin_field_buffer@.len() == 0
            &&& n == SettingsUi {
                settings_page: SettingsPage::PluginFields,
                plugin_field_editing: false,
                plugin_field_buffer: n.plugin_field_buffer,
                ..u
            }
        },
        SettingsPage::Main => n == u,
    }
}

/// Whether `r` resumes the selected book: unless the reader already shows
/// it, in its active session (else its first) at that session's chapter,
/// kept within the chapters; nothing when there is no session or chapter.
pub open spec fn resumes(lib: Library, reader_url: Seq<char>, r: GlobalOutcome) -> bool {
    match lib.selected_pos() {
        Some(i) => {
            let b = lib.books@[i];
            if b.url@ == reader_url || chosen_session(b) is None || b.chapters@.len() == 0 {
                r is Handled
            } else {
                let s = chosen_session(b)->0;
                let k = opening_chapter(b, s);
                &&& r matches GlobalOutcome::Resume {
                    session_id,
                    session_name,
                    chapter_idx,
                    chapter_url,
                }
                &&& session_id == s.id
                &&& session_name@ == s.name@
                &&& chapter_idx == k
                &&& chapter_url@ == b.chapters@[k].url@
            }
        },
        None => r is Handled,
    }
}

/// The screen's answer to a key before the pages: with a dialog open,
/// Escape closes it and other keys go to it; while a settings value is
/// typed, every key goes to the settings page. Otherwise the digit keys
/// switch pages (the reader resumes the selected book), `?` toggles the
/// hints, `:` opens the palette, and Escape steps back through the
/// settings pages, or ends the program from any other place.
pub fn handle_global_key(
    page: &mut Page,
    show_hints: &mut bool,
    settings_ui: &mut SettingsUi,
    lib: &Library,
    reader_book_url: &str,
    dialog_open: bool,
    key: GlobalKey,
) -> (r: GlobalOutcome)
    ensures
        dialog_open ==> *final(page) == *old(page) && *final(show_hints) == *old(show_hints)
            && *final(settings_ui) == *old(settings_ui) && r == (if key == GlobalKey::Escape {
            GlobalOutcome::CloseDialog
        } else {
            GlobalOutcome::PassOn
        }),
        !dialog_open && *old(page) == Page::Settings && old(settings_ui).editing ==> *final(page)
            == *old(page) && *final(show_hints) == *old(show_hints) && *final(settings_ui) == *old(
            settings_ui,
        ) && r == GlobalOutcome::PassOn,
        !dialog_open && !(*old(page) == Page::Settings && old(settings_ui).editing) ==> match key {
            GlobalKey::Library => r == GlobalOutcome::Handled && *final(page) == Page::Library
                && *final(show_hints) == *old(show_hints) && *final(settings_ui) == *old(
                settings_ui,
            ),
            GlobalKey::Reader => resumes(*lib, reader_book_url@, r) && *final(page) == Page::Reader
                && *final(show_hints) == *old(show_hints) && *final(settings_ui) == *old(
                settings_ui,
            ),
            GlobalKey::Jobs => r == GlobalOutcome::Handled && *final(page) == Page::Jobs
                && *final(show_hints) == *old(show_hints) && *final(settings_ui) == *old(
                settings_ui,
            ),
            GlobalKey::Settings => r == GlobalOutcome::Handled && *final(page) == Page::Settings
                && *final(show_hints) == *old(show_hints) && *final(settings_ui) == *old(
                settings_ui,
            ),
            GlobalKey::Palette => r == GlobalOutcome::OpenPalette && *final(page) == *old(page)
                && *final(show_hints) == *old(show_hints) && *final(settings_ui) == *old(
                settings_ui,
            ),
            GlobalKey::ToggleHints => r == GlobalOutcome::Handled && *final(page) == *old(page)
                && *final(show_hints) == !*old(show_hints) && *final(settings_ui) == *old(
                settings_ui,
            ),
            GlobalKey::Escape => *final(page) == *old(page) && *final(show_hints) == *old(
                show_hints,
            ) && if *old(page) == Page::Settings && old(settings_ui).settings_page
                != SettingsPage::Main {
                r == GlobalOutcome::Handled && settings_back(*old(settings_ui), *final(settings_ui))
            } else {
                r == GlobalOutcome::Quit && *final(settings_ui) == *old(settings_ui)
            },
            GlobalKey::Other => r == GlobalOutcome::PassOn && *final(page) == *old(page)
                && *final(show_hints) == *old(show_hints) && *final(settings_ui) == *old(
                settings_ui,
            ),
        },
{
    if dialog_open {
        return if key == GlobalKey::Escape {
            GlobalOutcome::CloseDialog
        } else {
            GlobalOutcome::PassOn
        };
    }
    if *page == Page::Settings && settings_ui.editing {
        return GlobalOutcome::PassOn;
    }
    match key {
        GlobalKey::Library => {
            *page = Page::Library;
            GlobalOutcome::Handled
        },
        GlobalKey::Reader => {
            *page = Page::Reader;
            resume_selected(lib, reader_book_url)
        },
        GlobalKey::Jobs => {
            *page = Page::Jobs;
            GlobalOutcome::Handled
        },
        GlobalKey::Settings => {
            *page = Page::Settings;
            GlobalOutcome::Handled
        },
        GlobalKey::Palette => GlobalOutcome::OpenPalette,
        GlobalKey::ToggleHints => {
            *show_hints = !*show_hints;
            GlobalOutcome::Handled
        },
        GlobalKey::Escape => {
            if *page != Page::Settings {
                return GlobalOutcome::Quit;
            }
            match settings_ui.settings_page {
                SettingsPage::Main => GlobalOutcome::Quit,
                SettingsPage::DebugLog | SettingsPage::PluginList | SettingsPage::Server => {
                    settings_ui.settings_page = SettingsPage::Main;
                    GlobalOutcome::Handled
                },
                SettingsPage::PluginFields => {
                    settings_ui.settings_page = SettingsPage::PluginList;
                    GlobalOutcome::Handled
                },
                SettingsPage::PluginFieldEdit => {
                    settings_ui.plugin_field_buffer = String::new();
                    settings_ui.plugin_field_editing = false;
                    settings_ui.settings_page = SettingsPage::PluginFields;
                    GlobalOutcome::Handled
                },
            }
        },
        GlobalKey::Other => GlobalOutcome::PassOn,
    }
}

/// Where the reader resumes the selected book (see `resumes`).
fn resume_selected(lib: &Library, reader_book_url: &str) -> (r: GlobalOutcome)
    ensures
        resumes(*lib, reader_book_url@, r),
{
    let i = match lib.selected_position() {
        Some(i) => i,
        None => {
            return GlobalOutcome::Handled;
        },
    };
    let b = &lib.books[i];
    if str_eq(b.url.as_str(), reader_book_url) {
        return GlobalOutcome::Handled;
    }
    let active = match b.active_session_id {
        Some(id) => find_session(&b.sessions, id),
        None => None,
    };
    let k = match active {
        Some(k) => k,
        None => {
            if b.sessions.len() == 0 {
                return GlobalOutcome::Handled;
            }
            0
        },
    };
    let n = b.chapters.len();
    if n == 0 {
        return GlobalOutcome::Handled;
    }
    let s = &b.sessions[k];
    let cur = s.progress.current as usize;
    let idx = if cur < n {
        cur
    } else {
        n - 1
    };
    GlobalOutcome::Resume {
        session_id: s.id,
        session_name: s.name.clone(),
        chapter_idx: idx,
        chapter_url: b.chapters[idx].url.clone(),
    }
}

/// What the store must learn about the book selected before a key: that
/// it is gone (no book has its URL any more), or that the first book at
/// its URL has another status now.
pub fn sync_after_input(selected_before: &Option<(String, BookStatus)>, lib: &Library) -> (r: BookSync)
    ensures
        match selected_before {
            None => r.delete is None && r.status is None,
            Some((url, pre)) => match picker_book(lib.books@, url@) {
                None => (r.delete matches Some(u) && u@ == url@) && r.status is None,
                Some(i) => r.delete is None && if lib.books@[i].status != *pre {
                    r.status matches Some((u, st)) && u@ == url@ && st == lib.books@[i].status
                } else {
                    r.status is None
                },
            },
        },
{
    match selected_before {
        None => BookSync { delete: None, status: None },
        Some((url, pre)) => match find_book(&lib.books, url.as_str()) {
            None => BookSync { delete: Some(url.clone()), status: None },
            Some(i) => {
                let now = lib.books[i].status;
                if now != *pre {
                    BookSync { delete: None, status: Some((url.clone(), now)) }
                } else {
                    BookSync { delete: None, status: None }
                }
            },
        },
    }
}

} // verus!
