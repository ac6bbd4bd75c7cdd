use scylla::key_handler::{handle_global_key, sync_after_input, BookSync, GlobalKey, GlobalOutcome, Page};
use scylla::library::Library;
use scylla::library_page::{handle_library, LibraryKey};
use scylla::models::{BookStatus, Chapter, Progress, Session};
use scylla::settings::{Settings, SettingsPage};
use scylla::settings_page::{handle_settings, SettingsKey, SettingsUi};

fn selected(lib: &Library) -> Option<(String, BookStatus)> {
    lib.selected_book().map(|b| (b.url.clone(), b.status))
}

#[test]
fn test_delete_book_persists_to_backend() {
    let mut lib = Library::new();
    lib.add_book("Test".into(), "http://example.com/book".into());
    let before = selected(&lib);
    handle_library(&mut lib, LibraryKey::Delete, &[]);
    assert!(lib.books.is_empty());
    let sync = sync_after_input(&before, &lib);
    assert_eq!(sync.delete, Some("http://example.com/book".to_string()), "expected delete call");
    assert_eq!(sync.status, None);
}

#[test]
fn test_cycle_status_persists_to_backend() {
    let mut lib = Library::new();
    lib.add_book("Test".into(), "http://example.com/book".into());
    let before = selected(&lib);
    handle_library(&mut lib, LibraryKey::CycleStatus, &[]);
    assert_eq!(lib.books[0].status, BookStatus::Paused);
    let sync = sync_after_input(&before, &lib);
    assert_eq!(
        sync,
        BookSync { delete: None, status: Some(("http://example.com/book".to_string(), BookStatus::Paused)) },
        "expected update_status call"
    );
}

#[test]
fn test_settings_editing_suppresses_global_keys() {
    let mut page = Page::Settings;
    let mut hints = false;
    let mut ui = SettingsUi::new();
    let mut settings = Settings::new();
    ui.editing = true;
    ui.edit_buffer = "5".to_string();
    let lib = Library::new();
    let r = handle_global_key(&mut page, &mut hints, &mut ui, &lib, "", false, GlobalKey::Library);
    assert_eq!(r, GlobalOutcome::PassOn);
    handle_settings(&mut ui, &mut settings, SettingsKey::Char('1'));
    assert_eq!(page, Page::Settings);
    assert_eq!(ui.edit_buffer, "51");
}

#[test]
fn test_settings_not_editing_global_key_navigates() {
    let mut page = Page::Settings;
    let mut hints = false;
    let mut ui = SettingsUi::new();
    let lib = Library::new();
    let r = handle_global_key(&mut page, &mut hints, &mut ui, &lib, "", false, GlobalKey::Library);
    assert_eq!(r, GlobalOutcome::Handled);
    assert_eq!(page, Page::Library);
}

#[test]
fn global_escape_steps_back_through_settings_then_quits() {
    let mut page = Page::Settings;
    let mut hints = false;
    let mut ui = SettingsUi::new();
    ui.settings_page = SettingsPage::PluginFieldEdit;
    ui.plugin_field_buffer = "abc".into();
    ui.plugin_field_editing = true;
    let lib = Library::new();
    assert_eq!(handle_global_key(&mut page, &mut hints, &mut ui, &lib, "", false, GlobalKey::Escape), GlobalOutcome::Handled);
    assert_eq!(ui.settings_page, SettingsPage::PluginFields);
    assert_eq!(ui.plugin_field_buffer, "");
    assert!(!ui.plugin_field_editing);
    handle_global_key(&mut page, &mut hints, &mut ui, &lib, "", false, GlobalKey::Escape);
    assert_eq!(ui.settings_page, SettingsPage::PluginList);
    handle_global_key(&mut page, &mut hints, &mut ui, &lib, "", false, GlobalKey::Escape);
    assert_eq!(ui.settings_page, SettingsPage::Main);
    assert_eq!(handle_global_key(&mut page, &mut hints, &mut ui, &lib, "", false, GlobalKey::Escape), GlobalOutcome::Quit);
}

#[test]
fn global_escape_with_dialog_closes_it() {
    let mut page = Page::Library;
    let mut hints = false;
    let mut ui = SettingsUi::new();
    let lib = Library::new();
    assert_eq!(handle_global_key(&mut page, &mut hints, &mut ui, &lib, "", true, GlobalKey::Escape), GlobalOutcome::CloseDialog);
    assert_eq!(handle_global_key(&mut page, &mut hints, &mut ui, &lib, "", true, GlobalKey::Jobs), GlobalOutcome::PassOn);
    assert_eq!(page, Page::Library);
    handle_global_key(&mut page, &mut hints, &mut ui, &lib, "", false, GlobalKey::ToggleHints);
    assert!(hints);
}

#[test]
fn global_reader_key_resumes_selected_book() {
    let mut lib = Library::new();
    lib.add_book("Test".into(), "book".into());
    lib.books[0].chapters = vec![
        Chapter { title: "A".into(), url: "ca".into(), order: 0 },
        Chapter { title: "B".into(), url: "cb".into(), order: 1 },
    ];
    lib.books[0].sessions.push(Session {
        id: 4,
        book_url: "book".into(),
        name: "Mine".into(),
        progress: Progress { current: 9, total: 2 },
        created_at: String::new(),
        updated_at: String::new(),
    });
    let mut page = Page::Library;
    let mut hints = false;
    let mut ui = SettingsUi::new();
    let r = handle_global_key(&mut page, &mut hints, &mut ui, &lib, "", false, GlobalKey::Reader);
    assert_eq!(page, Page::Reader);
    assert_eq!(
        r,
        GlobalOutcome::Resume { session_id: 4, session_name: "Mine".into(), chapter_idx: 1, chapter_url: "cb".into() }
    );
    // Already reading it: nothing to fetch.
    let r = handle_global_key(&mut page, &mut hints, &mut ui, &lib, "book", false, GlobalKey::Reader);
    assert_eq!(r, GlobalOutcome::Handled);
}
