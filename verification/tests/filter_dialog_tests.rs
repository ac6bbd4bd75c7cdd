use scylla::filter_dialog::{handle_filter, FilterDialog, FilterKey, FilterOutcome, FilterRow};
use scylla::library::{BookFilter, Library, SearchStatus};
use scylla::models::BookStatus;

fn dialog(focus: FilterRow) -> FilterDialog {
    FilterDialog {
        working: BookFilter::default(),
        focus,
        tag_query: String::new(),
        tag_cursor: 0,
        tag_scroll: 0,
        status_cursor: 0,
        lib_cursor: 0,
        ai_query: String::new(),
    }
}

fn press(d: &mut FilterDialog, lib: &mut Library, key: FilterKey) -> FilterOutcome {
    handle_filter(d, lib, key, &[])
}

fn tagged_library() -> Library {
    let mut lib = Library::new();
    lib.add_book("B".into(), "u".into());
    lib.books[0].tags = vec!["fantasy".into(), "litrpg".into()];
    lib
}

#[test]
fn test_handle_filter_typing_edits_name_when_search_focused() {
    let mut d = dialog(FilterRow::Search);
    let mut lib = Library::new();
    for c in ['g', 'l', 'o'] {
        press(&mut d, &mut lib, FilterKey::Char(c));
    }
    assert_eq!(d.working.name, "glo");
}

#[test]
fn test_handle_filter_backspace_edits_name_when_search_focused() {
    let mut d = dialog(FilterRow::Search);
    let mut lib = Library::new();
    press(&mut d, &mut lib, FilterKey::Char('g'));
    press(&mut d, &mut lib, FilterKey::Backspace);
    assert_eq!(d.working.name, "");
}

#[test]
fn test_handle_filter_tab_cycles_focus() {
    let mut d = dialog(FilterRow::Search);
    let mut lib = Library::new();
    press(&mut d, &mut lib, FilterKey::RowNext);
    assert_eq!(d.focus, FilterRow::Tags);
    press(&mut d, &mut lib, FilterKey::RowNext);
    assert_eq!(d.focus, FilterRow::Library);
    press(&mut d, &mut lib, FilterKey::RowNext);
    assert_eq!(d.focus, FilterRow::Ai);
    press(&mut d, &mut lib, FilterKey::RowNext);
    assert_eq!(d.focus, FilterRow::Status);
}

#[test]
fn test_handle_filter_backtab_cycles_focus_backwards() {
    let mut d = dialog(FilterRow::Search);
    let mut lib = Library::new();
    press(&mut d, &mut lib, FilterKey::RowPrev);
    assert_eq!(d.focus, FilterRow::Status);
    press(&mut d, &mut lib, FilterKey::RowPrev);
    assert_eq!(d.focus, FilterRow::Ai);
}

#[test]
fn test_handle_filter_tag_query_narrows_candidates() {
    let mut lib = tagged_library();
    let mut d = dialog(FilterRow::Tags);
    d.tag_query.push_str("fan");
    press(&mut d, &mut lib, FilterKey::Char('t'));
    assert_eq!(d.tag_query, "fant");
    assert!(d.working.tags.is_empty());
}

#[test]
fn test_handle_filter_space_toggles_tag() {
    let mut lib = tagged_library();
    let mut d = dialog(FilterRow::Tags);
    press(&mut d, &mut lib, FilterKey::Char(' '));
    assert_eq!(d.working.tags, vec!["fantasy"]);
    press(&mut d, &mut lib, FilterKey::Char(' '));
    assert!(d.working.tags.is_empty());
}

#[test]
fn test_handle_filter_space_sets_status() {
    let mut lib = Library::new();
    let mut d = dialog(FilterRow::Status);
    d.status_cursor = 2;
    press(&mut d, &mut lib, FilterKey::Char(' '));
    assert_eq!(d.working.status, Some(BookStatus::Paused));
}

#[test]
fn test_handle_filter_space_sets_status_any() {
    let mut lib = Library::new();
    let mut d = dialog(FilterRow::Status);
    d.working.status = Some(BookStatus::Reading);
    d.status_cursor = 0;
    press(&mut d, &mut lib, FilterKey::Char(' '));
    assert_eq!(d.working.status, None);
}

#[test]
fn test_handle_filter_space_sets_library() {
    let mut lib = Library::new();
    let mut d = dialog(FilterRow::Library);
    d.lib_cursor = 1;
    handle_filter(&mut d, &mut lib, FilterKey::Char(' '), &["remote1".to_string()]);
    assert_eq!(d.working.library.as_deref(), Some("remote1"));
}

#[test]
fn test_handle_filter_c_clears_facets_but_not_library() {
    let mut lib = Library::new();
    let mut d = dialog(FilterRow::Status);
    d.working.name = "glo".into();
    d.working.tags = vec!["fantasy".into()];
    d.working.status = Some(BookStatus::Reading);
    d.working.library = Some("remote1".into());
    press(&mut d, &mut lib, FilterKey::Char('c'));
    assert!(d.working.name.is_empty());
    assert!(d.working.tags.is_empty());
    assert_eq!(d.working.status, None);
    assert_eq!(d.working.library.as_deref(), Some("remote1"));
}

#[test]
fn test_handle_filter_c_types_when_search_focused() {
    let mut lib = Library::new();
    let mut d = dialog(FilterRow::Search);
    press(&mut d, &mut lib, FilterKey::Char('c'));
    assert_eq!(d.working.name, "c");
}

#[test]
fn test_handle_filter_space_types_when_search_focused() {
    let mut lib = Library::new();
    let mut d = dialog(FilterRow::Search);
    press(&mut d, &mut lib, FilterKey::Char(' '));
    assert_eq!(d.working.name, " ");
}

#[test]
fn test_handle_filter_multi_word_name_with_c_and_space() {
    let mut lib = Library::new();
    let mut d = dialog(FilterRow::Search);
    for c in "dragon heart".chars() {
        press(&mut d, &mut lib, FilterKey::Char(c));
    }
    assert_eq!(d.working.name, "dragon heart");
}

#[test]
fn test_handle_filter_enter_commits_and_closes() {
    let mut lib = Library::new();
    let mut d = dialog(FilterRow::Search);
    d.working.name = "glo".into();
    lib.add_book("Gloom".into(), "u".into());
    lib.add_book("Other".into(), "u2".into());
    let r = press(&mut d, &mut lib, FilterKey::Enter);
    assert_eq!(r, FilterOutcome::Committed { library_changed: false });
    assert_eq!(lib.filter.name, "glo");
    assert_eq!(lib.selected_index, 0);
    assert_eq!(lib.visible_indices(), vec![0]);
}

#[test]
fn test_handle_filter_typing_edits_ai_query_when_ai_focused() {
    let mut lib = Library::new();
    let mut d = dialog(FilterRow::Ai);
    for c in ['d', 'r', 'a'] {
        press(&mut d, &mut lib, FilterKey::Char(c));
    }
    assert_eq!(d.ai_query, "dra");
    assert!(d.working.name.is_empty());
}

#[test]
fn test_handle_filter_backspace_edits_ai_query_when_ai_focused() {
    let mut lib = Library::new();
    let mut d = dialog(FilterRow::Ai);
    d.ai_query = "dragon".into();
    press(&mut d, &mut lib, FilterKey::Backspace);
    assert_eq!(d.ai_query, "drago");
}

#[test]
fn test_handle_filter_c_types_when_ai_focused() {
    let mut lib = Library::new();
    let mut d = dialog(FilterRow::Ai);
    press(&mut d, &mut lib, FilterKey::Char('c'));
    assert_eq!(d.ai_query, "c");
}

#[test]
fn test_handle_filter_space_types_when_ai_focused() {
    let mut lib = Library::new();
    let mut d = dialog(FilterRow::Ai);
    press(&mut d, &mut lib, FilterKey::Char(' '));
    assert_eq!(d.ai_query, " ");
}

#[test]
fn test_handle_filter_multi_word_ai_query_with_c_and_space() {
    let mut lib = Library::new();
    let mut d = dialog(FilterRow::Ai);
    for c in "dragon heart".chars() {
        press(&mut d, &mut lib, FilterKey::Char(c));
    }
    assert_eq!(d.ai_query, "dragon heart");
}

#[test]
fn test_handle_filter_enter_on_ai_activates_library_ai() {
    let mut lib = Library::new();
    let mut d = dialog(FilterRow::Ai);
    d.ai_query = "dragon".into();
    let r = press(&mut d, &mut lib, FilterKey::Enter);
    assert_eq!(r, FilterOutcome::AiSearch("dragon".to_string()));
    let ai = lib.ai.as_ref().expect("AI session active");
    assert_eq!(ai.query, "dragon");
    assert_eq!(ai.status, SearchStatus::Loading);
    assert!(ai.book_mode);
}

#[test]
fn test_handle_filter_enter_on_ai_empty_query_is_noop() {
    let mut lib = Library::new();
    let mut d = dialog(FilterRow::Ai);
    d.ai_query = "   ".into();
    let r = press(&mut d, &mut lib, FilterKey::Enter);
    assert_eq!(r, FilterOutcome::Open);
    assert!(lib.ai.is_none());
}

#[test]
fn test_handle_filter_enter_skips_reload_when_library_unchanged() {
    let mut lib = Library::new();
    lib.add_book("Local".into(), "local".into());
    let mut d = dialog(FilterRow::Search);
    let r = press(&mut d, &mut lib, FilterKey::Enter);
    assert_eq!(r, FilterOutcome::Committed { library_changed: false });
    assert_eq!(lib.books.len(), 1);
    assert_eq!(lib.books[0].title, "Local");
}

#[test]
fn library_change_asks_for_a_reload() {
    let mut lib = Library::new();
    let mut d = dialog(FilterRow::Library);
    d.working.library = Some("remote1".into());
    let r = press(&mut d, &mut lib, FilterKey::Enter);
    assert_eq!(r, FilterOutcome::Committed { library_changed: true });
    assert_eq!(lib.filter.library.as_deref(), Some("remote1"));
}

#[test]
fn cursors_stay_within_their_lists() {
    let mut lib = tagged_library();
    let mut d = dialog(FilterRow::Tags);
    press(&mut d, &mut lib, FilterKey::Down);
    press(&mut d, &mut lib, FilterKey::Down);
    assert_eq!(d.tag_cursor, 1);
    d.focus = FilterRow::Status;
    for _ in 0..10 {
        press(&mut d, &mut lib, FilterKey::Down);
    }
    assert_eq!(d.status_cursor, 4);
    press(&mut d, &mut lib, FilterKey::Up);
    assert_eq!(d.status_cursor, 3);
    d.focus = FilterRow::Library;
    handle_filter(&mut d, &mut lib, FilterKey::Down, &["a".to_string()]);
    handle_filter(&mut d, &mut lib, FilterKey::Down, &["a".to_string()]);
    assert_eq!(d.lib_cursor, 1);
}
