use scylla::add_book_dialog::{handle_adding_book, AddBookDialog, AddBookKey, AddBookOutcome};
use scylla::install_dialog::{handle_installing_plugin, InstallDialog, InstallKey, InstallOutcome};

fn add_book(inputs: Vec<&str>, cursor: usize) -> AddBookDialog {
    AddBookDialog { inputs: inputs.into_iter().map(String::from).collect(), cursor, scroll_offset: 0 }
}

fn install(url: &str, cursor: usize) -> InstallDialog {
    InstallDialog { url: url.to_string(), cursor, scroll_offset: 0 }
}

#[test]
fn add_book_test_handle_adding_book_ctrl_s_submits() {
    let mut d = add_book(vec!["http://example.com", "http://test.org"], 0);
    match handle_adding_book(&mut d, AddBookKey::Submit) {
        AddBookOutcome::Submit(urls) => {
            assert_eq!(urls.len(), 2);
            assert_eq!(urls[0], "http://example.com");
            assert_eq!(urls[1], "http://test.org");
        }
        AddBookOutcome::Open => panic!("Expected the dialog to close"),
    }
}

#[test]
fn add_book_test_handle_adding_book_ctrl_s_empty_inputs_does_not_submit() {
    let mut d = add_book(vec!["", "  "], 0);
    assert_eq!(handle_adding_book(&mut d, AddBookKey::Submit), AddBookOutcome::Submit(vec![]));
}

#[test]
fn add_book_test_handle_adding_book_enter_adds_new_line() {
    let mut d = add_book(vec!["line1", "line2"], 0);
    assert_eq!(handle_adding_book(&mut d, AddBookKey::Enter), AddBookOutcome::Open);
    assert_eq!(d.inputs, vec!["line1", "", "line2"]);
    assert_eq!(d.cursor, 1);
}

#[test]
fn add_book_test_handle_adding_book_backspace_deletes_empty_line() {
    let mut d = add_book(vec!["a", "", "b"], 1);
    handle_adding_book(&mut d, AddBookKey::Backspace);
    assert_eq!(d.inputs, vec!["a", "b"]);
    assert_eq!(d.cursor, 0);
}

#[test]
fn add_book_test_handle_adding_book_backspace_pops_char_on_non_empty_line() {
    let mut d = add_book(vec!["hello"], 0);
    handle_adding_book(&mut d, AddBookKey::Backspace);
    assert_eq!(d.inputs[0], "hell");
}

#[test]
fn add_book_test_handle_adding_book_up_down_navigation() {
    let mut d = add_book(vec!["a", "b", "c"], 1);
    handle_adding_book(&mut d, AddBookKey::Up);
    assert_eq!(d.cursor, 0);
    handle_adding_book(&mut d, AddBookKey::Down);
    assert_eq!(d.cursor, 1);
}

#[test]
fn add_book_test_handle_adding_book_up_stays_at_top() {
    let mut d = add_book(vec!["a", "b"], 0);
    handle_adding_book(&mut d, AddBookKey::Up);
    assert_eq!(d.cursor, 0);
}

#[test]
fn add_book_test_handle_adding_book_down_stays_at_bottom() {
    let mut d = add_book(vec!["a", "b"], 1);
    handle_adding_book(&mut d, AddBookKey::Down);
    assert_eq!(d.cursor, 1);
}

#[test]
fn add_book_test_handle_adding_book_types_characters() {
    let mut d = add_book(vec!["he"], 0);
    handle_adding_book(&mut d, AddBookKey::Char('l'));
    handle_adding_book(&mut d, AddBookKey::Char('o'));
    assert_eq!(d.inputs[0], "helo");
}

#[test]
fn add_book_only_line_stays_when_emptied() {
    let mut d = add_book(vec![""], 0);
    handle_adding_book(&mut d, AddBookKey::Backspace);
    assert_eq!(d.inputs, vec![""]);
    assert_eq!(d.cursor, 0);
}

#[test]
fn add_book_submit_trims_and_skips_blank_lines() {
    let mut d = add_book(vec!["  http://a  ", "   ", "http://b"], 2);
    assert_eq!(
        handle_adding_book(&mut d, AddBookKey::Submit),
        AddBookOutcome::Submit(vec!["http://a".to_string(), "http://b".to_string()])
    );
}

#[test]
fn test_handle_installing_plugin_enter_submits() {
    let mut d = install("https://github.com/owner/repo", 0);
    assert_eq!(
        handle_installing_plugin(&mut d, InstallKey::Submit),
        InstallOutcome::Close(Some("https://github.com/owner/repo".to_string()))
    );
}

#[test]
fn test_handle_installing_plugin_empty_url_does_not_submit() {
    let mut d = install("", 0);
    assert_eq!(handle_installing_plugin(&mut d, InstallKey::Submit), InstallOutcome::Close(None));
}

#[test]
fn test_handle_installing_plugin_types_characters() {
    let mut d = install("https://", 8);
    handle_installing_plugin(&mut d, InstallKey::Char('g'));
    handle_installing_plugin(&mut d, InstallKey::Char('h'));
    assert_eq!(d.url, "https://gh");
    assert_eq!(d.cursor, 10);
}

#[test]
fn test_handle_installing_plugin_backspace() {
    let mut d = install("https://g", 9);
    handle_installing_plugin(&mut d, InstallKey::Backspace);
    assert_eq!(d.url, "https://");
    assert_eq!(d.cursor, 8);
}

#[test]
fn test_handle_installing_plugin_left_right_navigation() {
    let mut d = install("abc", 1);
    handle_installing_plugin(&mut d, InstallKey::Left);
    assert_eq!(d.cursor, 0);
    handle_installing_plugin(&mut d, InstallKey::Right);
    assert_eq!(d.cursor, 1);
}

#[test]
fn test_handle_installing_plugin_home_end() {
    let mut d = install("abcdef", 3);
    handle_installing_plugin(&mut d, InstallKey::Home);
    assert_eq!(d.cursor, 0);
    handle_installing_plugin(&mut d, InstallKey::End);
    assert_eq!(d.cursor, 6);
}

#[test]
fn test_handle_installing_plugin_delete() {
    let mut d = install("abcd", 2);
    handle_installing_plugin(&mut d, InstallKey::Delete);
    assert_eq!(d.url, "abd");
    assert_eq!(d.cursor, 2);
}

#[test]
fn install_typing_mid_text_inserts_at_cursor() {
    let mut d = install("ac", 1);
    handle_installing_plugin(&mut d, InstallKey::Char('b'));
    assert_eq!(d.url, "abc");
    assert_eq!(d.cursor, 2);
    handle_installing_plugin(&mut d, InstallKey::End);
    handle_installing_plugin(&mut d, InstallKey::Delete);
    assert_eq!(d.url, "abc");
    assert_eq!(
        handle_installing_plugin(&mut d, InstallKey::Submit),
        InstallOutcome::Close(Some("abc".to_string()))
    );
}

use scylla::add_library_dialog::{handle_add_library, AddLibraryDialog, AddLibraryKey, AddLibraryOutcome};
use scylla::backends::Backend;
use scylla::models::{BackendKind, LibraryConfig};

fn add_library() -> AddLibraryDialog {
    AddLibraryDialog { name: String::new(), url: String::new(), cursor: 0, focused_field: 0 }
}

#[test]
fn add_library_types_into_focused_field_and_adds() {
    let mut d = add_library();
    let mut backends: Vec<Backend> = Vec::new();
    for c in "home".chars() {
        handle_add_library(&mut d, &mut backends, AddLibraryKey::Char(c));
    }
    handle_add_library(&mut d, &mut backends, AddLibraryKey::Tab);
    assert_eq!(d.focused_field, 1);
    for c in "http://h".chars() {
        handle_add_library(&mut d, &mut backends, AddLibraryKey::Char(c));
    }
    handle_add_library(&mut d, &mut backends, AddLibraryKey::Backspace);
    assert_eq!(d.name, "home");
    assert_eq!(d.url, "http://");
    let r = handle_add_library(&mut d, &mut backends, AddLibraryKey::Enter);
    assert_eq!(
        r,
        AddLibraryOutcome::Added(LibraryConfig { name: "home".into(), url: "http://".into(), default: false })
    );
    assert_eq!(backends.len(), 1);
    assert_eq!(backends[0].kind, BackendKind::Remote);
    assert_eq!(backends[0].url, Some("http://".to_string()));
}

#[test]
fn add_library_enter_with_empty_field_only_closes() {
    let mut d = add_library();
    let mut backends: Vec<Backend> = Vec::new();
    handle_add_library(&mut d, &mut backends, AddLibraryKey::Char('x'));
    assert_eq!(handle_add_library(&mut d, &mut backends, AddLibraryKey::Enter), AddLibraryOutcome::Close);
    assert!(backends.is_empty());
}

#[test]
fn install_type_then_backspace_restores() {
    let mut d = install("abcd", 2);
    handle_installing_plugin(&mut d, InstallKey::Char('x'));
    handle_installing_plugin(&mut d, InstallKey::Backspace);
    assert_eq!(d.url, "abcd");
    assert_eq!(d.cursor, 2);
}

#[test]
fn add_book_enter_then_backspace_restores() {
    let mut d = add_book(vec!["a", "b"], 0);
    handle_adding_book(&mut d, AddBookKey::Enter);
    handle_adding_book(&mut d, AddBookKey::Backspace);
    assert_eq!(d.inputs, vec!["a", "b"]);
    assert_eq!(d.cursor, 0);
}
