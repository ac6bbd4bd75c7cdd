use scylla::library::Library;
use scylla::models::Chapter;
use scylla::reader::ReaderState;
use scylla::reader_page::{handle_reader, ReaderKey, ReaderRequest};
use scylla::settings::ReaderMode;

fn library_with_chapters() -> Library {
    let mut lib = Library::new();
    lib.add_book("Test Book".into(), "url".into());
    lib.books[0].chapters.extend(vec![
        Chapter { title: "Ch1".into(), url: "url-1".into(), order: 0 },
        Chapter { title: "Ch2".into(), url: "url-2".into(), order: 1 },
        Chapter { title: "Ch3".into(), url: "url-3".into(), order: 2 },
    ]);
    lib
}

fn fifty_lines() -> String {
    (0..50).map(|i| format!("line {}", i)).collect::<Vec<_>>().join("\n")
}

#[test]
fn test_handle_reader_gt_next_chapter() {
    let lib = library_with_chapters();
    let mut reader = ReaderState::new();
    match handle_reader(&mut reader, &lib, ReaderMode::Paged, ReaderKey::NextChapter, 80, 24) {
        Some(ReaderRequest::FetchChapter { url, idx }) => {
            assert_eq!(url, "url-2");
            assert_eq!(idx, 1);
        }
        other => panic!("expected a fetch, got {:?}", other),
    }
    assert!(reader.loading);
}

#[test]
fn test_handle_reader_lt_prev_chapter() {
    let lib = library_with_chapters();
    let mut reader = ReaderState::new();
    reader.current_chapter_idx = 1;
    match handle_reader(&mut reader, &lib, ReaderMode::Paged, ReaderKey::PrevChapter, 80, 24) {
        Some(ReaderRequest::FetchChapter { url, idx }) => {
            assert_eq!(url, "url-1");
            assert_eq!(idx, 0);
        }
        other => panic!("expected a fetch, got {:?}", other),
    }
    assert!(reader.loading);
}

#[test]
fn test_handle_reader_prev_chapter_clamps_at_zero() {
    let lib = library_with_chapters();
    let mut reader = ReaderState::new();
    let r = handle_reader(&mut reader, &lib, ReaderMode::Paged, ReaderKey::PrevChapter, 80, 24);
    assert!(r.is_none());
    assert!(!reader.loading);
}

#[test]
fn test_handle_reader_next_chapter_clamps_at_last() {
    let lib = library_with_chapters();
    let mut reader = ReaderState::new();
    reader.current_chapter_idx = 2;
    let r = handle_reader(&mut reader, &lib, ReaderMode::Paged, ReaderKey::NextChapter, 80, 24);
    assert!(r.is_none());
    assert!(!reader.loading);
}

#[test]
fn test_handle_reader_loading_guard_prevents_chapter_nav() {
    let lib = library_with_chapters();
    let mut reader = ReaderState::new();
    reader.loading = true;
    let r = handle_reader(&mut reader, &lib, ReaderMode::Paged, ReaderKey::NextChapter, 80, 24);
    assert!(r.is_none());
    assert!(reader.loading);
}

#[test]
fn test_handle_reader_paged_mode_unhandled_key() {
    let lib = Library::new();
    let mut reader = ReaderState::new();
    let r = handle_reader(&mut reader, &lib, ReaderMode::Paged, ReaderKey::Other, 80, 24);
    assert!(r.is_none());
}

#[test]
fn test_handle_reader_scrollable_down() {
    let lib = Library::new();
    let mut reader = ReaderState::new();
    reader.load("Book".into(), "url".into(), "Ch1".into(), fifty_lines(), 0);
    handle_reader(&mut reader, &lib, ReaderMode::Scrollable, ReaderKey::ScrollDown, 80, 24);
    assert_eq!(reader.scroll, 1);
}

#[test]
fn test_handle_reader_scrollable_up() {
    let lib = Library::new();
    let mut reader = ReaderState::new();
    reader.load("Book".into(), "url".into(), "Ch1".into(), fifty_lines(), 0);
    reader.scroll = 10;
    handle_reader(&mut reader, &lib, ReaderMode::Scrollable, ReaderKey::ScrollUp, 80, 24);
    assert_eq!(reader.scroll, 9);
}

#[test]
fn paged_keys_page_only_in_paged_mode() {
    let lib = Library::new();
    let mut reader = ReaderState::new();
    reader.load("Book".into(), "url".into(), "Ch1".into(), fifty_lines(), 0);
    handle_reader(&mut reader, &lib, ReaderMode::Paged, ReaderKey::NextPage, 80, 12);
    assert_eq!(reader.page, 1);
    handle_reader(&mut reader, &lib, ReaderMode::Scrollable, ReaderKey::PrevPage, 80, 12);
    assert_eq!(reader.page, 1);
    handle_reader(&mut reader, &lib, ReaderMode::Paged, ReaderKey::PrevPage, 80, 12);
    assert_eq!(reader.page, 0);
    handle_reader(&mut reader, &lib, ReaderMode::Paged, ReaderKey::ScrollDown, 80, 12);
    assert_eq!(reader.scroll, 0);
}

#[test]
fn session_key_names_the_selected_book() {
    let lib = library_with_chapters();
    let mut reader = ReaderState::new();
    match handle_reader(&mut reader, &lib, ReaderMode::Paged, ReaderKey::ManageSessions, 80, 24) {
        Some(ReaderRequest::OpenSessions(url)) => assert_eq!(url, "url"),
        other => panic!("expected sessions, got {:?}", other),
    }
}
