use scylla::library::Library;
use scylla::library_page::{handle_library, LibraryKey, LibraryRequest};
use scylla::models::{BookStatus, Chapter};

fn no_backends() -> Vec<String> {
    Vec::new()
}

#[test]
fn test_handle_library_i_opens_add_book() {
    let mut lib = Library::new();
    let r = handle_library(&mut lib, LibraryKey::AddBook, &no_backends());
    assert!(matches!(r, Some(LibraryRequest::AddBook)));
}

#[test]
fn test_handle_library_j_opens_jump_chapter() {
    let mut lib = Library::new();
    lib.add_book("Test".into(), "url".into());
    lib.books[0].chapters.push(Chapter { title: "Ch1".into(), url: "u1".into(), order: 0 });
    match handle_library(&mut lib, LibraryKey::JumpChapter, &no_backends()) {
        Some(LibraryRequest::JumpChapter(chapters)) => {
            assert_eq!(chapters, vec![Chapter { title: "Ch1".into(), url: "u1".into(), order: 0 }]);
        }
        other => panic!("Expected JumpChapter, got {:?}", other),
    }
}

#[test]
fn test_handle_library_u_updates_all() {
    let mut lib = Library::new();
    lib.add_book("A".into(), "url-a".into());
    lib.add_book("B".into(), "url-b".into());
    match handle_library(&mut lib, LibraryKey::UpdateAll, &no_backends()) {
        Some(LibraryRequest::UpdateAll(urls)) => assert_eq!(urls, vec!["url-a", "url-b"]),
        other => panic!("Expected UpdateAll, got {:?}", other),
    }
}

#[test]
fn test_handle_library_d_deletes() {
    let mut lib = Library::new();
    lib.add_book("Test".into(), "url".into());
    assert_eq!(lib.books.len(), 1);
    let r = handle_library(&mut lib, LibraryKey::Delete, &no_backends());
    assert!(r.is_none());
    assert_eq!(lib.books.len(), 0);
}

#[test]
fn test_handle_library_f_opens_filter_modal() {
    let mut lib = Library::new();
    lib.filter.name = "glo".into();
    match handle_library(&mut lib, LibraryKey::Filter, &no_backends()) {
        Some(LibraryRequest::Filter { status_cursor, library_cursor }) => {
            assert_eq!(lib.filter.name, "glo");
            assert_eq!(status_cursor, 0);
            assert_eq!(library_cursor, 0);
        }
        other => panic!("Expected Filter modal, got {:?}", other),
    }
}

#[test]
fn test_handle_library_f_seeds_cursors_from_filter() {
    let mut lib = Library::new();
    lib.filter.status = Some(BookStatus::Dropped);
    lib.filter.library = Some("remote1".into());
    let backends = vec!["remote1".to_string()];
    match handle_library(&mut lib, LibraryKey::Filter, &backends) {
        Some(LibraryRequest::Filter { status_cursor, library_cursor }) => {
            assert_eq!(status_cursor, 3);
            assert_eq!(library_cursor, 1);
        }
        other => panic!("Expected Filter modal, got {:?}", other),
    }
}

#[test]
fn test_handle_library_space_cycles_status() {
    let mut lib = Library::new();
    lib.add_book("Test".into(), "url".into());
    assert_eq!(lib.books[0].status, BookStatus::Reading);
    handle_library(&mut lib, LibraryKey::CycleStatus, &no_backends());
    assert_eq!(lib.books[0].status, BookStatus::Paused);
}

#[test]
fn test_handle_library_enter_opens_session_picker() {
    let mut lib = Library::new();
    lib.add_book("Test".into(), "url".into());
    match handle_library(&mut lib, LibraryKey::Sessions, &no_backends()) {
        Some(LibraryRequest::Sessions(url)) => assert_eq!(url, "url"),
        other => panic!("Expected SessionPicker, got {:?}", other),
    }
}

#[test]
fn test_handle_library_up_down_navigation() {
    let mut lib = Library::new();
    lib.add_book("A".into(), "u1".into());
    lib.add_book("B".into(), "u2".into());
    lib.add_book("C".into(), "u3".into());
    assert_eq!(lib.selected_index, 0);
    handle_library(&mut lib, LibraryKey::Down, &no_backends());
    assert_eq!(lib.selected_index, 1);
    handle_library(&mut lib, LibraryKey::Down, &no_backends());
    assert_eq!(lib.selected_index, 2);
    handle_library(&mut lib, LibraryKey::Up, &no_backends());
    assert_eq!(lib.selected_index, 1);
    handle_library(&mut lib, LibraryKey::Up, &no_backends());
    assert_eq!(lib.selected_index, 0);
}

#[test]
fn test_handle_library_up_does_not_go_below_zero() {
    let mut lib = Library::new();
    lib.add_book("A".into(), "u1".into());
    handle_library(&mut lib, LibraryKey::Up, &no_backends());
    assert_eq!(lib.selected_index, 0);
}

#[test]
fn test_handle_library_down_does_not_exceed_max() {
    let mut lib = Library::new();
    lib.add_book("A".into(), "u1".into());
    lib.add_book("B".into(), "u2".into());
    handle_library(&mut lib, LibraryKey::Down, &no_backends());
    handle_library(&mut lib, LibraryKey::Down, &no_backends());
    assert_eq!(lib.selected_index, 1);
}

#[test]
fn test_handle_library_unhandled_key_returns_true() {
    let mut lib = Library::new();
    assert!(handle_library(&mut lib, LibraryKey::Other, &no_backends()).is_none());
}

#[test]
fn embed_request_names_the_selected_book() {
    let mut lib = Library::new();
    lib.add_book("T".into(), "url".into());
    lib.books[0].chapters.push(Chapter { title: "C".into(), url: "c".into(), order: 1 });
    match handle_library(&mut lib, LibraryKey::Embed, &no_backends()) {
        Some(LibraryRequest::Embed { book_url, book_title, chapters }) => {
            assert_eq!(book_url, "url");
            assert_eq!(book_title, "T");
            assert_eq!(chapters.len(), 1);
        }
        other => panic!("Expected Embed, got {:?}", other),
    }
}

#[test]
fn requests_need_a_selected_book() {
    let mut lib = Library::new();
    assert!(handle_library(&mut lib, LibraryKey::JumpChapter, &no_backends()).is_none());
    assert!(handle_library(&mut lib, LibraryKey::Sessions, &no_backends()).is_none());
    assert!(handle_library(&mut lib, LibraryKey::Embed, &no_backends()).is_none());
    assert!(handle_library(&mut lib, LibraryKey::UpdateAll, &no_backends()).is_none());
}

#[test]
fn update_all_skips_books_without_url() {
    let mut lib = Library::new();
    lib.add_book("A".into(), "".into());
    lib.add_book("B".into(), "b".into());
    match handle_library(&mut lib, LibraryKey::UpdateAll, &no_backends()) {
        Some(LibraryRequest::UpdateAll(urls)) => assert_eq!(urls, vec!["b"]),
        other => panic!("Expected UpdateAll, got {:?}", other),
    }
}
