use scylla::jump_dialog::record_chapter_progress;
use scylla::library::Library;
use scylla::models::{Book, BookStatus, Chapter, Progress, Session};

fn sample_book(url: &str) -> Book {
    Book {
        title: "Sample".into(),
        url: url.into(),
        status: BookStatus::Reading,
        sessions: vec![],
        active_session_id: None,
        tags: vec![],
        cover_url: None,
        description: None,
        chapters: vec![Chapter { title: "Chapter 1".into(), url: format!("{}/1", url), order: 1 }],
    }
}

#[test]
fn test_book_scraped_persists_merged_book() {
    let mut lib = Library::new();
    let mut existing = sample_book("http://example.com/book");
    existing.status = BookStatus::Completed;
    existing.tags = vec!["keep".into()];
    existing.sessions = vec![Session {
        id: 5,
        book_url: "http://example.com/book".into(),
        name: "S5".into(),
        progress: Progress { current: 0, total: 10 },
        created_at: String::new(),
        updated_at: String::new(),
    }];
    lib.books.push(existing);
    let mut scraped = sample_book("http://example.com/book");
    scraped.status = BookStatus::Reading;
    scraped.tags = vec![];
    scraped.title = "Scraped Title".into();
    let idx = lib.merge_scraped_book(scraped);
    // What is stored is the merged book: the reader's data stays.
    let stored = &lib.books[idx];
    assert_eq!(stored.url, "http://example.com/book");
    assert_eq!(stored.status, BookStatus::Completed);
    assert_eq!(stored.tags, vec!["keep"]);
    assert_eq!(stored.title, "Scraped Title");
    assert_eq!(stored.sessions.len(), 1);
}

#[test]
fn test_book_scraped_new_book_is_persisted() {
    let mut lib = Library::new();
    let idx = lib.merge_scraped_book(sample_book("http://example.com/new"));
    assert_eq!(idx, 0);
    assert_eq!(lib.books.len(), 1);
}

#[test]
fn test_chapter_fetched_persists_progress() {
    let mut lib = Library::new();
    lib.add_book("Book".into(), "url".into());
    lib.books[0].sessions.push(Session {
        id: 42,
        book_url: "url".into(),
        name: "S42".into(),
        progress: Progress { current: 0, total: 10 },
        created_at: String::new(),
        updated_at: String::new(),
    });
    let stored = record_chapter_progress(&mut lib, 42, 3);
    assert_eq!(stored, 3, "expected update_progress:42:3");
    assert_eq!(lib.books[0].sessions[0].progress.current, 3);
}

#[test]
fn chapter_fetched_for_unknown_session_changes_nothing() {
    let mut lib = Library::new();
    lib.add_book("Book".into(), "url".into());
    assert_eq!(record_chapter_progress(&mut lib, 7, 2), 2);
    assert!(lib.books[0].sessions.is_empty());
}
