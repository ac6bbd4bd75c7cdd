use scylla::embed_dialog::{handle_embed_chapters, EmbedDialog, EmbedKey, EmbedOutcome};
use scylla::chapters::{resolve_embedded_urls, StatusCache, EmbeddingStatus};
use scylla::library::Library;
use scylla::library_page::{handle_library, LibraryKey, LibraryRequest};
use scylla::models::Chapter;

fn chapter(order: u32, title: &str) -> Chapter {
    Chapter { title: title.into(), url: format!("u{}", order), order }
}

fn embed_dialog() -> EmbedDialog {
    EmbedDialog {
        book_url: "http://example.com/book".into(),
        chapters: vec![chapter(0, "Ch0"), chapter(1, "Ch1"), chapter(2, "Ch2")],
        selected: vec![false, false, false],
        embedded_urls: vec!["u1".into()],
        cursor: 0,
        scroll_offset: 0,
    }
}

#[test]
fn test_nav_skips_embedded_rows() {
    let mut d = embed_dialog();
    handle_embed_chapters(&mut d, EmbedKey::Down);
    assert_eq!(d.cursor, 2);
    handle_embed_chapters(&mut d, EmbedKey::Up);
    assert_eq!(d.cursor, 0);
}

#[test]
fn test_space_noop_on_embedded() {
    let mut d = embed_dialog();
    d.cursor = 1;
    handle_embed_chapters(&mut d, EmbedKey::Toggle);
    assert_eq!(d.selected, vec![false, false, false]);
}

#[test]
fn test_space_toggles_selection() {
    let mut d = embed_dialog();
    handle_embed_chapters(&mut d, EmbedKey::Toggle);
    assert_eq!(d.selected, vec![true, false, false]);
    handle_embed_chapters(&mut d, EmbedKey::Toggle);
    assert_eq!(d.selected, vec![false, false, false]);
}

#[test]
fn test_select_all_skips_embedded() {
    let mut d = embed_dialog();
    handle_embed_chapters(&mut d, EmbedKey::SelectAll);
    assert_eq!(d.selected, vec![true, false, true]);
    handle_embed_chapters(&mut d, EmbedKey::ClearAll);
    assert_eq!(d.selected, vec![false, false, false]);
}

#[test]
fn test_enter_with_no_selection_stays_open() {
    let mut d = embed_dialog();
    let out = handle_embed_chapters(&mut d, EmbedKey::Enter);
    assert_eq!(out, EmbedOutcome::Open);
}

#[test]
fn test_enter_with_selection_closes_modal() {
    let mut d = embed_dialog();
    handle_embed_chapters(&mut d, EmbedKey::SelectAll);
    let out = handle_embed_chapters(&mut d, EmbedKey::Enter);
    match out {
        EmbedOutcome::Fetch(chs) => {
            assert_eq!(chs.len(), 2);
            assert_eq!(chs[0].url, "u0");
            assert_eq!(chs[1].url, "u2");
        }
        EmbedOutcome::Open => panic!("Expected the dialog to close"),
    }
}

#[test]
fn embed_chapters_test_unhandled_key_returns_true() {
    let mut d = embed_dialog();
    let out = handle_embed_chapters(&mut d, EmbedKey::Other);
    assert_eq!(out, EmbedOutcome::Open);
    assert_eq!(d.selected, vec![false, false, false]);
    assert_eq!(d.cursor, 0);
}

#[test]
fn embed_down_at_last_row_stays() {
    let mut d = embed_dialog();
    d.cursor = 2;
    handle_embed_chapters(&mut d, EmbedKey::Down);
    assert_eq!(d.cursor, 2);
}

#[test]
fn embed_enter_fetches_only_unembedded_picks() {
    let mut d = embed_dialog();
    d.selected = vec![false, true, true];
    let out = handle_embed_chapters(&mut d, EmbedKey::Enter);
    match out {
        EmbedOutcome::Fetch(chs) => {
            assert_eq!(chs.len(), 1);
            assert_eq!(chs[0].title, "Ch2");
        }
        EmbedOutcome::Open => panic!("Expected a fetch"),
    }
}

#[test]
fn test_handle_library_e_opens_embed_chapters_on_first_selectable() {
    let mut lib = Library::new();
    lib.add_book("Test".into(), "url".into());
    lib.books[0].chapters = vec![chapter(0, "Ch0"), chapter(1, "Ch1"), chapter(2, "Ch2")];
    let mut cache = StatusCache::new();
    cache.insert(
        "url".into(),
        EmbeddingStatus {
            embedded_chapters: 2,
            total_chapters: 3,
            aggregate: true,
            genres: vec![],
            embedded_chapter_urls: vec!["u0".into(), "u1".into()],
        },
    );
    let d = match handle_library(&mut lib, LibraryKey::Embed, &Vec::new()) {
        Some(LibraryRequest::Embed { book_url, chapters, .. }) => {
            let urls = resolve_embedded_urls(&mut cache, &book_url, Err("unreachable".into()));
            EmbedDialog::open(book_url, chapters, urls)
        }
        other => panic!("Expected EmbedChapters modal, got {:?}", other),
    };
    assert_eq!(d.cursor, 2);
    assert_eq!(d.embedded_urls, vec!["u0".to_string(), "u1".to_string()]);
    assert_eq!(d.selected, vec![false, false, false]);
}

#[test]
fn embed_open_with_everything_embedded_starts_at_top() {
    let d = EmbedDialog::open(
        "b".into(),
        vec![chapter(0, "A"), chapter(1, "B")],
        vec!["u0".into(), "u1".into()],
    );
    assert_eq!(d.cursor, 0);
}
