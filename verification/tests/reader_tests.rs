use scylla::models::Chapter;
use scylla::reader::{wrap_line, wrap_line_count, ReaderState, WinInput};

#[test]
fn load_splits_lines_and_drops_trailing_blank_lines() {
    let mut r = ReaderState::new();
    r.page = 3;
    r.scroll = 4;
    r.loading = true;
    r.load("Book".into(), "url".into(), "Ch".into(), "one\r\ntwo\n\n  \n".into(), 7);
    assert_eq!(r.content, vec!["one", "two"]);
    assert_eq!(r.page, 0);
    assert_eq!(r.scroll, 0);
    assert_eq!(r.current_chapter_idx, 7);
    assert!(!r.loading);
    assert_eq!(r.book_title, "Book");
    r.load("B".into(), "u".into(), "C".into(), "a\n\nb".into(), 0);
    assert_eq!(r.content, vec!["a", "", "b"]);
}

#[test]
fn wrap_line_is_greedy_and_keeps_long_words() {
    assert_eq!(wrap_line("the quick brown fox", 9), vec!["the quick", "brown fox"]);
    assert_eq!(wrap_line("a verylongword b", 4), vec!["a", "verylongword", "b"]);
    assert_eq!(wrap_line("   ", 10), vec![""]);
    assert_eq!(wrap_line("  spaced   out  ", 80), vec!["spaced out"]);
    assert_eq!(wrap_line(" keep as is ", 0), vec![" keep as is "]);
}

#[test]
fn pages_of_wrapped_lines() {
    let mut r = ReaderState::new();
    let text = (0..10).map(|i| format!("line {}", i)).collect::<Vec<_>>().join("\n");
    r.load("B".into(), "u".into(), "C".into(), text, 0);
    // Height 7 leaves 3 rows a page: 10 rows make 4 pages.
    assert_eq!(ReaderState::lines_per_page(7), 3);
    assert_eq!(ReaderState::lines_per_page(3), 0);
    assert_eq!(r.total_pages_for(80, 7), 4);
    assert_eq!(r.total_pages(7), 4);
    assert_eq!(r.page_lines_wrapped(80, 7), vec!["line 0", "line 1", "line 2"]);
    r.next_page(80, 7);
    r.next_page(80, 7);
    r.next_page(80, 7);
    r.next_page(80, 7);
    assert_eq!(r.page, 3);
    assert_eq!(r.page_lines_wrapped(80, 7), vec!["line 9"]);
    r.prev_page(80, 7);
    assert_eq!(r.page, 2);
    r.page = 99;
    assert_eq!(r.page_lines_wrapped(80, 7), vec!["line 9"]);
    assert!(r.page_lines_wrapped(80, 2).is_empty());
    assert_eq!(r.total_pages_for(80, 2), 1);
}

#[test]
fn empty_chapter_has_one_page_with_one_empty_row() {
    let r = ReaderState::new();
    assert_eq!(r.total_pages_for(40, 10), 1);
    assert_eq!(r.page_lines_wrapped(40, 10), vec![""]);
}

#[test]
fn scrolling_stays_within_the_lines() {
    let mut r = ReaderState::new();
    r.load("B".into(), "u".into(), "C".into(), "a\nb\nc".into(), 0);
    r.scroll_down(1);
    assert_eq!(r.scroll, 1);
    r.scroll_down(usize::MAX);
    assert_eq!(r.scroll, 2);
    r.scroll_up(5);
    assert_eq!(r.scroll, 0);
    let mut e = ReaderState::new();
    e.scroll_down(3);
    assert_eq!(e.scroll, 0);
}

#[test]
fn win_input_edits_text_but_not_chapters() {
    let mut w = WinInput::RawText(String::new());
    assert!(w.is_empty());
    w.push('h');
    w.push('i');
    assert_eq!(w.to_string(), "hi");
    assert_eq!(w.pop(), Some('i'));
    assert_eq!(w.to_string(), "h");
    let mut c = WinInput::ChapterItem(Chapter { title: "  Ch 1 ".into(), url: "u".into(), order: 1 });
    c.push('x');
    assert_eq!(c.pop(), None);
    assert_eq!(c.to_string(), "  Ch 1 ");
    assert_eq!(c.trim_to_string(), "Ch 1");
    assert!(!c.is_empty());
    let mut e = WinInput::RawText(String::new());
    assert_eq!(e.pop(), None);
}

#[test]
fn wrap_line_count_matches_wrapped_rows() {
    let lines = ["", "   ", "one", "alpha beta gamma delta", "averyveryverylongword short", "a b c d e f g"];
    for line in lines {
        for width in [0usize, 1, 3, 5, 10, 80] {
            assert_eq!(wrap_line_count(line, width), wrap_line(line, width).len(), "{:?} at {}", line, width);
        }
    }
}
