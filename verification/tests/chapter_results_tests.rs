use scylla::chapter_results::{handle_chapter_results, ChapterResults, ResultsKey, ResultsRequest};
use scylla::filter_dialog::FilterRow;
use scylla::library::{AiBook, AiChapter, Library, SearchStatus};
use scylla::models::{Progress, Session};

fn hit(book_url: &str, idx: usize, score: u32) -> AiChapter {
    AiChapter {
        chapter_url: format!("{}/ch{}", book_url, idx),
        chapter_idx: idx,
        chapter_title: format!("Ch{}", idx),
        score,
        snippet: String::new(),
    }
}

fn group(url: &str, title: &str, genres: Vec<String>, chapters: Vec<AiChapter>, score: u32) -> AiBook {
    AiBook { book_url: url.into(), book_title: title.into(), score, genres, chapters }
}

fn results() -> ChapterResults {
    ChapterResults {
        query: "dragon".into(),
        groups: vec![
            group("u1", "Book A", vec!["Fantasy".into()], vec![hit("u1", 0, 90), hit("u1", 1, 80)], 90),
            group("u2", "Book B", vec![], vec![hit("u2", 0, 70)], 70),
        ],
        cursor: 0,
        scroll_offset: 0,
        status: SearchStatus::Ready,
        expanded: None,
    }
}

fn press(d: &mut ChapterResults, lib: &mut Library, key: ResultsKey) -> ResultsRequest {
    handle_chapter_results(d, lib, key, &[])
}

fn state(d: &ChapterResults) -> (usize, Option<usize>) {
    (d.cursor, d.expanded)
}

/// The focused `(group, chapter)` of the dialog.
fn focused_selection(groups: &[AiBook], expanded: Option<usize>, cursor: usize) -> Option<(usize, Option<usize>)> {
    match expanded {
        None => groups.get(cursor).map(|_| (cursor, None)),
        Some(gi) => groups.get(gi).and_then(|g| g.chapters.get(cursor).map(|_| (gi, Some(cursor)))),
    }
}

#[test]
fn test_focused_selection_collapsed() {
    let groups = results().groups;
    assert_eq!(focused_selection(&groups, None, 0), Some((0, None)));
    assert_eq!(focused_selection(&groups, None, 1), Some((1, None)));
    assert_eq!(focused_selection(&groups, None, 5), None);
}

#[test]
fn test_focused_selection_expanded() {
    let groups = results().groups;
    assert_eq!(focused_selection(&groups, Some(0), 1), Some((0, Some(1))));
    assert_eq!(focused_selection(&groups, Some(0), 5), None);
}

#[test]
fn test_tab_expands_focused_group() {
    let (mut d, mut lib) = (results(), Library::new());
    press(&mut d, &mut lib, ResultsKey::RowNext);
    assert_eq!(state(&d), (0, Some(0)));
}

#[test]
fn test_tab_collapses_back_to_groups() {
    let (mut d, mut lib) = (results(), Library::new());
    d.cursor = 1;
    d.expanded = Some(1);
    press(&mut d, &mut lib, ResultsKey::RowNext);
    assert_eq!(state(&d), (1, None));
}

#[test]
fn test_nav_down_collapsed_moves_across_groups() {
    let (mut d, mut lib) = (results(), Library::new());
    press(&mut d, &mut lib, ResultsKey::Down);
    assert_eq!(state(&d), (1, None));
    press(&mut d, &mut lib, ResultsKey::Down);
    assert_eq!(state(&d), (1, None));
}

#[test]
fn test_nav_up_collapsed_clamps() {
    let (mut d, mut lib) = (results(), Library::new());
    d.cursor = 1;
    press(&mut d, &mut lib, ResultsKey::Up);
    assert_eq!(state(&d), (0, None));
    press(&mut d, &mut lib, ResultsKey::Up);
    assert_eq!(state(&d), (0, None));
}

#[test]
fn test_nav_down_expanded_moves_across_chapters() {
    let (mut d, mut lib) = (results(), Library::new());
    d.expanded = Some(0);
    press(&mut d, &mut lib, ResultsKey::Down);
    assert_eq!(state(&d), (1, Some(0)));
    press(&mut d, &mut lib, ResultsKey::Down);
    assert_eq!(state(&d), (1, Some(0)));
}

#[test]
fn test_nav_up_expanded_clamps() {
    let (mut d, mut lib) = (results(), Library::new());
    d.cursor = 1;
    d.expanded = Some(0);
    press(&mut d, &mut lib, ResultsKey::Up);
    assert_eq!(state(&d), (0, Some(0)));
    press(&mut d, &mut lib, ResultsKey::Up);
    assert_eq!(state(&d), (0, Some(0)));
}

#[test]
fn test_enter_expands_when_collapsed() {
    let (mut d, mut lib) = (results(), Library::new());
    let r = press(&mut d, &mut lib, ResultsKey::Enter);
    assert_eq!(state(&d), (0, Some(0)));
    assert!(matches!(r, ResultsRequest::Stay));
}

#[test]
fn test_enter_jumps_when_expanded() {
    let (mut d, mut lib) = (results(), Library::new());
    d.expanded = Some(0);
    match press(&mut d, &mut lib, ResultsKey::Enter) {
        ResultsRequest::Jump(j) => {
            assert_eq!(j.chapter_url, "u1/ch0");
            assert_eq!(j.chapter_idx, 0);
        }
        other => panic!("Expected a jump, got {:?}", other),
    }
}

#[test]
fn chapter_results_test_esc_closes_modal() {
    let (mut d, mut lib) = (results(), Library::new());
    assert!(matches!(press(&mut d, &mut lib, ResultsKey::Esc), ResultsRequest::Close));
}

#[test]
fn test_f_reopens_filter_seeded_with_query() {
    let (mut d, mut lib) = (results(), Library::new());
    lib.filter.name = "x".into();
    match press(&mut d, &mut lib, ResultsKey::Refine) {
        ResultsRequest::Refine(f) => {
            assert_eq!(f.focus, FilterRow::Ai);
            assert_eq!(f.ai_query, "dragon");
            assert_eq!(f.working, lib.filter);
        }
        other => panic!("Expected Filter modal, got {:?}", other),
    }
}

#[test]
fn test_enter_jumps_to_chapter_in_library_book() {
    let mut lib = Library::new();
    lib.add_book("Book A".into(), "u1".into());
    lib.books[0].sessions.push(Session {
        id: 7,
        book_url: "u1".into(),
        name: "S7".into(),
        progress: Progress { current: 0, total: 10 },
        created_at: String::new(),
        updated_at: String::new(),
    });
    lib.books[0].active_session_id = Some(7);
    let mut d = ChapterResults {
        query: "dragon".into(),
        groups: vec![group("u1", "Book A", vec![], vec![hit("u1", 2, 90)], 90)],
        cursor: 0,
        scroll_offset: 0,
        status: SearchStatus::Ready,
        expanded: Some(0),
    };
    match press(&mut d, &mut lib, ResultsKey::Enter) {
        ResultsRequest::Jump(j) => {
            assert_eq!(j.session_id, 7);
            assert_eq!(j.session_name, "S7");
            assert!(j.store_active, "expected the active session to be recorded");
            assert_eq!(j.chapter_idx, 2);
        }
        other => panic!("Expected a jump, got {:?}", other),
    }
    assert_eq!(lib.books[0].active_session_id, Some(7));
}

#[test]
fn test_enter_jumps_to_chapter_guest_session() {
    let mut lib = Library::new();
    let mut d = ChapterResults {
        query: "dragon".into(),
        groups: vec![group("u-unknown", "Remote Book", vec![], vec![hit("u-unknown", 5, 90)], 90)],
        cursor: 0,
        scroll_offset: 0,
        status: SearchStatus::Ready,
        expanded: Some(0),
    };
    match press(&mut d, &mut lib, ResultsKey::Enter) {
        ResultsRequest::Jump(j) => {
            assert_eq!(j.session_id, -1);
            assert_eq!(j.session_name, "Remote Book");
            assert!(!j.store_active);
        }
        other => panic!("Expected a jump, got {:?}", other),
    }
}

#[test]
fn test_enter_with_no_groups_stays_open() {
    let mut lib = Library::new();
    let mut d = ChapterResults {
        query: "dragon".into(),
        groups: vec![],
        cursor: 0,
        scroll_offset: 0,
        status: SearchStatus::Empty,
        expanded: None,
    };
    assert!(matches!(press(&mut d, &mut lib, ResultsKey::Enter), ResultsRequest::Stay));
}

#[test]
fn chapter_results_test_unhandled_key_returns_true() {
    let (mut d, mut lib) = (results(), Library::new());
    assert!(matches!(press(&mut d, &mut lib, ResultsKey::Other), ResultsRequest::Stay));
    assert_eq!(state(&d), (0, None));
}

#[test]
fn test_a_fetches_full_drill_down() {
    let (mut d, mut lib) = (results(), Library::new());
    match press(&mut d, &mut lib, ResultsKey::DrillDown) {
        ResultsRequest::DrillDown { query, book_url } => {
            assert_eq!(query, "dragon");
            assert_eq!(book_url, "u1");
        }
        other => panic!("expected DrillDownResults, got {:?}", other),
    }
    assert_eq!(d.status, SearchStatus::Loading);
}

#[test]
fn chapter_results_jump_falls_back_to_first_session() {
    let mut lib = Library::new();
    lib.add_book("Book A".into(), "u1".into());
    lib.books[0].sessions.push(Session {
        id: 3,
        book_url: "u1".into(),
        name: "First".into(),
        progress: Progress { current: 0, total: 1 },
        created_at: String::new(),
        updated_at: String::new(),
    });
    lib.books[0].active_session_id = Some(99);
    let mut d = results();
    d.expanded = Some(0);
    d.cursor = 1;
    match press(&mut d, &mut lib, ResultsKey::Enter) {
        ResultsRequest::Jump(j) => {
            assert_eq!(j.session_id, 3);
            assert_eq!(j.chapter_url, "u1/ch1");
        }
        other => panic!("Expected a jump, got {:?}", other),
    }
    assert_eq!(lib.books[0].active_session_id, Some(3));
}
