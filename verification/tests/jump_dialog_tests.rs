use scylla::jump_dialog::{handle_jumping_chapter, JumpDialog, JumpKey, JumpOutcome};
use scylla::library::Library;
use scylla::models::{Chapter, Progress, Session};

fn ch(title: &str, url: &str, order: u32) -> Chapter {
    Chapter { title: title.into(), url: url.into(), order }
}

fn setup(chapters: Vec<Chapter>, cursor: usize) -> (JumpDialog, Library) {
    let mut lib = Library::new();
    lib.add_book("Test Book".into(), "url".into());
    lib.books[0].chapters = chapters.clone();
    let d = JumpDialog {
        chapters: chapters.clone(),
        query: String::new(),
        filtered: chapters,
        cursor,
        scroll_offset: 0,
        show_titles: true,
    };
    (d, lib)
}

#[test]
fn jump_chapter_test_handle_jump_chapter_enter_selects_and_updates_progress() {
    let (mut d, mut lib) = setup(vec![ch("Ch1", "u1", 0), ch("Ch2", "u2", 1)], 1);
    lib.books[0].active_session_id = Some(0);
    lib.books[0].sessions.push(Session {
        id: 0,
        book_url: "url".into(),
        name: "default".into(),
        progress: Progress { current: 0, total: 2 },
        created_at: String::new(),
        updated_at: String::new(),
    });
    let r = handle_jumping_chapter(&mut d, &mut lib, JumpKey::Enter);
    assert_eq!(r, JumpOutcome::Progress { session_id: 0, current: 1 });
    assert_eq!(lib.books[0].sessions[0].progress.current, 1);
}

#[test]
fn jump_chapter_test_handle_jump_chapter_up_down_navigates() {
    let (mut d, mut lib) = setup(vec![ch("Ch1", "u1", 0), ch("Ch2", "u2", 1), ch("Ch3", "u3", 2)], 1);
    handle_jumping_chapter(&mut d, &mut lib, JumpKey::Up);
    assert_eq!(d.cursor, 0);
    handle_jumping_chapter(&mut d, &mut lib, JumpKey::Down);
    assert_eq!(d.cursor, 1);
}

#[test]
fn jump_chapter_test_handle_jump_chapter_t_toggles_show_titles() {
    let (mut d, mut lib) = setup(vec![ch("Ch1", "u1", 0)], 0);
    handle_jumping_chapter(&mut d, &mut lib, JumpKey::Char('t'));
    assert!(!d.show_titles);
}

#[test]
fn jump_chapter_test_handle_jump_chapter_up_stays_at_top() {
    let (mut d, mut lib) = setup(vec![ch("Ch1", "u1", 0)], 0);
    handle_jumping_chapter(&mut d, &mut lib, JumpKey::Up);
    assert_eq!(d.cursor, 0);
}

#[test]
fn jump_chapter_test_handle_jump_chapter_down_stays_at_bottom() {
    let (mut d, mut lib) = setup(vec![ch("Ch1", "u1", 0)], 0);
    handle_jumping_chapter(&mut d, &mut lib, JumpKey::Down);
    assert_eq!(d.cursor, 0);
}

#[test]
fn jump_typing_narrows_and_enter_maps_back_to_full_list() {
    let (mut d, mut lib) = setup(vec![ch("Intro", "u1", 0), ch("Dragon", "u2", 1), ch("End", "u3", 2)], 2);
    lib.books[0].active_session_id = Some(5);
    lib.books[0].sessions.push(Session {
        id: 5,
        book_url: "url".into(),
        name: "s".into(),
        progress: Progress { current: 0, total: 3 },
        created_at: String::new(),
        updated_at: String::new(),
    });
    for c in "DRA".chars() {
        handle_jumping_chapter(&mut d, &mut lib, JumpKey::Char(c));
    }
    assert_eq!(d.cursor, 0);
    assert_eq!(d.filtered.len(), 1);
    assert_eq!(d.filtered[0].url, "u2");
    handle_jumping_chapter(&mut d, &mut lib, JumpKey::Backspace);
    assert_eq!(d.query, "DR");
    assert_eq!(handle_jumping_chapter(&mut d, &mut lib, JumpKey::Enter), JumpOutcome::Progress { session_id: 5, current: 1 });
}

#[test]
fn jump_without_active_session_just_closes() {
    let (mut d, mut lib) = setup(vec![ch("Ch1", "u1", 0)], 0);
    assert_eq!(handle_jumping_chapter(&mut d, &mut lib, JumpKey::Enter), JumpOutcome::Close);
}
