//! The dialog that jumps to a chapter of the selected book: a list of its
//! chapters, narrowed by a query.
use vstd::prelude::*;
use crate::chapters::{chapters_matching, filter_chapters};
use crate::library::{lemma_position_prefix, position_of, Library};
use crate::models::{Book, Chapter, Progress, Session};
use crate::session_picker::{find_session, session_with_id};
use crate::text::{pop_char, push_char, str_eq, trim};

verus! {

/// The jump-to-chapter dialog.
#[derive(Debug)]
pub struct JumpDialog {
    pub chapters: Vec<Chapter>,
    pub query: String,
    /// The chapters the query finds.
    pub filtered: Vec<Chapter>,
    pub cursor: usize,
    pub scroll_offset: usize,
    pub show_titles: bool,
}

/// A key the dialog answers; `t` toggles the titles, other characters go
/// into the query.
#[derive(Debug, Clone, Copy, PartialEq, Eq, Structural)]
pub enum JumpKey {
    Up,
    Down,
    Enter,
    Backspace,
    Char(char),
    Other,
}

/// What became of the dialog.
#[derive(Debug, PartialEq)]
pub enum JumpOutcome {
    Open,
    /// The dialog closes and the library page shows.
    Close,
    /// As `Close`; the session's progress changed to `current` and is to
    /// be stored.
    Progress { session_id: i64, current: u32 },
}

/// The chapters a query finds: all of them for a blank query.
pub open spec fn found_chapters(chs: Seq<Chapter>, query: Seq<char>) -> Seq<Chapter> {
    if trim(query).len() == 0 {
        chs
    } else {
        chapters_matching(chs, query)
    }
}

/// The URLs of chapters.
pub open spec fn chapter_urls(chs: Seq<Chapter>) -> Seq<Seq<char>> {
    chs.map_values(|c: Chapter| c.url@)
}

/// The library after session `k` of book `i` reached chapter `cur`.
pub open spec fn progressed(o: Library, n: Library, i: int, k: int, cur: u32) -> bool {
    let ob = o.books@[i];
    let nb = n.books@[i];
    let s = ob.sessions@[k];
    &&& n.books@.len() == o.books@.len()
    &&& forall|j: int| 0 <= j < o.books@.len() && j != i ==> n.books@[j] == o.books@[j]
    &&& nb == Book { sessions: nb.sessions, ..ob }
    &&& nb.sessions@ == ob.sessions@.update(
        k,
        Session { progress: Progress { current: cur, ..s.progress }, ..s },
    )
    &&& n.selected_index == o.selected_index
    &&& n.filter == o.filter
    &&& n.ai == o.ai
}

/// Where the first chapter at `url` stands.
fn find_chapter(chs: &Vec<Chapter>, url: &str) -> (r: Option<usize>)
    ensures
        match r {
            Some(k) => position_of(chapter_urls(chs@), url@) == Some(k as int) && k < chs@.len(),
            None => position_of(chapter_urls(chs@), url@) is None,
        },
{
    let ghost us = chapter_urls(chs@);
    let mut i: usize = 0;
    while i < chs.len()
        invariant
            i <= chs.len(),
            us == chapter_urls(chs@),
            position_of(us.take(i as int), url@) is None,
        decreases chs.len() - i,
    {
        assert(us.take(i + 1).drop_last() =~= us.take(i as int));
        assert(us.take(i + 1).last() == chs@[i as int].url@);
        if str_eq(chs[i].url.as_str(), url) {
            proof {
                lemma_position_prefix(us, url@, i as int + 1);
            }
            return Some(i);
        }
        i = i + 1;
    }
    assert(us.take(chs.len() as int) =~= us);
    None
}

/// The dialog's answer to a key. Typing narrows the chapters and puts the
/// cursor back on top; Enter closes the dialog, moving the selected book's
/// active session to the chosen chapter (its position among all the
/// chapters).
pub fn handle_jumping_chapter(d: &mut JumpDialog, lib: &mut Library, key: JumpKey) -> (r: JumpOutcome)
    ensures
        ({
            let o = *old(d);
            let n = *final(d);
            let lo = *old(lib);
            let ln = *final(lib);
            match key {
                JumpKey::Up => r is Open && ln == lo && n == JumpDialog {
                    cursor: if o.cursor > 0 {
                        (o.cursor - 1) as usize
                    } else {
                        o.cursor
                    },
                    ..o
                },
                JumpKey::Down => r is Open && ln == lo && n == JumpDialog {
                    cursor: if o.cursor + 1 < o.filtered@.len() {
                        (o.cursor + 1) as usize
                    } else {
                        o.cursor
                    },
                    ..o
                },
                JumpKey::Char('t') => r is Open && ln == lo && n == JumpDialog {
                    show_titles: !o.show_titles,
                    ..o
                },
                JumpKey::Char(c) => {
                    let q = o.query@.push(c);
                    &&& r is Open
                    &&& ln == lo
                    &&& n.query@ == q
                    &&& n.filtered@ == found_chapters(o.chapters@, q)
                    &&& n == JumpDialog { query: n.query, filtered: n.filtered, cursor: 0, ..o }
                },
                JumpKey::Backspace => {
                    let q = if o.query@.len() > 0 {
                        o.query@.drop_last()
                    } else {
                        o.query@
                    };
                    &&& r is Open
                    &&& ln == lo
                    &&& n.query@ == q
                    &&& n.filtered@ == found_chapters(o.chapters@, q)
                    &&& n == JumpDialog { query: n.query, filtered: n.filtered, cursor: 0, ..o }
                },
                JumpKey::Enter => n == o && {
                    let target = if o.cursor < o.filtered@.len() {
                        position_of(chapter_urls(o.chapters@), o.filtered@[o.cursor as int].url@)
                    } else {
                        None
                    };
                    match target {
                        Some(idx) => match lo.selected_pos() {
                            Some(i) => match lo.books@[i].active_session_id {
                                Some(aid) => match session_with_id(lo.books@[i].sessions@, aid) {
                                    Some(k) => r == JumpOutcome::Progress {
                                        session_id: aid,
                                        current: (idx as usize) as u32,
                                    } && progressed(lo, ln, i, k, (idx as usize) as u32),
                                    None => r is Close && ln == lo,
                                },
                                None => r is Close && ln == lo,
                            },
                            None => r is Close && ln == lo,
                        },
                        None => r is Close && ln == lo,
                    }
                },
                JumpKey::Other => r is Open && ln == lo && n == o,
            }
        }),
{
    match key {
        JumpKey::Up => {
            if d.cursor > 0 {
                d.cursor = d.cursor - 1;
            }
            JumpOutcome::Open
        },
        JumpKey::Down => {
            if d.cursor < d.filtered.len() && d.cursor + 1 < d.filtered.len() {
                d.cursor = d.cursor + 1;
            }
            JumpOutcome::Open
        },
        JumpKey::Char('t') => {
            d.show_titles = !d.show_titles;
            JumpOutcome::Open
        },
        JumpKey::Char(c) => {
            push_char(&mut d.query, c);
            d.filtered = filter_chapters(d.chapters.as_slice(), d.query.as_str());
            d.cursor = 0;
            JumpOutcome::Open
        },
        JumpKey::Backspace => {
            pop_char(&mut d.query);
            d.filtered = filter_chapters(d.chapters.as_slice(), d.query.as_str());
            d.cursor = 0;
            JumpOutcome::Open
        },
        JumpKey::Enter => {
            if d.cursor >= d.filtered.len() {
                return JumpOutcome::Close;
            }
            let idx = match find_chapter(&d.chapters, d.filtered[d.cursor].url.as_str()) {
                Some(idx) => idx,
                None => {
                    return JumpOutcome::Close;
                },
            };
            let i = match lib.selected_position() {
                Some(i) => i,
                None => {
                    return JumpOutcome::Close;
                },
            };
            let aid = match lib.books[i].active_session_id {
                Some(aid) => aid,
                None => {
                    return JumpOutcome::Close;
                },
            };
            match find_session(&lib.books[i].sessions, aid) {
                Some(k) => {
                    let cur = #[verifier::truncate] (idx as u32);
                    lib.books[i].sessions[k].progress.current = cur;
                    JumpOutcome::Progress { session_id: aid, current: cur }
                },
                None => JumpOutcome::Close,
            }
        },
        JumpKey::Other => JumpOutcome::Open,
    }
}


/// Records that the reader reached chapter `chapter_idx` in session
/// `session_id`: the selected book's first session with that id moves
/// there. Answers the progress to store.
pub fn record_chapter_progress(lib: &mut Library, session_id: i64, chapter_idx: usize) -> (r: u32)
    ensures
        r == chapter_idx as u32,
        match old(lib).selected_pos() {
            Some(i) => match session_with_id(old(lib).books@[i].sessions@, session_id) {
                Some(k) => progressed(*old(lib), *final(lib), i, k, r),
                None => *final(lib) == *old(lib),
            },
            None => *final(lib) == *old(lib),
        },
{
    let cur = #[verifier::truncate] (chapter_idx as u32);
    let i = match lib.selected_position() {
        Some(i) => i,
        None => {
            return cur;
        },
    };
    match find_session(&lib.books[i].sessions, session_id) {
        Some(k) => {
            lib.books[i].sessions[k].progress.current = cur;
        },
        None => {},
    }
    cur
}

} // verus!
