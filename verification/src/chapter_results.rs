//! The chapter results of an AI search: ranked books, collapsed, each
//! expanding to its best chapters; a chapter opens in the reader.
use vstd::prelude::*;
use crate::filter_dialog::{copy_filter, same_filter, FilterDialog, FilterRow};
use crate::library::{
    filter_library_cursor, filter_status_cursor, find_book, AiBook, AiChapter, Library,
    SearchStatus,
};
use crate::models::{Book, Session};
use crate::session_picker::{activated, find_session, picker_book, session_with_id};
use crate::text::views;

verus! {

/// The chapter results dialog.
#[derive(Debug)]
pub struct ChapterResults {
    pub query: String,
    /// The ranked books, each with its chapter hits.
    pub groups: Vec<AiBook>,
    pub cursor: usize,
    pub scroll_offset: usize,
    pub status: SearchStatus,
    /// The book whose chapters are shown; none while the books are.
    pub expanded: Option<usize>,
}

/// A key the dialog answers.
#[derive(Debug, Clone, Copy, PartialEq, Eq, Structural)]
pub enum ResultsKey {
    Up,
    Down,
    /// Expands the book under the cursor, or collapses back to the books.
    RowNext,
    Enter,
    Esc,
    /// Fetches every chapter of the focused book that matches the query.
    DrillDown,
    /// Goes back to the filter dialog to change the query.
    Refine,
    Other,
}

/// Opening a chapter in the reader.
#[derive(Debug, PartialEq)]
pub struct Jump {
    pub session_id: i64,
    pub session_name: String,
    /// Whether the session belongs to a book of the library, whose store
    /// records it as the active one.
    pub store_active: bool,
    pub chapter_url: String,
    pub chapter_idx: usize,
}

/// What the caller carries out after a key.
#[derive(Debug)]
pub enum ResultsRequest {
    /// The dialog stays open; nothing to carry out.
    Stay,
    /// The dialog closes.
    Close,
    /// Search again for every chapter of this book matching the query; the
    /// dialog waits for the answer.
    DrillDown { query: String, book_url: String },
    /// The dialog closes and the reader opens this chapter.
    Jump(Jump),
    /// The dialog gives way to this filter dialog.
    Refine(FilterDialog),
}

/// The session a chapter opens in: the book's active session, else its
/// first one.
pub open spec fn chosen_session(b: Book) -> Option<Session> {
    let first = if b.sessions@.len() > 0 {
        Some(b.sessions@[0])
    } else {
        None
    };
    match b.active_session_id {
        Some(id) => match session_with_id(b.sessions@, id) {
            Some(k) => Some(b.sessions@[k]),
            None => first,
        },
        None => first,
    }
}

/// Opening chapter `ch` of ranked book `g`: in the library book's session,
/// which becomes its active one, or as a guest (session -1, named after the
/// book) when the library has no session for it.
pub open spec fn jumped(lo: Library, ln: Library, g: AiBook, ch: AiChapter, j: Jump) -> bool {
    &&& j.chapter_url@ == ch.chapter_url@
    &&& j.chapter_idx == ch.chapter_idx
    &&& match picker_book(lo.books@, g.book_url@) {
        Some(i) if chosen_session(lo.books@[i]) is Some => {
            let s = chosen_session(lo.books@[i])->0;
            &&& j.session_id == s.id
            &&& j.session_name@ == s.name@
            &&& j.store_active
            &&& activated(lo, ln, i, s.id)
        },
        _ => {
            &&& j.session_id == -1
            &&& j.session_name@ == g.book_title@
            &&& !j.store_active
            &&& ln == lo
        },
    }
}

/// The dialog after a key, with the library and the request.
pub open spec fn results_step(
    o: ChapterResults,
    lo: Library,
    backend_names: Seq<Seq<char>>,
    key: ResultsKey,
    n: ChapterResults,
    ln: Library,
    r: ResultsRequest,
) -> bool {
    let ng = o.groups@.len();
    match key {
        ResultsKey::Up => r is Stay && ln == lo && n == ChapterResults {
            cursor: if o.cursor > 0 {
                (o.cursor - 1) as usize
            } else {
                o.cursor
            },
            ..o
        },
        ResultsKey::Down => {
            let len = match o.expanded {
                None => ng as int,
                Some(gi) => o.groups@[gi as int].chapters@.len() as int,
            };
            r is Stay && ln == lo && n == ChapterResults {
                cursor: if o.cursor + 1 < len {
                    (o.cursor + 1) as usize
                } else {
                    o.cursor
                },
                ..o
            }
        },
        ResultsKey::RowNext => r is Stay && ln == lo && match o.expanded {
            None => if o.cursor < ng {
                n == ChapterResults { expanded: Some(o.cursor), cursor: 0, ..o }
            } else {
                n == o
            },
            Some(gi) => n == ChapterResults { expanded: None, cursor: gi, ..o },
        },
        ResultsKey::Enter => match o.expanded {
            None => r is Stay && ln == lo && if o.cursor < ng {
                n == ChapterResults { expanded: Some(o.cursor), cursor: 0, ..o }
            } else {
                n == o
            },
            Some(gi) => {
                let g = o.groups@[gi as int];
                n == o && if o.cursor < g.chapters@.len() {
                    r matches ResultsRequest::Jump(j) && jumped(
                        lo,
                        ln,
                        g,
                        g.chapters@[o.cursor as int],
                        j,
                    )
                } else {
                    r is Close && ln == lo
                }
            },
        },
        ResultsKey::Esc => r is Close && ln == lo && n == o,
        ResultsKey::DrillDown => {
            let bi = match o.expanded {
                None => o.cursor,
                Some(gi) => gi,
            };
            ln == lo && if bi < ng {
                &&& r matches ResultsRequest::DrillDown { query, book_url }
                &&& query@ == o.query@
                &&& book_url@ == o.groups@[bi as int].book_url@
                &&& n == ChapterResults { status: SearchStatus::Loading, ..o }
            } else {
                r is Stay && n == o
            }
        },
        ResultsKey::Refine => {
            &&& ln == lo
            &&& n == o
            &&& r matches ResultsRequest::Refine(f)
            &&& same_filter(f.working, lo.filter)
            &&& f.focus == FilterRow::Ai
            &&& f.tag_query@.len() == 0
            &&& f.tag_cursor == 0
            &&& f.tag_scroll == 0
            &&& f.status_cursor == filter_status_cursor(lo.filter)
            &&& f.lib_cursor == filter_library_cursor(lo.filter, backend_names)
            &&& f.ai_query@ == o.query@
        },
        ResultsKey::Other => r is Stay && ln == lo && n == o,
    }
}

/// Opens chapter `ch` of ranked book `g`: in the library book's active
/// session (else its first), which becomes the active one; as a guest when
/// the library has no session for the book.
pub fn jump_to_chapter(lib: &mut Library, g: &AiBook, ch: &AiChapter) -> (j: Jump)
    ensures
        jumped(*old(lib), *final(lib), *g, *ch, j),
{
    let chosen: Option<(usize, usize)> = match find_book(&lib.books, g.book_url.as_str()) {
        Some(i) => {
            let b = &lib.books[i];
            let active = match b.active_session_id {
                Some(id) => find_session(&b.sessions, id),
                None => None,
            };
            match active {
                Some(k) => Some((i, k)),
                None => if b.sessions.len() > 0 {
                    Some((i, 0))
                } else {
                    None
                },
            }
        },
        None => None,
    };
    match chosen {
        Some((i, k)) => {
            let sid = lib.books[i].sessions[k].id;
            let name = lib.books[i].sessions[k].name.clone();
            lib.books[i].active_session_id = Some(sid);
            Jump {
                session_id: sid,
                session_name: name,
                store_active: true,
                chapter_url: ch.chapter_url.clone(),
                chapter_idx: ch.chapter_idx,
            }
        },
        None => Jump {
            session_id: -1,
            session_name: g.book_title.clone(),
            store_active: false,
            chapter_url: ch.chapter_url.clone(),
            chapter_idx: ch.chapter_idx,
        },
    }
}

/// The dialog's answer to a key.
pub fn handle_chapter_results(
    d: &mut ChapterResults,
    lib: &mut Library,
    key: ResultsKey,
    backend_names: &[String],
) -> (r: ResultsRequest)
    requires
        old(d).expanded matches Some(gi) ==> gi < old(d).groups@.len(),
    ensures
        results_step(*old(d), *old(lib), views(backend_names@), key, *final(d), *final(lib), r),
{
    let ng = d.groups.len();
    match key {
        ResultsKey::Up => {
            if d.cursor > 0 {
                d.cursor = d.cursor - 1;
            }
            ResultsRequest::Stay
        },
        ResultsKey::Down => {
            let len = match d.expanded {
                None => ng,
                Some(gi) => d.groups[gi].chapters.len(),
            };
            if d.cursor < len && d.cursor + 1 < len {
                d.cursor = d.cursor + 1;
            }
            ResultsRequest::Stay
        },
        ResultsKey::RowNext => {
            match d.expanded {
                None => {
                    if d.cursor < ng {
                        d.expanded = Some(d.cursor);
                        d.cursor = 0;
                    }
                },
                Some(gi) => {
                    d.expanded = None;
                    d.cursor = gi;
                },
            }
            ResultsRequest::Stay
        },
        ResultsKey::Enter => match d.expanded {
            None => {
                if d.cursor < ng {
                    d.expanded = Some(d.cursor);
                    d.cursor = 0;
                }
                ResultsRequest::Stay
            },
            Some(gi) => {
                if d.cursor < d.groups[gi].chapters.len() {
                    let j = jump_to_chapter(lib, &d.groups[gi], &d.groups[gi].chapters[d.cursor]);
                    ResultsRequest::Jump(j)
                } else {
                    ResultsRequest::Close
                }
            },
        },
        ResultsKey::Esc => ResultsRequest::Close,
        ResultsKey::DrillDown => {
            let bi = match d.expanded {
                None => d.cursor,
                Some(gi) => gi,
            };
            if bi < ng {
                d.status = SearchStatus::Loading;
                ResultsRequest::DrillDown {
                    query: d.query.clone(),
                    book_url: d.groups[bi].book_url.clone(),
                }
            } else {
                ResultsRequest::Stay
            }
        },
        ResultsKey::Refine => {
            let f = FilterDialog {
                working: copy_filter(&lib.filter),
                focus: FilterRow::Ai,
                tag_query: String::new(),
                tag_cursor: 0,
                tag_scroll: 0,
                status_cursor: lib.filter.status_cursor(),
                lib_cursor: lib.filter.library_cursor(backend_names),
                ai_query: d.query.clone(),
            };
            ResultsRequest::Refine(f)
        },
        ResultsKey::Other => ResultsRequest::Stay,
    }
}

} // verus!
