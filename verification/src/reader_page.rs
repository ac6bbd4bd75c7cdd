//! The reader page's keys: chapter navigation, paging or scrolling, and
//! the session list.
use vstd::prelude::*;
use crate::library::Library;
use crate::reader::ReaderState;
use crate::settings::ReaderMode;

verus! {

/// A key the reader page answers.
#[derive(Debug, Clone, Copy, PartialEq, Eq, Structural)]
pub enum ReaderKey {
    NextChapter,
    PrevChapter,
    ManageSessions,
    NextPage,
    PrevPage,
    ScrollDown,
    ScrollUp,
    Other,
}

/// What a key of the reader page asks for beyond the reader itself.
#[derive(Debug)]
pub enum ReaderRequest {
    /// Fetch this chapter of the selected book (the reader is loading).
    FetchChapter { url: String, idx: usize },
    /// Open the sessions of the selected book.
    OpenSessions(String),
}

/// The page after paging forward: the next one, unless this is the last.
pub open spec fn page_after(r: ReaderState, width: nat, height: nat) -> usize {
    if r.page + 1 < r.page_total(width, height) {
        (r.page + 1) as usize
    } else {
        r.page
    }
}

/// The page after paging back: the previous one, unless this is the first.
pub open spec fn page_before(r: ReaderState) -> usize {
    if r.page > 0 {
        (r.page - 1) as usize
    } else {
        0
    }
}

/// The scroll position one line further down, kept on the last line.
pub open spec fn line_after(r: ReaderState) -> usize {
    if r.scroll + 1 < r.content@.len() - 1 {
        (r.scroll + 1) as usize
    } else if r.content@.len() > 0 {
        (r.content@.len() - 1) as usize
    } else {
        0
    }
}

/// The scroll position one line up, kept on the first line.
pub open spec fn line_before(r: ReaderState) -> usize {
    if r.scroll >= 1 {
        (r.scroll - 1) as usize
    } else {
        0
    }
}

/// The chapter a chapter key goes to, if it moves at all: the next one, or
/// the previous one (none before the first).
pub open spec fn chapter_target(r: ReaderState, key: ReaderKey) -> Option<int> {
    match key {
        ReaderKey::NextChapter => if r.current_chapter_idx < usize::MAX {
            Some(r.current_chapter_idx + 1)
        } else {
            Some(r.current_chapter_idx as int)
        },
        ReaderKey::PrevChapter => if r.current_chapter_idx > 0 {
            Some(r.current_chapter_idx - 1)
        } else {
            None
        },
        _ => None,
    }
}

/// The reader page's answer to a key. The chapter keys, unless a chapter is
/// loading, ask for the next or previous chapter of the selected book when
/// it has one, and mark the reader loading. The session key asks for the
/// selected book's sessions. The page keys page in paged mode, the arrow
/// keys scroll a line in scrollable mode; other keys do nothing.
pub fn handle_reader(
    reader: &mut ReaderState,
    lib: &Library,
    mode: ReaderMode,
    key: ReaderKey,
    area_width: u16,
    area_height: u16,
) -> (r: Option<ReaderRequest>)
    ensures
        match key {
            ReaderKey::NextChapter | ReaderKey::PrevChapter => {
                let target = chapter_target(*old(reader), key);
                match (old(reader).loading, target, lib.selected_pos()) {
                    (false, Some(t), Some(b)) => if t < lib.books@[b].chapters@.len() {
                        &&& r matches Some(ReaderRequest::FetchChapter { url, idx }) && url
                            == lib.books@[b].chapters@[t].url && idx == t
                        &&& *final(reader) == (ReaderState { loading: true, ..*old(reader) })
                    } else {
                        r is None && *final(reader) == *old(reader)
                    },
                    _ => r is None && *final(reader) == *old(reader),
                }
            },
            ReaderKey::ManageSessions => *final(reader) == *old(reader) && match lib.selected_pos() {
                Some(b) => r matches Some(ReaderRequest::OpenSessions(u)) && u == lib.books@[b].url,
                None => r is None,
            },
            _ => r is None && *final(reader) == match (mode, key) {
                (ReaderMode::Paged, ReaderKey::NextPage) => ReaderState {
                    page: page_after(*old(reader), area_width as nat, area_height as nat),
                    ..*old(reader)
                },
                (ReaderMode::Paged, ReaderKey::PrevPage) => ReaderState {
                    page: page_before(*old(reader)),
                    ..*old(reader)
                },
                (ReaderMode::Scrollable, ReaderKey::ScrollDown) => ReaderState {
                    scroll: line_after(*old(reader)),
                    ..*old(reader)
                },
                (ReaderMode::Scrollable, ReaderKey::ScrollUp) => ReaderState {
                    scroll: line_before(*old(reader)),
                    ..*old(reader)
                },
                _ => *old(reader),
            },
        },
{
    match key {
        ReaderKey::NextChapter | ReaderKey::PrevChapter => {
            if reader.loading {
                return None;
            }
            let current = reader.current_chapter_idx;
            let target: usize = match key {
                ReaderKey::NextChapter => current.saturating_add(1),
                _ => current.saturating_sub(1),
            };
            if target == current && key == ReaderKey::PrevChapter {
                return None;
            }
            match lib.selected_book() {
                Some(book) => if target < book.chapters.len() {
                    let url = book.chapters[target].url.clone();
                    reader.loading = true;
                    Some(ReaderRequest::FetchChapter { url, idx: target })
                } else {
                    None
                },
                None => None,
            }
        },
        ReaderKey::ManageSessions => match lib.selected_book() {
            Some(book) => Some(ReaderRequest::OpenSessions(book.url.clone())),
            None => None,
        },
        _ => {
            match (mode, key) {
                (ReaderMode::Paged, ReaderKey::NextPage) => reader.next_page(area_width, area_height),
                (ReaderMode::Paged, ReaderKey::PrevPage) => reader.prev_page(area_width, area_height),
                (ReaderMode::Scrollable, ReaderKey::ScrollDown) => reader.scroll_down(1),
                (ReaderMode::Scrollable, ReaderKey::ScrollUp) => reader.scroll_up(1),
                _ => {},
            }
            None
        },
    }
}

} // verus!
