//! The library page's keys: moving the selection, changing the selected
//! book, and which dialog or request a key leads to.
use vstd::prelude::*;
use crate::library::{
    cycled_selected, filter_library_cursor, filter_status_cursor, removed_selected, Library,
};
use crate::models::{Book, Chapter};
use crate::text::views;

verus! {

/// A key the library page answers.
#[derive(Debug, Clone, Copy, PartialEq, Eq, Structural)]
pub enum LibraryKey {
    AddBook,
    Backends,
    JumpChapter,
    Embed,
    Delete,
    CycleStatus,
    Filter,
    Sessions,
    UpdateAll,
    Down,
    Up,
    Other,
}

/// What a key of the library page leads to beyond the library itself.
#[derive(Debug)]
pub enum LibraryRequest {
    /// Open the dialog that adds a book.
    AddBook,
    /// Open the list of library backends.
    Backends,
    /// Open the chapter list of the selected book to jump to one.
    JumpChapter(Vec<Chapter>),
    /// Open the embedding dialog of the selected book.
    Embed { book_url: String, book_title: String, chapters: Vec<Chapter> },
    /// Open the filter dialog on the current filter, its status and
    /// library rows selected.
    Filter { status_cursor: usize, library_cursor: usize },
    /// Open the sessions of the selected book.
    Sessions(String),
    /// Scrape these books again.
    UpdateAll(Vec<String>),
}

/// The URLs of the books that have one, in order.
pub open spec fn book_urls_to_update(books: Seq<Book>) -> Seq<Seq<char>>
    decreases books.len(),
{
    if books.len() == 0 {
        seq![]
    } else {
        let rest = book_urls_to_update(books.drop_last());
        if books.last().url@.len() > 0 {
            rest.push(books.last().url@)
        } else {
            rest
        }
    }
}

/// The selection after moving down: the next shown book, kept on the last
/// one; unchanged when nothing is shown.
pub open spec fn moved_down(selected: usize, shown: nat) -> usize {
    if shown > 0 {
        if selected + 1 < shown {
            (selected + 1) as usize
        } else {
            (shown - 1) as usize
        }
    } else {
        selected
    }
}

/// The selection after moving up: one up, kept on the first; unchanged
/// when nothing is shown.
pub open spec fn moved_up(selected: usize, shown: nat) -> usize {
    if shown > 0 && selected > 0 {
        (selected - 1) as usize
    } else {
        selected
    }
}

/// The library page's answer to a key: the selection moves, the selected
/// book is removed or its status advances, or a request names the dialog
/// to open or the books to update.
pub fn handle_library(lib: &mut Library, key: LibraryKey, backend_names: &[String]) -> (r: Option<
    LibraryRequest,
>)
    ensures
        match key {
            LibraryKey::Delete => r is None && removed_selected(*old(lib), *final(lib)),
            LibraryKey::CycleStatus => r is None && cycled_selected(*old(lib), *final(lib)),
            LibraryKey::Down => {
                &&& r is None
                &&& final(lib).selected_index == moved_down(
                    old(lib).selected_index,
                    old(lib).visible().len(),
                )
                &&& final(lib).books == old(lib).books
                &&& final(lib).filter == old(lib).filter
                &&& final(lib).ai == old(lib).ai
            },
            LibraryKey::Up => {
                &&& r is None
                &&& final(lib).selected_index == moved_up(
                    old(lib).selected_index,
                    old(lib).visible().len(),
                )
                &&& final(lib).books == old(lib).books
                &&& final(lib).filter == old(lib).filter
                &&& final(lib).ai == old(lib).ai
            },
            _ => *final(lib) == *old(lib) && match key {
                LibraryKey::AddBook => r matches Some(LibraryRequest::AddBook),
                LibraryKey::Backends => r matches Some(LibraryRequest::Backends),
                LibraryKey::JumpChapter => match old(lib).selected_pos() {
                    Some(i) => r matches Some(LibraryRequest::JumpChapter(cs)) && cs@
                        == old(lib).books@[i].chapters@,
                    None => r is None,
                },
                LibraryKey::Embed => match old(lib).selected_pos() {
                    Some(i) => r matches Some(
                        LibraryRequest::Embed { book_url, book_title, chapters },
                    ) && book_url == old(lib).books@[i].url && book_title == old(
                        lib,
                    ).books@[i].title && chapters@ == old(lib).books@[i].chapters@,
                    None => r is None,
                },
                LibraryKey::Filter => r matches Some(
                    LibraryRequest::Filter { status_cursor, library_cursor },
                ) && status_cursor == filter_status_cursor(old(lib).filter) && library_cursor
                    == filter_library_cursor(old(lib).filter, views(backend_names@)),
                LibraryKey::Sessions => match old(lib).selected_pos() {
                    Some(i) => r matches Some(LibraryRequest::Sessions(u)) && u
                        == old(lib).books@[i].url,
                    None => r is None,
                },
                LibraryKey::UpdateAll => if book_urls_to_update(old(lib).books@).len() > 0 {
                    r matches Some(LibraryRequest::UpdateAll(urls)) && views(urls@)
                        == book_urls_to_update(old(lib).books@)
                } else {
                    r is None
                },
                _ => r is None,
            },
        },
{
    match key {
        LibraryKey::AddBook => Some(LibraryRequest::AddBook),
        LibraryKey::Backends => Some(LibraryRequest::Backends),
        LibraryKey::JumpChapter => match lib.selected_book() {
            Some(book) => Some(LibraryRequest::JumpChapter(book.chapters.clone())),
            None => None,
        },
        LibraryKey::Embed => match lib.selected_book() {
            Some(book) => Some(
                LibraryRequest::Embed {
                    book_url: book.url.clone(),
                    book_title: book.title.clone(),
                    chapters: book.chapters.clone(),
                },
            ),
            None => None,
        },
        LibraryKey::Delete => {
            lib.remove_selected();
            None
        },
        LibraryKey::CycleStatus => {
            lib.cycle_selected_status();
            None
        },
        LibraryKey::Filter => Some(
            LibraryRequest::Filter {
                status_cursor: lib.filter.status_cursor(),
                library_cursor: lib.filter.library_cursor(backend_names),
            },
        ),
        LibraryKey::Sessions => match lib.selected_book() {
            Some(book) => Some(LibraryRequest::Sessions(book.url.clone())),
            None => None,
        },
        LibraryKey::UpdateAll => {
            let mut urls: Vec<String> = Vec::new();
            let mut i: usize = 0;
            while i < lib.books.len()
                invariant
                    i <= lib.books.len(),
                    views(urls@) == book_urls_to_update(lib.books@.take(i as int)),
                decreases lib.books.len() - i,
            {
                assert(lib.books@.take(i + 1).drop_last() =~= lib.books@.take(i as int));
                assert(lib.books@.take(i + 1).last() == lib.books@[i as int]);
                if !lib.books[i].url.as_str().is_empty() {
                    let ghost before = views(urls@);
                    urls.push(lib.books[i].url.clone());
                    assert(views(urls@) =~= before.push(lib.books@[i as int].url@));
                }
                i = i + 1;
            }
            assert(lib.books@.take(lib.books.len() as int) =~= lib.books@);
            if urls.len() > 0 {
                Some(LibraryRequest::UpdateAll(urls))
            } else {
                None
            }
        },
        LibraryKey::Down => {
            let shown = lib.visible_indices().len();
            if shown > 0 {
                lib.selected_index = if lib.selected_index < shown - 1 {
                    lib.selected_index + 1
                } else {
                    shown - 1
                };
            }
            None
        },
        LibraryKey::Up => {
            let shown = lib.visible_indices().len();
            if shown > 0 && lib.selected_index > 0 {
                lib.selected_index = lib.selected_index - 1;
            }
            None
        },
        LibraryKey::Other => None,
    }
}

} // verus!
