//! Library records: books, their chapters, reading sessions and progress,
//! library backends and the reading status cycle.
use vstd::prelude::*;
use crate::text::str_eq;

verus! {

/// Where a reader stands with a book.
#[derive(Debug, PartialEq, Eq, Structural, Clone, Copy)]
pub enum BookStatus {
    Reading,
    Paused,
    Dropped,
    Completed,
}

/// The status that follows `s` in the cycle Reading → Paused → Dropped →
/// Completed → Reading.
pub open spec fn status_after(s: BookStatus) -> BookStatus {
    match s {
        BookStatus::Reading => BookStatus::Paused,
        BookStatus::Paused => BookStatus::Dropped,
        BookStatus::Dropped => BookStatus::Completed,
        BookStatus::Completed => BookStatus::Reading,
    }
}

/// The display and storage name of a status.
pub open spec fn status_name(s: BookStatus) -> Seq<char> {
    match s {
        BookStatus::Reading => "Reading"@,
        BookStatus::Paused => "Paused"@,
        BookStatus::Dropped => "Dropped"@,
        BookStatus::Completed => "Completed"@,
    }
}

/// The status a stored name denotes; any unknown name reads as `Reading`.
pub open spec fn status_named(t: Seq<char>) -> BookStatus {
    if t == "Paused"@ {
        BookStatus::Paused
    } else if t == "Dropped"@ {
        BookStatus::Dropped
    } else if t == "Completed"@ {
        BookStatus::Completed
    } else {
        BookStatus::Reading
    }
}

impl BookStatus {
    /// The next status in the cycle.
    pub fn next(&self) -> (r: BookStatus)
        ensures
            r == status_after(*self),
    {
        match self {
            BookStatus::Reading => BookStatus::Paused,
            BookStatus::Paused => BookStatus::Dropped,
            BookStatus::Dropped => BookStatus::Completed,
            BookStatus::Completed => BookStatus::Reading,
        }
    }

    /// The status's name, as displayed.
    pub fn to_string(&self) -> (r: String)
        ensures
            r@ == status_name(*self),
    {
        status_str(self).to_string()
    }
}

/// The storage name of a status.
pub fn status_str(s: &BookStatus) -> (r: &'static str)
    ensures
        r@ == status_name(*s),
{
    match s {
        BookStatus::Reading => "Reading",
        BookStatus::Paused => "Paused",
        BookStatus::Dropped => "Dropped",
        BookStatus::Completed => "Completed",
    }
}

/// The status a stored name denotes (unknown names give `Reading`).
pub fn parse_status(s: &str) -> (r: BookStatus)
    ensures
        r == status_named(s@),
{
    if str_eq(s, "Paused") {
        BookStatus::Paused
    } else if str_eq(s, "Dropped") {
        BookStatus::Dropped
    } else if str_eq(s, "Completed") {
        BookStatus::Completed
    } else {
        BookStatus::Reading
    }
}

/// Reading back a stored status gives the status that was stored.
pub proof fn lemma_status_roundtrip(s: BookStatus)
    ensures
        status_named(status_name(s)) == s,
{
    reveal_strlit("Reading");
    reveal_strlit("Paused");
    reveal_strlit("Dropped");
    reveal_strlit("Completed");
    assert("Reading"@[0] != "Paused"@[0]);
    assert("Reading"@[0] != "Dropped"@[0]);
    assert("Reading"@[0] != "Completed"@[0]);
    assert("Paused"@[0] != "Dropped"@[0]);
    assert("Paused"@[0] != "Completed"@[0]);
    assert("Dropped"@[0] != "Completed"@[0]);
}

/// Four steps of the status cycle return to the starting status, and no
/// fewer steps do.
pub proof fn lemma_status_cycle(s: BookStatus)
    ensures
        status_after(status_after(status_after(status_after(s)))) == s,
        status_after(s) != s,
        status_after(status_after(s)) != s,
        status_after(status_after(status_after(s))) != s,
{
}

/// A chapter of a book.
#[derive(Debug, PartialEq)]
pub struct Chapter {
    pub title: String,
    pub url: String,
    pub order: u32,
}

impl Clone for Chapter {
    fn clone(&self) -> (r: Self)
        ensures
            r == *self,
    {
        Chapter { title: self.title.clone(), url: self.url.clone(), order: self.order }
    }
}

/// How far a session has read.
#[derive(Debug, Clone, Copy, PartialEq, Eq, Structural)]
pub struct Progress {
    pub current: u32,
    pub total: u32,
}

/// A named reading session of a book.
#[derive(Debug, PartialEq)]
pub struct Session {
    pub id: i64,
    pub book_url: String,
    pub name: String,
    pub progress: Progress,
    pub created_at: String,
    pub updated_at: String,
}

impl Clone for Session {
    fn clone(&self) -> (r: Self)
        ensures
            r == *self,
    {
        Session {
            id: self.id,
            book_url: self.book_url.clone(),
            name: self.name.clone(),
            progress: self.progress,
            created_at: self.created_at.clone(),
            updated_at: self.updated_at.clone(),
        }
    }
}

/// A book of the library.
#[derive(Debug, PartialEq)]
pub struct Book {
    pub title: String,
    pub url: String,
    pub status: BookStatus,
    pub sessions: Vec<Session>,
    pub active_session_id: Option<i64>,
    pub tags: Vec<String>,
    pub cover_url: Option<String>,
    pub description: Option<String>,
    pub chapters: Vec<Chapter>,
}

/// A book with its lists taken by their contents.
pub struct BookView {
    pub title: Seq<char>,
    pub url: Seq<char>,
    pub status: BookStatus,
    pub sessions: Seq<Session>,
    pub active_session_id: Option<i64>,
    pub tags: Seq<Seq<char>>,
    pub cover_url: Option<String>,
    pub description: Option<String>,
    pub chapters: Seq<Chapter>,
}

impl View for Book {
    type V = BookView;

    open spec fn view(&self) -> BookView {
        BookView {
            title: self.title@,
            url: self.url@,
            status: self.status,
            sessions: self.sessions@,
            active_session_id: self.active_session_id,
            tags: crate::text::views(self.tags@),
            cover_url: self.cover_url,
            description: self.description,
            chapters: self.chapters@,
        }
    }
}

impl Clone for Book {
    fn clone(&self) -> (r: Self)
        ensures
            r@ == self@,
    {
        let sessions = self.sessions.clone();
        let tags = self.tags.clone();
        let chapters = self.chapters.clone();
        assert(sessions@ =~= self.sessions@);
        assert(tags@ =~= self.tags@);
        assert(chapters@ =~= self.chapters@);
        Book {
            title: self.title.clone(),
            url: self.url.clone(),
            status: self.status,
            sessions,
            active_session_id: self.active_session_id,
            tags,
            cover_url: self.cover_url.clone(),
            description: self.description.clone(),
            chapters,
        }
    }
}

/// A library backend as it is saved to the libraries file.
#[derive(Debug, PartialEq)]
pub struct LibraryConfig {
    pub name: String,
    pub url: String,
    pub default: bool,
}

/// Whether a backend is this machine's own or a remote server.
#[derive(Debug, Clone, Copy, PartialEq, Eq, Structural)]
pub enum BackendKind {
    Local,
    Remote,
}

/// A coarse library filter.
#[derive(Debug, PartialEq)]
pub enum LibraryFilter {
    All,
    ByStatus(BookStatus),
    ByTag(String),
    Backend(String),
}

} // verus!
