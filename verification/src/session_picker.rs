//! The session picker of a book: opening, naming, renaming and deleting its
//! reading sessions. The picker decides; the store and the reader are the
//! caller's, who carries out the returned request.
use vstd::prelude::*;
use crate::library::{book_urls, find_book, position_of, visible_of, Library};
use crate::models::{Book, Session};
use crate::text::{pop_char, push_char, str_eq, str_is_blank, trim, trim_str};

verus! {

/// The session picker of a book.
#[derive(Debug)]
pub struct SessionPicker {
    pub book_url: String,
    pub cursor: usize,
    pub scroll_offset: usize,
    /// The name being typed, while naming a new session or renaming one.
    pub input: Option<String>,
    /// The session being renamed; none while naming a new one.
    pub editing_id: Option<i64>,
    /// Set by a first delete of the book's last session: a second delete
    /// removes the book, any other key cancels.
    pub pending_delete_url: Option<String>,
}

/// A key the picker answers. While a name is typed, characters are text;
/// otherwise `n` names a new session, `r` renames the one under the cursor
/// and `d` deletes it.
#[derive(Debug, Clone, Copy, PartialEq, Eq, Structural)]
pub enum SessionKey {
    Up,
    Down,
    Esc,
    Enter,
    Backspace,
    Char(char),
    Other,
}

/// What the caller carries out after a key.
#[derive(Debug, PartialEq)]
pub enum SessionRequest {
    /// The picker stays open; nothing to carry out.
    Stay,
    /// The picker closes.
    Close,
    /// The picker closes on this session, now the book's active one: record
    /// it, and fetch the chapter given (none when the book has no chapters).
    Select { session_id: i64, name: String, chapter: Option<(String, usize)> },
    /// Delete this session from the store and reload the book's sessions;
    /// the picker stays open.
    DeleteSession(i64),
    /// The book's last session went: delete the book from the store (the
    /// library no longer holds it); the picker closes.
    DeleteBook(String),
    /// Rename this session in the store and reload the book's sessions.
    Rename { session_id: i64, name: String },
    /// Create a session with this name over this many chapters, make it the
    /// active one, and fetch the first chapter when there is one.
    Create { name: String, chapters: usize, first_chapter: Option<String> },
}

/// Where the picker's book stands in the library: the first book with its URL.
pub open spec fn picker_book(books: Seq<Book>, url: Seq<char>) -> Option<int> {
    position_of(book_urls(books), url)
}

/// How many sessions the picker's book has (none when it is gone).
pub open spec fn session_count(books: Seq<Book>, url: Seq<char>) -> int {
    match picker_book(books, url) {
        Some(i) => books[i].sessions@.len() as int,
        None => 0,
    }
}

/// The chapter a session opens at: its progress, kept within the chapters.
pub open spec fn opening_chapter(b: Book, s: Session) -> int {
    if (s.progress.current as int) < b.chapters@.len() {
        s.progress.current as int
    } else {
        b.chapters@.len() - 1
    }
}

/// The book with this session active.
pub open spec fn with_active(b: Book, id: i64) -> Book {
    Book { active_session_id: Some(id), ..b }
}

/// The books without those at `url`, the rest in order.
pub open spec fn books_without(bs: Seq<Book>, url: Seq<char>) -> Seq<Book>
    decreases bs.len(),
{
    if bs.len() == 0 {
        seq![]
    } else if bs.last().url@ == url {
        books_without(bs.drop_last(), url)
    } else {
        books_without(bs.drop_last(), url).push(bs.last())
    }
}

/// The first session with this id.
pub open spec fn session_with_id(s: Seq<Session>, id: i64) -> Option<int>
    decreases s.len(),
{
    if s.len() == 0 {
        None
    } else {
        match session_with_id(s.drop_last(), id) {
            Some(k) => Some(k),
            None => if s.last().id == id {
                Some(s.len() - 1)
            } else {
                None
            },
        }
    }
}

/// The picker with the pending delete cancelled.
pub open spec fn calm(p: SessionPicker) -> SessionPicker {
    SessionPicker { pending_delete_url: None, ..p }
}

/// The library after the picker's book is removed: every book at its URL
/// leaves, and the selection steps back when it fell off the end.
pub open spec fn without_book(o: Library, n: Library, url: Seq<char>) -> bool {
    &&& n.books@ == books_without(o.books@, url)
    &&& n.selected_index == (if o.selected_index > 0 && o.selected_index >= visible_of(
        n.books@,
        o.filter,
        o.ai,
    ).len() {
        (o.selected_index - 1) as usize
    } else {
        o.selected_index
    })
    &&& n.filter == o.filter
    &&& n.ai == o.ai
}

/// The library after the picker's book makes session `id` active.
pub open spec fn activated(o: Library, n: Library, i: int, id: i64) -> bool {
    &&& n.books@ == o.books@.update(i, with_active(o.books@[i], id))
    &&& n.selected_index == o.selected_index
    &&& n.filter == o.filter
    &&& n.ai == o.ai
}

/// The answer to a key while no name is typed.
pub open spec fn browsing_step(
    o: SessionPicker,
    lo: Library,
    key: SessionKey,
    n: SessionPicker,
    ln: Library,
    r: SessionRequest,
) -> bool {
    let url = o.book_url@;
    let count = session_count(lo.books@, url);
    match key {
        SessionKey::Up => r is Stay && ln == lo && n == SessionPicker {
            cursor: if o.cursor > 0 {
                (o.cursor - 1) as usize
            } else {
                o.cursor
            },
            ..o
        },
        SessionKey::Down => r is Stay && ln == lo && n == SessionPicker {
            cursor: if o.cursor + 1 < count {
                (o.cursor + 1) as usize
            } else {
                o.cursor
            },
            ..o
        },
        SessionKey::Esc => r is Close && ln == lo && n == calm(o),
        SessionKey::Enter => n == calm(o) && match picker_book(lo.books@, url) {
            Some(i) => if o.cursor < count {
                let b = lo.books@[i];
                let s = b.sessions@[o.cursor as int];
                &&& activated(lo, ln, i, s.id)
                &&& r matches SessionRequest::Select { session_id, name, chapter }
                &&& session_id == s.id
                &&& name@ == s.name@
                &&& match chapter {
                    Some((u, k)) => b.chapters@.len() > 0 && k == opening_chapter(b, s) && u@
                        == b.chapters@[k as int].url@,
                    None => b.chapters@.len() == 0,
                }
            } else {
                r is Close && ln == lo
            },
            None => r is Close && ln == lo,
        },
        SessionKey::Char('n') => r is Stay && ln == lo && (n.input matches Some(t) && t@.len()
            == 0) && n == SessionPicker {
            cursor: 0,
            input: n.input,
            editing_id: None,
            pending_delete_url: None,
            ..o
        },
        SessionKey::Char('r') => r is Stay && ln == lo && if o.cursor < count {
            let s = lo.books@[picker_book(lo.books@, url)->0].sessions@[o.cursor as int];
            &&& n.input matches Some(t) && t@ == s.name@
            &&& n == SessionPicker { input: n.input, editing_id: Some(s.id), ..calm(o) }
        } else {
            n == calm(o)
        },
        SessionKey::Char('d') => if o.cursor < count {
            let sid = lo.books@[picker_book(lo.books@, url)->0].sessions@[o.cursor as int].id;
            if count == 1 && o.pending_delete_url is None {
                &&& r is Stay
                &&& ln == lo
                &&& n.pending_delete_url matches Some(u) && u@ == url
                &&& n == SessionPicker { pending_delete_url: n.pending_delete_url, ..o }
            } else if count > 1 {
                &&& r == SessionRequest::DeleteSession(sid)
                &&& ln == lo
                &&& n == SessionPicker {
                    cursor: if o.cursor <= count - 2 {
                        o.cursor
                    } else {
                        (count - 2) as usize
                    },
                    ..o
                }
            } else {
                &&& r matches SessionRequest::DeleteBook(u) && u@ == url
                &&& without_book(lo, ln, url)
                &&& n == calm(o)
            }
        } else {
            r is Stay && ln == lo && n == o
        },
        _ => r is Stay && ln == lo && n == calm(o),
    }
}

/// The library after session `id` of the picker's book is renamed: the
/// book's first session with that id takes the name; nothing else changes.
pub open spec fn renamed(o: Library, n: Library, url: Seq<char>, id: i64, name: Seq<char>) -> bool {
    match picker_book(o.books@, url) {
        Some(i) => match session_with_id(o.books@[i].sessions@, id) {
            Some(k) => {
                let ob = o.books@[i];
                let nb = n.books@[i];
                &&& n.books@.len() == o.books@.len()
                &&& forall|j: int| 0 <= j < o.books@.len() && j != i ==> n.books@[j] == o.books@[j]
                &&& nb == Book { sessions: nb.sessions, ..ob }
                &&& nb.sessions@.len() == ob.sessions@.len()
                &&& forall|m: int|
                    0 <= m < ob.sessions@.len() && m != k ==> nb.sessions@[m] == ob.sessions@[m]
                &&& nb.sessions@[k] == Session { name: nb.sessions@[k].name, ..ob.sessions@[k] }
                &&& nb.sessions@[k].name@ == name
                &&& n.selected_index == o.selected_index
                &&& n.filter == o.filter
                &&& n.ai == o.ai
            },
            None => n == o,
        },
        None => n == o,
    }
}

/// The answer to a key while a name is typed into `text`.
pub open spec fn naming_step(
    o: SessionPicker,
    lo: Library,
    key: SessionKey,
    n: SessionPicker,
    ln: Library,
    r: SessionRequest,
) -> bool {
    let text = o.input->0@;
    let url = o.book_url@;
    match key {
        SessionKey::Esc => r is Stay && ln == lo && n == SessionPicker {
            input: None,
            editing_id: None,
            ..o
        },
        SessionKey::Enter => {
            let name = trim(text);
            if name.len() == 0 {
                r is Stay && ln == lo && n == o
            } else {
                &&& n == SessionPicker { input: None, editing_id: None, cursor: 0, ..o }
                &&& match o.editing_id {
                    Some(id) => {
                        &&& r matches SessionRequest::Rename { session_id, name: nm }
                        &&& session_id == id
                        &&& nm@ == name
                        &&& renamed(lo, ln, url, id, name)
                    },
                    None => ln == lo && match picker_book(lo.books@, url) {
                        Some(i) => {
                            let chs = lo.books@[i].chapters@;
                            &&& r matches SessionRequest::Create { name: nm, chapters, first_chapter }
                            &&& nm@ == name
                            &&& chapters == chs.len()
                            &&& match first_chapter {
                                Some(u) => chs.len() > 0 && u@ == chs[0].url@,
                                None => chs.len() == 0,
                            }
                        },
                        None => r is Stay,
                    },
                }
            }
        },
        SessionKey::Backspace => r is Stay && ln == lo && (n.input matches Some(t) && t@ == (if text.len()
            > 0 {
            text.drop_last()
        } else {
            text
        })) && n == SessionPicker { input: n.input, ..o },
        SessionKey::Char(c) => r is Stay && ln == lo && (n.input matches Some(t) && t@ == text.push(
            c,
        )) && n == SessionPicker { input: n.input, ..o },
        _ => r is Stay && ln == lo && n == o,
    }
}

impl SessionPicker {
    /// The picker as it opens on a book.
    pub fn new(book_url: String) -> (r: Self)
        ensures
            r.book_url == book_url,
            r.cursor == 0,
            r.scroll_offset == 0,
            r.input is None,
            r.editing_id is None,
            r.pending_delete_url is None,
    {
        SessionPicker {
            book_url,
            cursor: 0,
            scroll_offset: 0,
            input: None,
            editing_id: None,
            pending_delete_url: None,
        }
    }
}

/// Removes every book at `url`, keeping the order of the rest.
fn remove_books_at(v: &mut Vec<Book>, url: &str)
    ensures
        final(v)@ == books_without(old(v)@, url@),
{
    let ghost orig = v@;
    let n = v.len();
    let mut i: usize = 0;
    let mut j: usize = 0;
    while j < n
        invariant
            n == orig.len(),
            j <= orig.len(),
            v@ == books_without(orig.take(j as int), url@) + orig.skip(j as int),
            i == books_without(orig.take(j as int), url@).len(),
            i <= j,
        decreases orig.len() - j,
    {
        assert(orig.take(j + 1).drop_last() =~= orig.take(j as int));
        assert(orig.take(j + 1).last() == orig[j as int]);
        assert(v@[i as int] == orig[j as int]);
        let ghost kept = books_without(orig.take(j as int), url@);
        if str_eq(v[i].url.as_str(), url) {
            v.remove(i);
            assert(v@ =~= kept + orig.skip(j + 1));
        } else {
            assert(v@ =~= kept.push(orig[j as int]) + orig.skip(j + 1));
            i = i + 1;
        }
        j = j + 1;
    }
    assert(orig.take(orig.len() as int) =~= orig);
    assert(v@ =~= books_without(orig, url@));
}

/// The picker's answer to a key while no name is typed.
fn handle_browsing(p: &mut SessionPicker, lib: &mut Library, key: SessionKey) -> (r: SessionRequest)
    requires
        old(p).input is None,
    ensures
        browsing_step(*old(p), *old(lib), key, *final(p), *final(lib), r),
{
    let pos = find_book(&lib.books, p.book_url.as_str());
    let count: usize = match pos {
        Some(i) => lib.books[i].sessions.len(),
        None => 0,
    };
    match key {
        SessionKey::Up => {
            if p.cursor > 0 {
                p.cursor = p.cursor - 1;
            }
            SessionRequest::Stay
        },
        SessionKey::Down => {
            if count > 0 && p.cursor < count - 1 {
                p.cursor = p.cursor + 1;
            }
            SessionRequest::Stay
        },
        SessionKey::Esc => {
            p.pending_delete_url = None;
            SessionRequest::Close
        },
        SessionKey::Enter => {
            p.pending_delete_url = None;
            match pos {
                Some(i) => {
                    if p.cursor < count {
                        let c = p.cursor;
                        let sid = lib.books[i].sessions[c].id;
                        let name = lib.books[i].sessions[c].name.clone();
                        let nch = lib.books[i].chapters.len();
                        let chapter = if nch == 0 {
                            None
                        } else {
                            let cur = lib.books[i].sessions[c].progress.current as usize;
                            let k = if cur < nch {
                                cur
                            } else {
                                nch - 1
                            };
                            Some((lib.books[i].chapters[k].url.clone(), k))
                        };
                        lib.books[i].active_session_id = Some(sid);
                        SessionRequest::Select { session_id: sid, name, chapter }
                    } else {
                        SessionRequest::Close
                    }
                },
                None => SessionRequest::Close,
            }
        },
        SessionKey::Char('n') => {
            p.cursor = 0;
            p.input = Some(String::new());
            p.editing_id = None;
            p.pending_delete_url = None;
            SessionRequest::Stay
        },
        SessionKey::Char('r') => {
            p.pending_delete_url = None;
            match pos {
                Some(i) => {
                    if p.cursor < count {
                        let c = p.cursor;
                        p.input = Some(lib.books[i].sessions[c].name.clone());
                        p.editing_id = Some(lib.books[i].sessions[c].id);
                    }
                },
                None => {},
            }
            SessionRequest::Stay
        },
        SessionKey::Char('d') => {
            if p.cursor >= count {
                return SessionRequest::Stay;
            }
            let i = match pos {
                Some(i) => i,
                None => {
                    return SessionRequest::Stay;
                },
            };
            let sid = lib.books[i].sessions[p.cursor].id;
            if count == 1 {
                if p.pending_delete_url.is_none() {
                    p.pending_delete_url = Some(p.book_url.clone());
                    return SessionRequest::Stay;
                }
                p.pending_delete_url = None;
                let url = p.book_url.clone();
                remove_books_at(&mut lib.books, url.as_str());
                let new_len = lib.visible_indices().len();
                if lib.selected_index > 0 && lib.selected_index >= new_len {
                    lib.selected_index = lib.selected_index - 1;
                }
                SessionRequest::DeleteBook(url)
            } else {
                if p.cursor > count - 2 {
                    p.cursor = count - 2;
                }
                SessionRequest::DeleteSession(sid)
            }
        },
        _ => {
            p.pending_delete_url = None;
            SessionRequest::Stay
        },
    }
}

/// Where the first session with this id stands.
pub(crate) fn find_session(v: &Vec<Session>, id: i64) -> (r: Option<usize>)
    ensures
        match r {
            Some(k) => session_with_id(v@, id) == Some(k as int) && k < v@.len(),
            None => session_with_id(v@, id) is None,
        },
{
    let mut i: usize = 0;
    while i < v.len()
        invariant
            i <= v.len(),
            session_with_id(v@.take(i as int), id) is None,
        decreases v.len() - i,
    {
        assert(v@.take(i + 1).drop_last() =~= v@.take(i as int));
        if v[i].id == id {
            proof {
                lemma_session_prefix(v@, id, i + 1);
            }
            return Some(i);
        }
        i = i + 1;
    }
    assert(v@.take(v.len() as int) =~= v@);
    None
}

proof fn lemma_session_prefix(s: Seq<Session>, id: i64, n: int)
    requires
        0 <= n <= s.len(),
        session_with_id(s.take(n), id) is Some,
    ensures
        session_with_id(s, id) == session_with_id(s.take(n), id),
    decreases s.len() - n,
{
    if n < s.len() {
        assert(s.take(n + 1).drop_last() =~= s.take(n));
        lemma_session_prefix(s, id, n + 1);
    } else {
        assert(s.take(n) =~= s);
    }
}


/// The picker's answer to a key while a name is typed.
fn handle_naming(p: &mut SessionPicker, lib: &mut Library, key: SessionKey) -> (r: SessionRequest)
    requires
        old(p).input is Some,
    ensures
        naming_step(*old(p), *old(lib), key, *final(p), *final(lib), r),
{
    match key {
        SessionKey::Esc => {
            p.input = None;
            p.editing_id = None;
            SessionRequest::Stay
        },
        SessionKey::Enter => {
            let name = match &p.input {
                Some(t) => {
                    if str_is_blank(t.as_str()) {
                        return SessionRequest::Stay;
                    }
                    trim_str(t.as_str())
                },
                None => String::new(),
            };
            let pos = find_book(&lib.books, p.book_url.as_str());
            let r = match p.editing_id {
                Some(id) => {
                    match pos {
                        Some(i) => {
                            match find_session(&lib.books[i].sessions, id) {
                                Some(k) => {
                                    lib.books[i].sessions[k].name = name.clone();
                                },
                                None => {},
                            }
                        },
                        None => {},
                    }
                    SessionRequest::Rename { session_id: id, name }
                },
                None => match pos {
                    Some(i) => {
                        let nch = lib.books[i].chapters.len();
                        let first_chapter = if nch > 0 {
                            Some(lib.books[i].chapters[0].url.clone())
                        } else {
                            None
                        };
                        SessionRequest::Create { name, chapters: nch, first_chapter }
                    },
                    None => SessionRequest::Stay,
                },
            };
            p.input = None;
            p.editing_id = None;
            p.cursor = 0;
            r
        },
        SessionKey::Backspace => {
            let mut t = match p.input.take() {
                Some(t) => t,
                None => String::new(),
            };
            pop_char(&mut t);
            p.input = Some(t);
            SessionRequest::Stay
        },
        SessionKey::Char(c) => {
            let mut t = match p.input.take() {
                Some(t) => t,
                None => String::new(),
            };
            push_char(&mut t, c);
            p.input = Some(t);
            SessionRequest::Stay
        },
        _ => SessionRequest::Stay,
    }
}

/// The picker's answer to a key: while a name is typed, keys edit it
/// (Enter keeps it, unless blank; Esc drops it); otherwise they move the
/// cursor, open, name, rename or delete sessions. Deleting the book's last
/// session asks twice and then removes the book.
pub fn handle_session_picker(p: &mut SessionPicker, lib: &mut Library, key: SessionKey) -> (r: SessionRequest)
    ensures
        old(p).input is Some ==> naming_step(*old(p), *old(lib), key, *final(p), *final(lib), r),
        old(p).input is None ==> browsing_step(*old(p), *old(lib), key, *final(p), *final(lib), r),
{
    if p.input.is_some() {
        handle_naming(p, lib, key)
    } else {
        handle_browsing(p, lib, key)
    }
}


/// Deleting the book's last session takes two presses of `d`: the first
/// only asks, leaving the library as it was; the second removes the book.
pub proof fn lemma_last_session_delete_asks_first(
    o: SessionPicker,
    lo: Library,
    n1: SessionPicker,
    l1: Library,
    r1: SessionRequest,
    n2: SessionPicker,
    l2: Library,
    r2: SessionRequest,
)
    requires
        o.input is None,
        o.pending_delete_url is None,
        o.cursor == 0,
        session_count(lo.books@, o.book_url@) == 1,
        browsing_step(o, lo, SessionKey::Char('d'), n1, l1, r1),
        browsing_step(n1, l1, SessionKey::Char('d'), n2, l2, r2),
    ensures
        r1 is Stay,
        l1 == lo,
        r2 matches SessionRequest::DeleteBook(u) && u@ == o.book_url@,
        without_book(lo, l2, o.book_url@),
{
}

} // verus!
