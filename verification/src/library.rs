//! The book library: the filter and how it reads, the tags the books carry,
//! searching, the selection, and the ranking an AI search imposes.
use vstd::prelude::*;
use crate::models::{status_after, status_name, status_str, Book, BookStatus};
use crate::text::{
    char_views, chars_eq, contains_chars, contains_sub, join, join_strings, lemma_text_lt_irreflexive,
    lemma_text_lt_total, lemma_text_lt_transitive, lowercase, push_char, push_str, str_eq,
    str_is_blank, string_of, text_less, text_lt, to_chars, to_lowercase, trim, trim_str, views,
};

verus! {

/// Every text of `s` comes before every later one (sorted, no repeats).
pub open spec fn strictly_sorted(s: Seq<Seq<char>>) -> bool {
    forall|i: int, j: int| 0 <= i < j < s.len() ==> text_lt(#[trigger] s[i], #[trigger] s[j])
}

/// Inserts `x` into a strictly sorted list unless it is there already.
fn insert_sorted(out: &mut Vec<Vec<char>>, x: Vec<char>)
    requires
        strictly_sorted(char_views(old(out)@)),
    ensures
        strictly_sorted(char_views(final(out)@)),
        forall|t: Seq<char>|
            char_views(final(out)@).contains(t) <==> (char_views(old(out)@).contains(t) || t
                == x@),
{
    let ghost old_v = char_views(out@);
    let mut p: usize = 0;
    while p < out.len() && text_less(&out[p], &x)
        invariant
            p <= out.len(),
            old_v == char_views(out@),
            forall|k: int| 0 <= k < p ==> text_lt(#[trigger] old_v[k], x@),
        decreases out.len() - p,
    {
        p = p + 1;
    }
    if p < out.len() && chars_eq(&out[p], &x) {
        assert(old_v[p as int] == x@);
        return;
    }
    let ghost xv = x@;
    proof {
        if p < out.len() {
            lemma_text_lt_total(old_v[p as int], xv);
        }
    }
    out.insert(p, x);
    let ghost new_v = char_views(out@);
    assert(new_v =~= old_v.insert(p as int, xv));
    assert forall|i: int, j: int| 0 <= i < j < new_v.len() implies text_lt(
        #[trigger] new_v[i],
        #[trigger] new_v[j],
    ) by {
        if j < p {
            assert(new_v[i] == old_v[i] && new_v[j] == old_v[j]);
        } else if j == p {
            assert(new_v[i] == old_v[i]);
        } else if i < p {
            assert(new_v[i] == old_v[i] && new_v[j] == old_v[j - 1]);
            assert(text_lt(old_v[i], xv));
            assert(text_lt(xv, old_v[p as int]));
            if j - 1 > p {
                assert(text_lt(old_v[p as int], old_v[j - 1]));
                lemma_text_lt_transitive(xv, old_v[p as int], old_v[j - 1]);
            }
            lemma_text_lt_transitive(old_v[i], xv, old_v[j - 1]);
        } else if i == p {
            assert(new_v[j] == old_v[j - 1]);
            if j - 1 > p {
                assert(text_lt(old_v[p as int], old_v[j - 1]));
                lemma_text_lt_transitive(xv, old_v[p as int], old_v[j - 1]);
            }
        } else {
            assert(new_v[i] == old_v[i - 1] && new_v[j] == old_v[j - 1]);
        }
    }
    assert forall|t: Seq<char>| new_v.contains(t) <==> (old_v.contains(t) || t == xv) by {
        if new_v.contains(t) {
            let k = choose|k: int| 0 <= k < new_v.len() && new_v[k] == t;
            if k < p {
                assert(old_v[k] == t);
            } else if k > p {
                assert(old_v[k - 1] == t);
            }
        }
        if old_v.contains(t) {
            let k = choose|k: int| 0 <= k < old_v.len() && old_v[k] == t;
            if k < p {
                assert(new_v[k] == t);
            } else {
                assert(new_v[k + 1] == t);
            }
        }
        if t == xv {
            assert(new_v[p as int] == t);
        }
    }
}

/// Whether `t` is the tag at some position `(a, b)` before `(i, j)` in the
/// books' tag lists read in order.
pub open spec fn tag_before(books: Seq<Book>, i: int, j: int, t: Seq<char>) -> bool {
    exists|a: int, b: int|
        0 <= a < books.len() && 0 <= b < books[a].tags@.len() && (a < i || (a == i && b < j))
            && #[trigger] books[a].tags@[b]@ == t
}

/// Whether some book carries the tag `t`.
pub open spec fn has_tag(books: Seq<Book>, t: Seq<char>) -> bool {
    tag_before(books, books.len() as int, 0, t)
}

/// All tags of the books, each once, in order.
pub fn known_tags(books: &[Book]) -> (r: Vec<String>)
    ensures
        strictly_sorted(views(r@)),
        forall|t: Seq<char>| views(r@).contains(t) <==> has_tag(books@, t),
{
    let mut out: Vec<Vec<char>> = Vec::new();
    let mut i: usize = 0;
    while i < books.len()
        invariant
            i <= books.len(),
            strictly_sorted(char_views(out@)),
            forall|t: Seq<char>| char_views(out@).contains(t) <==> tag_before(books@, i as int, 0, t),
        decreases books.len() - i,
    {
        let tags = &books[i].tags;
        let mut j: usize = 0;
        while j < tags.len()
            invariant
                i < books.len(),
                j <= tags.len(),
                tags@ == books@[i as int].tags@,
                strictly_sorted(char_views(out@)),
                forall|t: Seq<char>|
                    char_views(out@).contains(t) <==> tag_before(books@, i as int, j as int, t),
            decreases tags.len() - j,
        {
            let ghost before = char_views(out@);
            let x = to_chars(tags[j].as_str());
            insert_sorted(&mut out, x);
            assert forall|t: Seq<char>|
                char_views(out@).contains(t) <==> tag_before(books@, i as int, j + 1, t) by {
                if tag_before(books@, i as int, j + 1, t) {
                    let (a, b) = choose|a: int, b: int|
                        0 <= a < books@.len() && 0 <= b < books@[a].tags@.len() && (a < i || (a
                            == i && b < j + 1)) && #[trigger] books@[a].tags@[b]@ == t;
                    if !(a == i && b == j) {
                        assert(tag_before(books@, i as int, j as int, t));
                    }
                }
                if tag_before(books@, i as int, j as int, t) {
                    let (a, b) = choose|a: int, b: int|
                        0 <= a < books@.len() && 0 <= b < books@[a].tags@.len() && (a < i || (a
                            == i && b < j)) && #[trigger] books@[a].tags@[b]@ == t;
                    assert(tag_before(books@, i as int, j + 1, t));
                }
                if t == tags@[j as int]@ {
                    assert(books@[i as int].tags@[j as int]@ == t);
                    assert(tag_before(books@, i as int, j + 1, t));
                }
            }
            j = j + 1;
        }
        assert forall|t: Seq<char>|
            tag_before(books@, i as int, tags.len() as int, t) <==> tag_before(
                books@,
                i + 1,
                0,
                t,
            ) by {
            if tag_before(books@, i + 1, 0, t) {
                let (a, b) = choose|a: int, b: int|
                    0 <= a < books@.len() && 0 <= b < books@[a].tags@.len() && (a < i + 1 || (a
                        == i + 1 && b < 0)) && #[trigger] books@[a].tags@[b]@ == t;
                assert(tag_before(books@, i as int, tags.len() as int, t));
            }
            if tag_before(books@, i as int, tags.len() as int, t) {
                let (a, b) = choose|a: int, b: int|
                    0 <= a < books@.len() && 0 <= b < books@[a].tags@.len() && (a < i || (a == i
                        && b < tags.len())) && #[trigger] books@[a].tags@[b]@ == t;
                assert(tag_before(books@, i + 1, 0, t));
            }
        }
        i = i + 1;
    }
    let mut r: Vec<String> = Vec::new();
    let mut k: usize = 0;
    while k < out.len()
        invariant
            k <= out.len(),
            views(r@) == char_views(out@).take(k as int),
        decreases out.len() - k,
    {
        let ghost before = views(r@);
        r.push(string_of(&out[k]));
        assert(views(r@) =~= before.push(out@[k as int]@));
        assert(char_views(out@).take(k + 1) =~= char_views(out@).take(k as int).push(
            out@[k as int]@,
        ));
        k = k + 1;
    }
    assert(char_views(out@).take(out.len() as int) =~= char_views(out@));
    r
}

/// The tags that match a query: all of them for a blank query, else those
/// whose lowercase form contains the lowercase query.
pub open spec fn tags_matching(tags: Seq<Seq<char>>, query: Seq<char>) -> Seq<Seq<char>>
    decreases tags.len(),
{
    if tags.len() == 0 {
        seq![]
    } else {
        let rest = tags_matching(tags.drop_last(), query);
        if contains_sub(lowercase(tags.last()), lowercase(query)) {
            rest.push(tags.last())
        } else {
            rest
        }
    }
}

/// Lowercase substring filter over tags; a blank query keeps them all.
pub fn filter_tags(tags: &[String], query: &str) -> (r: Vec<String>)
    ensures
        views(r@) == (if trim(query@).len() == 0 {
            views(tags@)
        } else {
            tags_matching(views(tags@), query@)
        }),
{
    let blank = str_is_blank(query);
    let q = to_chars(to_lowercase(query).as_str());
    let mut r: Vec<String> = Vec::new();
    let mut i: usize = 0;
    while i < tags.len()
        invariant
            i <= tags.len(),
            blank == (trim(query@).len() == 0),
            q@ == lowercase(query@),
            views(r@) == (if blank {
                views(tags@).take(i as int)
            } else {
                tags_matching(views(tags@).take(i as int), query@)
            }),
        decreases tags.len() - i,
    {
        let ghost before = views(r@);
        assert(views(tags@).take(i + 1).drop_last() =~= views(tags@).take(i as int));
        assert(views(tags@).take(i + 1).last() == tags@[i as int]@);
        if blank {
            r.push(tags[i].clone());
            assert(views(r@) =~= before.push(tags@[i as int]@));
        } else {
            let t = to_chars(to_lowercase(tags[i].as_str()).as_str());
            if contains_chars(&t, &q) {
                r.push(tags[i].clone());
                assert(views(r@) =~= before.push(tags@[i as int]@));
            }
        }
        i = i + 1;
    }
    assert(views(tags@).take(tags.len() as int) =~= views(tags@));
    r
}


/// The row of a filter's status among `[any, Reading, Paused, Dropped,
/// Completed]`.
pub open spec fn filter_status_cursor(f: BookFilter) -> usize {
    match f.status {
        None => 0usize,
        Some(BookStatus::Reading) => 1usize,
        Some(BookStatus::Paused) => 2usize,
        Some(BookStatus::Dropped) => 3usize,
        Some(BookStatus::Completed) => 4usize,
    }
}

/// The row of a filter's library among `[any, backends...]`.
pub open spec fn filter_library_cursor(f: BookFilter, names: Seq<Seq<char>>) -> int {
    match f.library {
        None => 0,
        Some(name) => match position_of(names, name@) {
            Some(k) => k + 1,
            None => 0,
        },
    }
}

/// What the library list is narrowed to. An empty name, no tags, no status
/// and no library mean no constraint.
#[derive(Debug, Clone, PartialEq)]
pub struct BookFilter {
    pub name: String,
    /// Any one of these tags matches.
    pub tags: Vec<String>,
    pub status: Option<BookStatus>,
    /// The backend the books come from; `None` is the primary one.
    pub library: Option<String>,
}

impl Default for BookFilter {
    fn default() -> (r: Self)
        ensures
            r.name@.len() == 0,
            r.tags@.len() == 0,
            r.status is None,
            r.library is None,
    {
        BookFilter { name: String::new(), tags: Vec::new(), status: None, library: None }
    }
}

/// Whether the filter constrains nothing (a name of whitespace is none).
pub open spec fn filter_is_empty(f: BookFilter) -> bool {
    trim(f.name@).len() == 0 && f.tags@.len() == 0 && f.status is None && f.library is None
}

/// The pieces a filter is described by, in order: the quoted name, the
/// tags each after `#`, the status and the library after `@`.
pub open spec fn filter_segments(f: BookFilter) -> Seq<Seq<char>> {
    let name_seg: Seq<Seq<char>> = if trim(f.name@).len() == 0 {
        seq![]
    } else {
        seq![seq!['"'] + f.name@ + seq!['"']]
    };
    let tag_seg: Seq<Seq<char>> = if f.tags@.len() == 0 {
        seq![]
    } else {
        seq![join(views(f.tags@).map_values(|t: Seq<char>| seq!['#'] + t), seq![' '])]
    };
    let status_seg: Seq<Seq<char>> = match f.status {
        Some(s) => seq![status_name(s)],
        None => seq![],
    };
    let lib_seg: Seq<Seq<char>> = match f.library {
        Some(l) => seq![seq!['@'] + l@],
        None => seq![],
    };
    name_seg + tag_seg + status_seg + lib_seg
}

/// How a filter reads: `All`, or its pieces joined by `" · "`.
pub open spec fn filter_text(f: BookFilter) -> Seq<char> {
    if filter_is_empty(f) {
        "All"@
    } else {
        join(filter_segments(f), " · "@)
    }
}

/// The first position of `x` in `s`, if any.
pub open spec fn position_of(s: Seq<Seq<char>>, x: Seq<char>) -> Option<int>
    decreases s.len(),
{
    if s.len() == 0 {
        None
    } else {
        match position_of(s.drop_last(), x) {
            Some(k) => Some(k),
            None => if s.last() == x {
                Some(s.len() - 1)
            } else {
                None
            },
        }
    }
}

/// Where `x` first stands in `v`, if anywhere.
fn find_string(v: &[String], x: &str) -> (r: Option<usize>)
    ensures
        match r {
            Some(k) => position_of(views(v@), x@) == Some(k as int) && k < v@.len() && k < usize::MAX,
            None => position_of(views(v@), x@) is None,
        },
{
    let mut i: usize = 0;
    while i < v.len()
        invariant
            i <= v.len(),
            position_of(views(v@).take(i as int), x@) is None,
        decreases v.len() - i,
    {
        assert(views(v@).take(i + 1).drop_last() =~= views(v@).take(i as int));
        assert(views(v@).take(i + 1).last() == v@[i as int]@);
        if str_eq(v[i].as_str(), x) {
            proof {
                lemma_position_prefix(views(v@), x@, i as int + 1);
            }
            return Some(i);
        }
        i = i + 1;
    }
    assert(views(v@).take(v.len() as int) =~= views(v@));
    None
}

pub(crate) proof fn lemma_position_prefix(s: Seq<Seq<char>>, x: Seq<char>, n: int)
    requires
        0 <= n <= s.len(),
        position_of(s.take(n), x) is Some,
    ensures
        position_of(s, x) == position_of(s.take(n), x),
    decreases s.len() - n,
{
    if n < s.len() {
        assert(s.take(n + 1).drop_last() =~= s.take(n));
        lemma_position_prefix(s, x, n + 1);
    } else {
        assert(s.take(n) =~= s);
    }
}

/// Whether `v` holds a text equal to `x`.
fn has_string(v: &Vec<String>, x: &str) -> (r: bool)
    ensures
        r == views(v@).contains(x@),
{
    let mut i: usize = 0;
    while i < v.len()
        invariant
            i <= v.len(),
            forall|k: int| 0 <= k < i ==> v@[k]@ != x@,
        decreases v.len() - i,
    {
        if str_eq(v[i].as_str(), x) {
            assert(views(v@)[i as int] == x@);
            return true;
        }
        i = i + 1;
    }
    assert(!views(v@).contains(x@)) by {
        if views(v@).contains(x@) {
            let k = choose|k: int| 0 <= k < views(v@).len() && views(v@)[k] == x@;
            assert(v@[k]@ == x@);
        }
    }
    false
}

impl BookFilter {
    /// Whether the filter constrains nothing.
    pub fn is_empty(&self) -> (r: bool)
        ensures
            r == filter_is_empty(*self),
    {
        str_is_blank(self.name.as_str()) && self.tags.len() == 0 && self.status.is_none()
            && self.library.is_none()
    }

    /// The position of the status among the choices `[None, Reading,
    /// Paused, Dropped, Completed]`.
    pub fn status_cursor(&self) -> (r: usize)
        ensures
            r == filter_status_cursor(*self),
    {
        match &self.status {
            None => 0,
            Some(BookStatus::Reading) => 1,
            Some(BookStatus::Paused) => 2,
            Some(BookStatus::Dropped) => 3,
            Some(BookStatus::Completed) => 4,
        }
    }

    /// The position of the library among the choices `[None, names...]`;
    /// an unknown library counts as `None`.
    pub fn library_cursor(&self, backend_names: &[String]) -> (r: usize)
        ensures
            r == filter_library_cursor(*self, views(backend_names@)),
    {
        match &self.library {
            None => 0,
            Some(name) => match find_string(backend_names, name.as_str()) {
                Some(k) => k + 1,
                None => 0,
            },
        }
    }

    /// How the filter reads in the status line.
    pub fn to_string(&self) -> (r: String)
        ensures
            r@ == filter_text(*self),
    {
        if self.is_empty() {
            return "All".to_string();
        }
        let mut segments: Vec<String> = Vec::new();
        let ghost mut segs: Seq<Seq<char>> = seq![];
        if !str_is_blank(self.name.as_str()) {
            let mut seg = String::new();
            push_char(&mut seg, '"');
            push_str(&mut seg, self.name.as_str());
            push_char(&mut seg, '"');
            assert(seg@ =~= seq!['"'] + self.name@ + seq!['"']);
            segments.push(seg);
            proof {
                segs = seq![seq!['"'] + self.name@ + seq!['"']];
            }
        }
        assert(views(segments@) =~= segs);
        if self.tags.len() > 0 {
            let mut hashed: Vec<String> = Vec::new();
            let mut i: usize = 0;
            while i < self.tags.len()
                invariant
                    i <= self.tags.len(),
                    views(hashed@) == views(self.tags@).take(i as int).map_values(
                        |t: Seq<char>| seq!['#'] + t,
                    ),
                decreases self.tags.len() - i,
            {
                let mut t = String::new();
                push_char(&mut t, '#');
                push_str(&mut t, self.tags[i].as_str());
                assert(t@ =~= seq!['#'] + self.tags@[i as int]@);
                let ghost before = views(hashed@);
                hashed.push(t);
                assert(views(hashed@) =~= before.push(seq!['#'] + self.tags@[i as int]@));
                assert(views(self.tags@).take(i + 1).map_values(|t: Seq<char>| seq!['#'] + t)
                    =~= views(self.tags@).take(i as int).map_values(|t: Seq<char>| seq!['#'] + t).push(
                    seq!['#'] + self.tags@[i as int]@,
                ));
                i = i + 1;
            }
            assert(views(self.tags@).take(self.tags.len() as int) =~= views(self.tags@));
            let ghost before = views(segments@);
            segments.push(join_strings(&hashed, " "));
            proof {
                reveal_strlit(" ");
                assert(" "@ =~= seq![' ']);
                segs = segs + seq![
                    join(views(self.tags@).map_values(|t: Seq<char>| seq!['#'] + t), seq![' ']),
                ];
            }
            assert(views(segments@) =~= segs);
        }
        match &self.status {
            Some(st) => {
                segments.push(status_str(st).to_string());
                proof {
                    segs = segs + seq![status_name(*st)];
                }
            },
            None => {},
        }
        assert(views(segments@) =~= segs);
        match &self.library {
            Some(l) => {
                let mut seg = String::new();
                push_char(&mut seg, '@');
                push_str(&mut seg, l.as_str());
                assert(seg@ =~= seq!['@'] + l@);
                segments.push(seg);
                proof {
                    segs = segs + seq![seq!['@'] + l@];
                }
            },
            None => {},
        }
        assert(views(segments@) =~= segs);
        assert(segs =~= filter_segments(*self));
        join_strings(&segments, " · ")
    }
}


/// A chapter an AI search found. `score` is an order key: a higher key is a
/// better match.
#[derive(Debug, PartialEq)]
pub struct AiChapter {
    pub chapter_url: String,
    pub chapter_idx: usize,
    pub chapter_title: String,
    pub score: u32,
    pub snippet: String,
}

/// A book an AI search ranked, with its best chapters.
#[derive(Debug, Clone, PartialEq)]
pub struct AiBook {
    pub book_url: String,
    pub book_title: String,
    pub score: u32,
    pub genres: Vec<String>,
    pub chapters: Vec<AiChapter>,
}

/// The ranked books of an AI search and how much of the library is
/// embedded.
#[derive(Debug, Clone, PartialEq)]
pub struct AiSearchResults {
    pub embedded: usize,
    pub total: usize,
    pub books: Vec<AiBook>,
}

/// What the search service answered.
#[derive(Debug, Clone, PartialEq)]
#[allow(inconsistent_fields)]
pub enum SearchOutcome {
    ChapterMode { hits: Vec<AiChapter>, embedded: usize, total: usize },
    BookMode { hits: Vec<AiBook>, embedded: usize, total: usize },
    NoEmbeddings { total: usize },
}

/// Where an AI search stands.
#[derive(Debug, Clone, PartialEq)]
pub enum SearchStatus {
    Loading,
    Ready,
    Empty,
    NoEmbeddings { total: usize },
    Error(String),
}

/// A row of the AI results: a book, or one of its chapters.
#[derive(Debug, Clone, Copy, PartialEq, Eq, Structural)]
pub enum AiRow {
    Book { book_index: usize },
    Chapter { book_index: usize, chapter_index: usize },
}

/// An AI search in progress or done: the library is ranked by it until it
/// is cleared.
#[derive(Debug, Clone, PartialEq)]
pub struct AiSession {
    pub query: String,
    pub status: SearchStatus,
    pub results: AiSearchResults,
    /// Book rows, or book rows each followed by its chapter rows.
    pub book_mode: bool,
    pub cursor: usize,
    /// Only books carrying this genre are shown.
    pub genre: Option<String>,
}

/// Whether a ranked book passes the genre facet.
pub open spec fn passes_genre(b: AiBook, genre: Option<String>) -> bool {
    match genre {
        None => true,
        Some(g) => views(b.genres@).contains(g@),
    }
}

/// The positions among the first `n` ranked books that pass the facet.
pub open spec fn visible_prefix(books: Seq<AiBook>, genre: Option<String>, n: int) -> Seq<usize>
    decreases n,
{
    if n <= 0 {
        seq![]
    } else if passes_genre(books[n - 1], genre) {
        visible_prefix(books, genre, n - 1).push((n - 1) as usize)
    } else {
        visible_prefix(books, genre, n - 1)
    }
}

/// The ranked books the session shows, by position.
pub open spec fn visible_books(ai: AiSession) -> Seq<usize> {
    visible_prefix(ai.results.books@, ai.genre, ai.results.books@.len() as int)
}

/// The chapter rows of book `bi`, which has `n` chapters.
pub open spec fn chapter_rows(bi: usize, n: nat) -> Seq<AiRow> {
    Seq::new(n, |ci: int| AiRow::Chapter { book_index: bi, chapter_index: ci as usize })
}

/// Each book's row followed by its chapters' rows.
pub open spec fn grouped_rows(books: Seq<AiBook>, vis: Seq<usize>) -> Seq<AiRow>
    decreases vis.len(),
{
    if vis.len() == 0 {
        seq![]
    } else {
        let bi = vis.last();
        grouped_rows(books, vis.drop_last()) + seq![AiRow::Book { book_index: bi }] + chapter_rows(
            bi,
            books[bi as int].chapters@.len(),
        )
    }
}

/// The rows the session shows.
pub open spec fn session_rows(ai: AiSession) -> Seq<AiRow> {
    if ai.book_mode {
        visible_books(ai).map_values(|bi: usize| AiRow::Book { book_index: bi })
    } else {
        grouped_rows(ai.results.books@, visible_books(ai))
    }
}

/// The book a row belongs to.
pub open spec fn row_book(r: AiRow) -> usize {
    match r {
        AiRow::Book { book_index } => book_index,
        AiRow::Chapter { book_index, .. } => book_index,
    }
}

proof fn lemma_visible_prefix(books: Seq<AiBook>, genre: Option<String>, n: int)
    requires
        n <= books.len(),
        books.len() <= usize::MAX,
    ensures
        forall|k: int|
            0 <= k < visible_prefix(books, genre, n).len() ==> #[trigger] visible_prefix(
                books,
                genre,
                n,
            )[k] < n,
        forall|k: int, l: int|
            0 <= k < l < visible_prefix(books, genre, n).len() ==> #[trigger] visible_prefix(
                books,
                genre,
                n,
            )[k] < #[trigger] visible_prefix(books, genre, n)[l],
    decreases n,
{
    if n > 0 {
        lemma_visible_prefix(books, genre, n - 1);
        let p = visible_prefix(books, genre, n - 1);
        if passes_genre(books[n - 1], genre) {
            assert(((n - 1) as usize) == n - 1);
            assert(visible_prefix(books, genre, n) == p.push((n - 1) as usize));
            assert forall|k: int, l: int|
                0 <= k < l < visible_prefix(books, genre, n).len() implies #[trigger] visible_prefix(
                books,
                genre,
                n,
            )[k] < #[trigger] visible_prefix(books, genre, n)[l] by {
                if l < p.len() {
                    assert(p[k] < p[l]);
                } else {
                    assert(p[k] < n - 1);
                }
            }
        }
    }
}

proof fn lemma_grouped_rows(books: Seq<AiBook>, vis: Seq<usize>)
    requires
        forall|k: int| 0 <= k < vis.len() ==> (#[trigger] vis[k]) < books.len(),
    ensures
        forall|k: int|
            0 <= k < grouped_rows(books, vis).len() ==> row_book(
                #[trigger] grouped_rows(books, vis)[k],
            ) < books.len(),
    decreases vis.len(),
{
    if vis.len() > 0 {
        lemma_grouped_rows(books, vis.drop_last());
        let bi = vis.last();
        let g = grouped_rows(books, vis.drop_last());
        let c = chapter_rows(bi, books[bi as int].chapters@.len());
        assert forall|k: int| 0 <= k < grouped_rows(books, vis).len() implies row_book(
            #[trigger] grouped_rows(books, vis)[k],
        ) < books.len() by {
            if k < g.len() {
                assert(grouped_rows(books, vis)[k] == g[k]);
            } else if k == g.len() {
            } else {
                assert(grouped_rows(books, vis)[k] == c[k - g.len() - 1]);
            }
        }
    }
}

/// Every row of the session belongs to one of its ranked books.
pub proof fn lemma_rows_in_range(ai: AiSession)
    requires
        ai.results.books@.len() <= usize::MAX,
    ensures
        forall|k: int|
            0 <= k < session_rows(ai).len() ==> row_book(#[trigger] session_rows(ai)[k])
                < ai.results.books@.len(),
        forall|k: int|
            0 <= k < visible_books(ai).len() ==> #[trigger] visible_books(ai)[k]
                < ai.results.books@.len(),
{
    lemma_visible_prefix(ai.results.books@, ai.genre, ai.results.books@.len() as int);
    lemma_grouped_rows(ai.results.books@, visible_books(ai));
}

impl AiSession {
    /// The positions of the ranked books that pass the genre facet.
    pub fn visible_book_indices(&self) -> (r: Vec<usize>)
        ensures
            r@ == visible_books(*self),
    {
        let mut r: Vec<usize> = Vec::new();
        let mut i: usize = 0;
        while i < self.results.books.len()
            invariant
                i <= self.results.books.len(),
                r@ == visible_prefix(self.results.books@, self.genre, i as int),
            decreases self.results.books.len() - i,
        {
            let pass = match &self.genre {
                None => true,
                Some(g) => has_string(&self.results.books[i].genres, g.as_str()),
            };
            if pass {
                r.push(i);
            }
            i = i + 1;
        }
        r
    }

    /// The number of books the facet lets through.
    pub fn visible_book_count(&self) -> (r: usize)
        ensures
            r == visible_books(*self).len(),
    {
        self.visible_book_indices().len()
    }

    /// The rows shown: the visible books, each followed by its chapters
    /// unless in book mode.
    pub fn rows(&self) -> (r: Vec<AiRow>)
        ensures
            r@ == session_rows(*self),
    {
        let books = self.visible_book_indices();
        let nb = self.results.books.len();
        proof {
            lemma_rows_in_range(*self);
        }
        let mut r: Vec<AiRow> = Vec::new();
        let mut i: usize = 0;
        while i < books.len()
            invariant
                i <= books.len(),
                books@ == visible_books(*self),
                forall|k: int| 0 <= k < books@.len() ==> #[trigger] books@[k]
                    < self.results.books@.len(),
                r@ == (if self.book_mode {
                    books@.take(i as int).map_values(|bi: usize| AiRow::Book { book_index: bi })
                } else {
                    grouped_rows(self.results.books@, books@.take(i as int))
                }),
            decreases books.len() - i,
        {
            let bi = books[i];
            let ghost before = r@;
            assert(books@.take(i + 1).drop_last() =~= books@.take(i as int));
            assert(books@.take(i + 1).last() == bi);
            r.push(AiRow::Book { book_index: bi });
            if self.book_mode {
                assert(r@ =~= books@.take(i + 1).map_values(
                    |bi: usize| AiRow::Book { book_index: bi },
                ));
            } else {
                let n = self.results.books[bi].chapters.len();
                let mut ci: usize = 0;
                while ci < n
                    invariant
                        ci <= n,
                        n == self.results.books@[bi as int].chapters@.len(),
                        r@ == before + seq![AiRow::Book { book_index: bi }] + chapter_rows(
                            bi,
                            ci as nat,
                        ),
                    decreases n - ci,
                {
                    r.push(AiRow::Chapter { book_index: bi, chapter_index: ci });
                    assert(chapter_rows(bi, (ci + 1) as nat) =~= chapter_rows(bi, ci as nat).push(
                        AiRow::Chapter { book_index: bi, chapter_index: ci },
                    ));
                    ci = ci + 1;
                }
                assert(r@ =~= grouped_rows(self.results.books@, books@.take(i + 1)));
            }
            i = i + 1;
        }
        assert(books@.take(books.len() as int) =~= books@);
        r
    }
}


/// Whether some ranked book carries the genre `t`.
pub open spec fn some_book_has_genre(books: Seq<AiBook>, t: Seq<char>) -> bool {
    exists|a: int, b: int|
        0 <= a < books.len() && 0 <= b < books[a].genres@.len() && #[trigger] books[a].genres@[b]@
            == t
}

/// Adds each text of `items` to a strictly sorted list.
fn add_all_sorted(start: Vec<Vec<char>>, items: &Vec<String>) -> (out: Vec<Vec<char>>)
    requires
        strictly_sorted(char_views(start@)),
    ensures
        strictly_sorted(char_views(out@)),
        forall|t: Seq<char>|
            char_views(out@).contains(t) <==> (char_views(start@).contains(t) || views(
                items@,
            ).contains(t)),
{
    let ghost s0 = char_views(start@);
    let mut out = start;
    let mut j: usize = 0;
    while j < items.len()
        invariant
            j <= items.len(),
            strictly_sorted(char_views(out@)),
            forall|t: Seq<char>|
                #[trigger] char_views(out@).contains(t) <==> (s0.contains(t) || views(items@).take(
                    j as int,
                ).contains(t)),
        decreases items.len() - j,
    {
        let x = to_chars(items[j].as_str());
        let ghost before = char_views(out@);
        insert_sorted(&mut out, x);
        assert forall|t: Seq<char>|
            views(items@).take(j + 1).contains(t) <==> (views(items@).take(j as int).contains(t)
                || t == items@[j as int]@) by {
            if views(items@).take(j + 1).contains(t) {
                let k = choose|k: int| 0 <= k < j + 1 && #[trigger] views(items@).take(j + 1)[k] == t;
                if k < j {
                    assert(views(items@).take(j as int)[k] == t);
                }
            }
            if views(items@).take(j as int).contains(t) {
                let k = choose|k: int| 0 <= k < j && #[trigger] views(items@).take(j as int)[k] == t;
                assert(views(items@).take(j + 1)[k] == t);
            }
            if t == items@[j as int]@ {
                assert(views(items@).take(j + 1)[j as int] == t);
            }
        }
        assert forall|t: Seq<char>|
            char_views(out@).contains(t) <==> (s0.contains(t) || views(items@).take(
                j + 1,
            ).contains(t)) by {
            assert(char_views(out@).contains(t) <==> (before.contains(t) || t == items@[j as int]@));
            assert(before.contains(t) <==> (s0.contains(t) || views(items@).take(j as int).contains(t)));
        }
        j = j + 1;
    }
    assert(views(items@).take(items.len() as int) =~= views(items@));
    out
}

/// The texts of a character list, as strings.
fn to_strings(v: &Vec<Vec<char>>) -> (r: Vec<String>)
    ensures
        views(r@) == char_views(v@),
{
    let mut r: Vec<String> = Vec::new();
    let mut k: usize = 0;
    while k < v.len()
        invariant
            k <= v.len(),
            views(r@) == char_views(v@).take(k as int),
        decreases v.len() - k,
    {
        let ghost before = views(r@);
        r.push(string_of(&v[k]));
        assert(views(r@) =~= before.push(v@[k as int]@));
        assert(char_views(v@).take(k + 1) =~= char_views(v@).take(k as int).push(v@[k as int]@));
        k = k + 1;
    }
    assert(char_views(v@).take(v.len() as int) =~= char_views(v@));
    r
}

/// Where the genre facet goes from `genre` when moved by `dir` through the
/// cycle none, `gs[0]`, ..., `gs[n - 1]`, none (a genre not in `gs` counts
/// as none): the position in that cycle, 0 for none.
pub open spec fn genre_step(gs: Seq<Seq<char>>, genre: Option<String>, dir: int) -> int {
    let current: int = match genre {
        None => 0,
        Some(g) => match position_of(gs, g@) {
            Some(k) => k + 1,
            None => 0,
        },
    };
    (current + dir) % (gs.len() + 1) as int
}

/// The text of an optional string.
pub open spec fn opt_view(o: Option<String>) -> Option<Seq<char>> {
    match o {
        Some(s) => Some(s@),
        None => None,
    }
}

/// The genre the facet shows after the step: none at position 0, else the
/// genre at that position.
pub open spec fn genre_after(gs: Seq<Seq<char>>, genre: Option<String>, dir: int) -> Option<
    Seq<char>,
> {
    let p = genre_step(gs, genre, dir);
    if p == 0 {
        None
    } else {
        Some(gs[p - 1])
    }
}

/// `(current + dir) mod m`, Euclidean, for `current < m`.
fn cycle_position(current: usize, dir: i32, m: u128) -> (r: usize)
    requires
        current < m,
        m <= usize::MAX + 1,
    ensures
        r == (current + dir) % (m as int),
{
    let c = current as u128;
    if dir >= 0 {
        let x = c + dir as u128;
        let r = x % m;
        r as usize
    } else {
        let neg = (0i64 - dir as i64) as u128;
        if neg <= c {
            ((c - neg) % m) as usize
        } else {
            let y = (neg - c) % m;
            proof {
                let xi = current + dir;
                let mi = m as int;
                let yi = y as int;
                vstd::arithmetic::div_mod::lemma_fundamental_div_mod(-xi, mi);
                let q1 = (-xi) / mi;
                assert(yi == (-xi) % mi);
                assert(-xi == mi * q1 + yi);
                if yi == 0 {
                    assert(xi == (-q1) * mi + 0) by (nonlinear_arith)
                        requires
                            -xi == mi * q1 + yi,
                            yi == 0,
                    ;
                    vstd::arithmetic::div_mod::lemma_fundamental_div_mod_converse(xi, mi, -q1, 0);
                } else {
                    assert(xi == (-q1 - 1) * mi + (mi - yi)) by (nonlinear_arith)
                        requires
                            -xi == mi * q1 + yi,
                    ;
                    vstd::arithmetic::div_mod::lemma_fundamental_div_mod_converse(
                        xi,
                        mi,
                        -q1 - 1,
                        mi - yi,
                    );
                }
            }
            if y == 0 {
                0
            } else {
                (m - y) as usize
            }
        }
    }
}

/// The AI session after moving its genre facet by `dir` (see
/// `AiSession::cycle_genre`): over the sorted genres of its books, the
/// facet takes the genre `genre_after` gives and the cursor goes to the
/// top; without genres the facet is cleared. Nothing else changes.
pub open spec fn genre_cycled(o: AiSession, n: AiSession, dir: int) -> bool {
    &&& exists|gs: Seq<Seq<char>>|
        {
            &&& strictly_sorted(gs)
            &&& forall|t: Seq<char>| gs.contains(t) <==> some_book_has_genre(o.results.books@, t)
            &&& if gs.len() == 0 {
                n.genre is None && n.cursor == o.cursor
            } else {
                n.cursor == 0 && opt_view(n.genre) == genre_after(gs, o.genre, dir)
            }
        }
    &&& n.query == o.query
    &&& n.status == o.status
    &&& n.results == o.results
    &&& n.book_mode == o.book_mode
}

impl AiSession {
    /// The distinct genres of the ranked books, sorted.
    pub fn available_genres(&self) -> (r: Vec<String>)
        ensures
            strictly_sorted(views(r@)),
            forall|t: Seq<char>|
                views(r@).contains(t) <==> some_book_has_genre(self.results.books@, t),
    {
        let mut out: Vec<Vec<char>> = Vec::new();
        let mut i: usize = 0;
        while i < self.results.books.len()
            invariant
                i <= self.results.books.len(),
                strictly_sorted(char_views(out@)),
                forall|t: Seq<char>|
                    char_views(out@).contains(t) <==> some_book_has_genre(
                        self.results.books@.take(i as int),
                        t,
                    ),
            decreases self.results.books.len() - i,
        {
            let ghost bs = self.results.books@;
            let ghost before = char_views(out@);
            out = add_all_sorted(out, &self.results.books[i].genres);
            assert forall|t: Seq<char>|
                some_book_has_genre(bs.take(i + 1), t) <==> (some_book_has_genre(
                    bs.take(i as int),
                    t,
                ) || views(bs[i as int].genres@).contains(t)) by {
                if some_book_has_genre(bs.take(i + 1), t) {
                    let (a, b) = choose|a: int, b: int|
                        0 <= a < bs.take(i + 1).len() && 0 <= b < bs.take(i + 1)[a].genres@.len()
                            && #[trigger] bs.take(i + 1)[a].genres@[b]@ == t;
                    if a < i {
                        assert(bs.take(i as int)[a] == bs[a]);
                    } else {
                        assert(views(bs[i as int].genres@)[b] == t);
                    }
                }
                if some_book_has_genre(bs.take(i as int), t) {
                    let (a, b) = choose|a: int, b: int|
                        0 <= a < bs.take(i as int).len() && 0 <= b < bs.take(
                            i as int,
                        )[a].genres@.len() && #[trigger] bs.take(i as int)[a].genres@[b]@ == t;
                    assert(bs.take(i + 1)[a] == bs[a]);
                    assert(bs.take(i + 1)[a].genres@[b]@ == t);
                }
                if views(bs[i as int].genres@).contains(t) {
                    let b = choose|b: int|
                        0 <= b < views(bs[i as int].genres@).len() && views(
                            bs[i as int].genres@,
                        )[b] == t;
                    assert(bs.take(i + 1)[i as int] == bs[i as int]);
                    assert(bs.take(i + 1)[i as int].genres@[b]@ == t);
                }
            }
            i = i + 1;
        }
        assert(self.results.books@.take(self.results.books.len() as int)
            =~= self.results.books@);
        to_strings(&out)
    }

    /// Moves the genre facet one step per unit of `dir` through none and the
    /// sorted genres, wrapping; the cursor goes back to the top. Without
    /// genres the facet is cleared and nothing else changes.
    pub fn cycle_genre(&mut self, dir: i32)
        ensures
            genre_cycled(*old(self), *final(self), dir as int),
    {
        let genres = self.available_genres();
        let ghost gs = views(genres@);
        if genres.len() == 0 {
            self.genre = None;
            return;
        }
        let current: usize = match &self.genre {
            None => 0,
            Some(g) => match find_string(genres.as_slice(), g.as_str()) {
                Some(k) => k + 1,
                None => 0,
            },
        };
        assert(current <= genres.len());
        let m: u128 = genres.len() as u128 + 1;
        let next = cycle_position(current, dir, m);
        proof {
            lemma_position_bound(gs, self.genre);
        }
        assert(next == genre_step(gs, self.genre, dir as int));
        if next == 0 {
            self.genre = None;
        } else {
            assert(0 <= next - 1 < genres.len()) by {
                vstd::arithmetic::div_mod::lemma_mod_bound(current + dir, m as int);
            }
            self.genre = Some(genres[next - 1].clone());
        }
        self.cursor = 0;
    }
}

/// In a strictly sorted list each text stands first at its own position.
proof fn lemma_sorted_position(s: Seq<Seq<char>>, k: int)
    requires
        strictly_sorted(s),
        0 <= k < s.len(),
    ensures
        position_of(s, s[k]) == Some(k),
    decreases s.len(),
{
    let d = s.drop_last();
    assert(strictly_sorted(d)) by {
        assert forall|i: int, j: int| 0 <= i < j < d.len() implies text_lt(#[trigger] d[i], #[trigger] d[j]) by {
            assert(d[i] == s[i] && d[j] == s[j]);
        }
    }
    if k == s.len() - 1 {
        lemma_position_of_bound(d, s[k]);
        if position_of(d, s[k]) is Some {
            let j = position_of(d, s[k])->0;
            assert(d[j] == s[j]);
            assert(text_lt(s[j], s[k]));
            lemma_text_lt_irreflexive(s[k]);
        }
    } else {
        lemma_sorted_position(d, k);
        assert(d[k] == s[k]);
    }
}

/// Two strictly sorted lists of the same texts are the same list.
pub proof fn lemma_sorted_unique(a: Seq<Seq<char>>, b: Seq<Seq<char>>)
    requires
        strictly_sorted(a),
        strictly_sorted(b),
        forall|t: Seq<char>| a.contains(t) <==> b.contains(t),
    ensures
        a == b,
    decreases a.len() + b.len(),
{
    if a.len() == 0 {
        if b.len() > 0 {
            assert(b.contains(b[0]));
        }
        assert(a =~= b);
    } else if b.len() == 0 {
        assert(a.contains(a[0]));
    } else {
        let la = a.last();
        let lb = b.last();
        assert(a.contains(la));
        assert(b.contains(lb));
        let i = choose|i: int| 0 <= i < a.len() && a[i] == lb;
        let j = choose|j: int| 0 <= j < b.len() && b[j] == la;
        if la != lb {
            if i < a.len() - 1 {
                assert(text_lt(a[i], la));
            }
            if j < b.len() - 1 {
                assert(text_lt(b[j], lb));
            }
            lemma_text_lt_irreflexive(la);
            lemma_text_lt_irreflexive(lb);
            if i < a.len() - 1 && j < b.len() - 1 {
                lemma_text_lt_transitive(la, lb, la);
            }
        }
        assert(la == lb);
        let da = a.drop_last();
        let db = b.drop_last();
        assert(strictly_sorted(da)) by {
            assert forall|x: int, y: int| 0 <= x < y < da.len() implies text_lt(#[trigger] da[x], #[trigger] da[y]) by {
                assert(da[x] == a[x] && da[y] == a[y]);
            }
        }
        assert(strictly_sorted(db)) by {
            assert forall|x: int, y: int| 0 <= x < y < db.len() implies text_lt(#[trigger] db[x], #[trigger] db[y]) by {
                assert(db[x] == b[x] && db[y] == b[y]);
            }
        }
        assert forall|t: Seq<char>| da.contains(t) <==> db.contains(t) by {
            if da.contains(t) {
                let x = choose|x: int| 0 <= x < da.len() && da[x] == t;
                assert(a[x] == t && text_lt(a[x], la));
                assert(b.contains(t));
                let y = choose|y: int| 0 <= y < b.len() && b[y] == t;
                lemma_text_lt_irreflexive(t);
                assert(y != b.len() - 1);
                assert(db[y] == t);
            }
            if db.contains(t) {
                let y = choose|y: int| 0 <= y < db.len() && db[y] == t;
                assert(b[y] == t && text_lt(b[y], lb));
                assert(a.contains(t));
                let x = choose|x: int| 0 <= x < a.len() && a[x] == t;
                lemma_text_lt_irreflexive(t);
                assert(x != a.len() - 1);
                assert(da[x] == t);
            }
        }
        lemma_sorted_unique(da, db);
        assert(a =~= da.push(la));
        assert(b =~= db.push(lb));
    }
}

/// Moving the genre facet by `a` and then by `b` ends where moving it by
/// `a + b` does.
pub proof fn lemma_genre_steps_add(gs: Seq<Seq<char>>, g0: Option<String>, g1: Option<String>, a: int, b: int)
    requires
        strictly_sorted(gs),
        opt_view(g1) == genre_after(gs, g0, a),
    ensures
        genre_after(gs, g1, b) == genre_after(gs, g0, a + b),
{
    let m: int = gs.len() + 1int;
    let p1 = genre_step(gs, g0, a);
    vstd::arithmetic::div_mod::lemma_mod_bound(p1, m as int);
    let c0: int = match g0 {
        None => 0,
        Some(g) => match position_of(gs, g@) {
            Some(k) => k + 1,
            None => 0,
        },
    };
    let c1: int = match g1 {
        None => 0,
        Some(g) => match position_of(gs, g@) {
            Some(k) => k + 1,
            None => 0,
        },
    };
    vstd::arithmetic::div_mod::lemma_mod_bound(c0 + a, m as int);
    if p1 > 0 {
        lemma_sorted_position(gs, p1 - 1);
    }
    assert(c1 == p1);
    vstd::arithmetic::div_mod::lemma_add_mod_noop(c0 + a, b, m as int);
    vstd::arithmetic::div_mod::lemma_add_mod_noop(p1, b, m as int);
    vstd::arithmetic::div_mod::lemma_mod_twice(c0 + a, m as int);
    assert((c1 + b) % m == (c0 + a + b) % m);
}

/// The cycle position of a genre of the list (0 for none).
proof fn lemma_genre_home(gs: Seq<Seq<char>>, g0: Option<String>)
    requires
        strictly_sorted(gs),
        g0 is None || gs.contains(g0->0@),
    ensures
        genre_after(gs, g0, 0) == opt_view(g0),
{
    let m: int = gs.len() + 1int;
    match g0 {
        None => {
            vstd::arithmetic::div_mod::lemma_small_mod(0, m as nat);
            assert((0int + 0int) % m == 0);
        },
        Some(g) => {
            let k = choose|k: int| 0 <= k < gs.len() && gs[k] == g@;
            lemma_sorted_position(gs, k);
            vstd::arithmetic::div_mod::lemma_small_mod((k + 1) as nat, m as nat);
        },
    }
}

/// One step forward and one back leaves the genre facet as it was, for a
/// facet that is none or one of the genres.
pub proof fn lemma_genre_back_and_forth(gs: Seq<Seq<char>>, g0: Option<String>, g1: Option<String>)
    requires
        strictly_sorted(gs),
        g0 is None || gs.contains(g0->0@),
        opt_view(g1) == genre_after(gs, g0, 1),
    ensures
        genre_after(gs, g1, -1) == opt_view(g0),
{
    lemma_genre_steps_add(gs, g0, g1, 1, -1);
    lemma_genre_home(gs, g0);
}

/// Moving the genre facet once per genre and once more comes round to
/// where it was; from none, one step forward gives the first genre and one
/// back the last.
pub proof fn lemma_genre_full_cycle(gs: Seq<Seq<char>>, g0: Option<String>)
    requires
        strictly_sorted(gs),
        gs.len() > 0,
        g0 is None || gs.contains(g0->0@),
    ensures
        genre_after(gs, g0, gs.len() + 1int) == opt_view(g0),
        genre_after(gs, None, 1) == Some(gs[0]),
        genre_after(gs, None, -1) == Some(gs[gs.len() - 1]),
{
    let m: int = gs.len() + 1int;
    lemma_genre_home(gs, g0);
    let c0: int = match g0 {
        None => 0,
        Some(g) => match position_of(gs, g@) {
            Some(k) => k + 1,
            None => 0,
        },
    };
    vstd::arithmetic::div_mod::lemma_mod_multiples_vanish(1, c0, m as int);
    vstd::arithmetic::div_mod::lemma_small_mod(1, m as nat);
    assert((0 + -1) % (m as int) == m - 1) by {
        vstd::arithmetic::div_mod::lemma_fundamental_div_mod_converse(-1, m as int, -1, m - 1);
    }
}

/// Moving the genre facet of an AI session one step forward and then one
/// back restores it, for a facet that is none or a genre of its books.
pub proof fn lemma_cycle_genre_round_trip(s0: AiSession, s1: AiSession, s2: AiSession)
    requires
        genre_cycled(s0, s1, 1),
        genre_cycled(s1, s2, -1),
        match s0.genre {
            Some(g) => some_book_has_genre(s0.results.books@, g@),
            None => true,
        },
    ensures
        opt_view(s2.genre) == opt_view(s0.genre),
{
    let ga = choose|gs: Seq<Seq<char>>|
        {
            &&& strictly_sorted(gs)
            &&& forall|t: Seq<char>| gs.contains(t) <==> some_book_has_genre(s0.results.books@, t)
            &&& if gs.len() == 0 {
                s1.genre is None && s1.cursor == s0.cursor
            } else {
                s1.cursor == 0 && opt_view(s1.genre) == genre_after(gs, s0.genre, 1)
            }
        };
    let gb = choose|gs: Seq<Seq<char>>|
        {
            &&& strictly_sorted(gs)
            &&& forall|t: Seq<char>| gs.contains(t) <==> some_book_has_genre(s1.results.books@, t)
            &&& if gs.len() == 0 {
                s2.genre is None && s2.cursor == s1.cursor
            } else {
                s2.cursor == 0 && opt_view(s2.genre) == genre_after(gs, s1.genre, -1)
            }
        };
    lemma_sorted_unique(ga, gb);
    if ga.len() > 0 {
        match s0.genre {
            Some(g) => assert(ga.contains(g@)),
            None => {},
        }
        lemma_genre_back_and_forth(ga, s0.genre, s1.genre);
    } else {
        match s0.genre {
            Some(g) => assert(ga.contains(g@)),
            None => {},
        }
    }
}

/// After `k` forward steps along a chain of AI sessions, the genre facet is
/// where one move by `k` from the first session takes it.
proof fn lemma_genre_chain(ss: Seq<AiSession>, gs: Seq<Seq<char>>, k: int)
    requires
        strictly_sorted(gs),
        gs.len() > 0,
        forall|t: Seq<char>| gs.contains(t) <==> some_book_has_genre(ss[0].results.books@, t),
        ss[0].genre is None || gs.contains(ss[0].genre->0@),
        0 <= k < ss.len(),
        forall|i: int| 0 <= i < ss.len() - 1 ==> genre_cycled(#[trigger] ss[i], ss[i + 1], 1),
    ensures
        ss[k].results == ss[0].results,
        opt_view(ss[k].genre) == genre_after(gs, ss[0].genre, k),
    decreases k,
{
    if k == 0 {
        lemma_genre_home(gs, ss[0].genre);
    } else {
        lemma_genre_chain(ss, gs, k - 1);
        let o = ss[k - 1];
        let n = ss[k];
        assert(genre_cycled(ss[k - 1], ss[k - 1 + 1], 1));
        let g = choose|g: Seq<Seq<char>>|
            {
                &&& strictly_sorted(g)
                &&& forall|t: Seq<char>| g.contains(t) <==> some_book_has_genre(o.results.books@, t)
                &&& if g.len() == 0 {
                    n.genre is None && n.cursor == o.cursor
                } else {
                    n.cursor == 0 && opt_view(n.genre) == genre_after(g, o.genre, 1)
                }
            };
        lemma_sorted_unique(g, gs);
        lemma_genre_steps_add(gs, ss[0].genre, o.genre, k - 1, 1);
    }
}

/// Moving the genre facet of an AI session forward once per genre of its
/// books and once more brings it back to where it was, for a facet that is
/// none or one of those genres; `gs` is the sorted list of those genres.
pub proof fn lemma_cycle_genre_full_round(ss: Seq<AiSession>, gs: Seq<Seq<char>>)
    requires
        strictly_sorted(gs),
        forall|t: Seq<char>| gs.contains(t) <==> some_book_has_genre(ss[0].results.books@, t),
        ss.len() == gs.len() + 2,
        forall|i: int| 0 <= i < ss.len() - 1 ==> genre_cycled(#[trigger] ss[i], ss[i + 1], 1),
        match ss[0].genre {
            Some(g) => some_book_has_genre(ss[0].results.books@, g@),
            None => true,
        },
    ensures
        opt_view(ss[ss.len() - 1].genre) == opt_view(ss[0].genre),
{
    if gs.len() == 0 {
        let o = ss[0];
        let n = ss[1];
        assert(genre_cycled(ss[0int], ss[0int + 1], 1));
        let g = choose|g: Seq<Seq<char>>|
            {
                &&& strictly_sorted(g)
                &&& forall|t: Seq<char>| g.contains(t) <==> some_book_has_genre(o.results.books@, t)
                &&& if g.len() == 0 {
                    n.genre is None && n.cursor == o.cursor
                } else {
                    n.cursor == 0 && opt_view(n.genre) == genre_after(g, o.genre, 1)
                }
            };
        lemma_sorted_unique(g, gs);
        match ss[0].genre {
            Some(x) => assert(gs.contains(x@)),
            None => {},
        }
    } else {
        match ss[0].genre {
            Some(x) => assert(gs.contains(x@)),
            None => {},
        }
        lemma_genre_chain(ss, gs, ss.len() - 1);
        lemma_genre_full_cycle(gs, ss[0].genre);
    }
}

proof fn lemma_position_bound(gs: Seq<Seq<char>>, genre: Option<String>)
    ensures
        match genre {
            Some(g) => match position_of(gs, g@) {
                Some(k) => 0 <= k < gs.len(),
                None => true,
            },
            None => true,
        },
{
    match genre {
        Some(g) => lemma_position_of_bound(gs, g@),
        None => {},
    }
}

pub(crate) proof fn lemma_position_of_bound(s: Seq<Seq<char>>, x: Seq<char>)
    ensures
        match position_of(s, x) {
            Some(k) => 0 <= k < s.len() && s[k] == x,
            None => !s.contains(x),
        },
    decreases s.len(),
{
    if s.len() > 0 {
        lemma_position_of_bound(s.drop_last(), x);
        if position_of(s.drop_last(), x) is None && s.last() != x {
            assert(!s.contains(x)) by {
                if s.contains(x) {
                    let k = choose|k: int| 0 <= k < s.len() && s[k] == x;
                    assert(k < s.len() - 1);
                    assert(s.drop_last()[k] == x);
                }
            }
        }
    }
}


/// Whether a book passes a filter: its title holds the trimmed name (both
/// lowercased), it carries one of the tags, and it has the status. The
/// library facet picks where books come from and filters none here.
pub open spec fn book_matches(b: Book, f: BookFilter) -> bool {
    &&& (trim(f.name@).len() == 0 || contains_sub(lowercase(b.title@), lowercase(trim(f.name@))))
    &&& (f.tags@.len() == 0 || exists|k: int|
        0 <= k < f.tags@.len() && views(b.tags@).contains(#[trigger] f.tags@[k]@))
    &&& match f.status {
        None => true,
        Some(s) => b.status == s,
    }
}

/// The positions among the first `n` books that pass the filter.
pub open spec fn search_prefix(books: Seq<Book>, f: BookFilter, n: int) -> Seq<usize>
    decreases n,
{
    if n <= 0 {
        seq![]
    } else if book_matches(books[n - 1], f) {
        search_prefix(books, f, n - 1).push((n - 1) as usize)
    } else {
        search_prefix(books, f, n - 1)
    }
}

/// The books' URLs.
pub open spec fn book_urls(books: Seq<Book>) -> Seq<Seq<char>> {
    books.map_values(|b: Book| b.url@)
}

/// The library positions of the ranked books `vis`, in rank order, where
/// the library has them (the first book with the ranked book's URL).
pub open spec fn ai_order_of(books: Seq<Book>, ranked: Seq<AiBook>, vis: Seq<usize>) -> Seq<usize>
    decreases vis.len(),
{
    if vis.len() == 0 {
        seq![]
    } else {
        let rest = ai_order_of(books, ranked, vis.drop_last());
        match position_of(book_urls(books), ranked[vis.last() as int].book_url@) {
            Some(k) => rest.push(k as usize),
            None => rest,
        }
    }
}

/// A fresh book: reading, with nothing else known.
pub open spec fn new_book(b: Book, title: String, url: String) -> bool {
    &&& b.title == title
    &&& b.url == url
    &&& b.status == BookStatus::Reading
    &&& b.sessions@.len() == 0
    &&& b.active_session_id is None
    &&& b.tags@.len() == 0
    &&& b.cover_url is None
    &&& b.description is None
    &&& b.chapters@.len() == 0
}

/// The positions of the books shown, in display order: the AI ranking
/// while there is one, else the books passing the filter.
pub open spec fn visible_of(books: Seq<Book>, filter: BookFilter, ai: Option<AiSession>) -> Seq<
    usize,
> {
    match ai {
        Some(ai) => ai_order_of(books, ai.results.books@, visible_books(ai)),
        None => search_prefix(books, filter, books.len() as int),
    }
}

/// The ranked books without those at `url`.
pub open spec fn without_url(bs: Seq<AiBook>, url: Seq<char>) -> Seq<AiBook>
    decreases bs.len(),
{
    if bs.len() == 0 {
        seq![]
    } else if bs.last().book_url@ == url {
        without_url(bs.drop_last(), url)
    } else {
        without_url(bs.drop_last(), url).push(bs.last())
    }
}

/// A book with another status.
pub open spec fn with_status(b: Book, s: BookStatus) -> Book {
    Book { status: s, ..b }
}

/// `n - 1`, or 0 for 0: the last position of a list of `n`.
pub open spec fn last_pos(n: nat) -> nat {
    if n > 0 {
        (n - 1) as nat
    } else {
        0
    }
}

/// Removes the ranked books at `url`, keeping the order of the rest.
fn remove_ranked(v: &mut Vec<AiBook>, url: &str)
    ensures
        final(v)@ == without_url(old(v)@, url@),
{
    let ghost orig = v@;
    let n = v.len();
    let mut i: usize = 0;
    let mut j: usize = 0;
    while j < n
        invariant
            n == orig.len(),
            j <= orig.len(),
            v@ == without_url(orig.take(j as int), url@) + orig.skip(j as int),
            i == without_url(orig.take(j as int), url@).len(),
            i <= j,
        decreases orig.len() - j,
    {
        assert(orig.take(j + 1).drop_last() =~= orig.take(j as int));
        assert(orig.take(j + 1).last() == orig[j as int]);
        assert(v@[i as int] == orig[j as int]);
        let ghost kept = without_url(orig.take(j as int), url@);
        if str_eq(v[i].book_url.as_str(), url) {
            v.remove(i);
            assert(v@ =~= kept + orig.skip(j + 1));
        } else {
            assert(v@ =~= kept.push(orig[j as int]) + orig.skip(j + 1));
            i = i + 1;
        }
        j = j + 1;
    }
    assert(orig.take(orig.len() as int) =~= orig);
    assert(v@ =~= without_url(orig, url@));
}

/// The in-memory library: its books, the selection, the filter and an
/// optional AI ranking.
pub struct Library {
    pub books: Vec<Book>,
    pub selected_index: usize,
    pub filter: BookFilter,
    /// While set, the library is shown in the AI ranking; clearing it is
    /// always explicit.
    pub ai: Option<AiSession>,
}

/// Where a URL first stands among the books.
pub(crate) fn find_book(books: &Vec<Book>, url: &str) -> (r: Option<usize>)
    ensures
        match r {
            Some(k) => position_of(book_urls(books@), url@) == Some(k as int) && k < books@.len(),
            None => position_of(book_urls(books@), url@) is None,
        },
{
    let ghost us = book_urls(books@);
    let mut i: usize = 0;
    while i < books.len()
        invariant
            i <= books.len(),
            us == book_urls(books@),
            position_of(us.take(i as int), url@) is None,
        decreases books.len() - i,
    {
        assert(us.take(i + 1).drop_last() =~= us.take(i as int));
        assert(us.take(i + 1).last() == books@[i as int].url@);
        if str_eq(books[i].url.as_str(), url) {
            proof {
                lemma_position_prefix(us, url@, i as int + 1);
            }
            return Some(i);
        }
        i = i + 1;
    }
    assert(us.take(books.len() as int) =~= us);
    None
}

proof fn lemma_search_prefix(books: Seq<Book>, f: BookFilter, n: int)
    requires
        n <= books.len(),
        books.len() <= usize::MAX,
    ensures
        forall|k: int|
            0 <= k < search_prefix(books, f, n).len() ==> #[trigger] search_prefix(books, f, n)[k]
                < n,
    decreases n,
{
    if n > 0 {
        lemma_search_prefix(books, f, n - 1);
        assert(((n - 1) as usize) == n - 1);
        let p = search_prefix(books, f, n - 1);
        assert forall|k: int|
            0 <= k < search_prefix(books, f, n).len() implies #[trigger] search_prefix(
            books,
            f,
            n,
        )[k] < n by {
            if k < p.len() {
                assert(search_prefix(books, f, n)[k] == p[k]);
            }
        }
    }
}

proof fn lemma_ai_order(books: Seq<Book>, ranked: Seq<AiBook>, vis: Seq<usize>)
    requires
        books.len() <= usize::MAX,
    ensures
        forall|k: int|
            0 <= k < ai_order_of(books, ranked, vis).len() ==> #[trigger] ai_order_of(
                books,
                ranked,
                vis,
            )[k] < books.len(),
    decreases vis.len(),
{
    if vis.len() > 0 {
        lemma_ai_order(books, ranked, vis.drop_last());
        lemma_position_of_bound(book_urls(books), ranked[vis.last() as int].book_url@);
        let p = ai_order_of(books, ranked, vis.drop_last());
        assert forall|k: int|
            0 <= k < ai_order_of(books, ranked, vis).len() implies #[trigger] ai_order_of(
            books,
            ranked,
            vis,
        )[k] < books.len() by {
            if k < p.len() {
                assert(ai_order_of(books, ranked, vis)[k] == p[k]);
            } else {
                let q = position_of(book_urls(books), ranked[vis.last() as int].book_url@);
                assert(q is Some);
                assert((q->0 as usize) == q->0);
            }
        }
    }
}

impl Library {
    /// The positions of the books shown, in display order: the AI ranking
    /// while there is one, else the books passing the filter.
    pub open spec fn visible(&self) -> Seq<usize> {
        visible_of(self.books@, self.filter, self.ai)
    }

    /// The library position of the selected book, if any: the book of the
    /// AI row under the cursor, or the shown book at the selection.
    pub open spec fn selected_pos(&self) -> Option<int> {
        match self.ai {
            Some(ai) => {
                let rows = session_rows(ai);
                if ai.cursor < rows.len() {
                    position_of(
                        book_urls(self.books@),
                        ai.results.books@[row_book(rows[ai.cursor as int]) as int].book_url@,
                    )
                } else {
                    None
                }
            },
            None => {
                let v = self.visible();
                if self.selected_index < v.len() && v[self.selected_index as int]
                    < self.books@.len() {
                    Some(v[self.selected_index as int] as int)
                } else {
                    None
                }
            },
        }
    }

    /// An empty library.
    pub fn new() -> (r: Self)
        ensures
            r.books@.len() == 0,
            r.selected_index == 0,
            filter_is_empty(r.filter),
            r.filter.name@.len() == 0,
            r.ai is None,
    {
        Library { books: Vec::new(), selected_index: 0, filter: BookFilter::default(), ai: None }
    }

    /// The positions of the books passing `filter`, in library order.
    pub fn search(&self, filter: &BookFilter) -> (r: Vec<usize>)
        ensures
            r@ == search_prefix(self.books@, *filter, self.books@.len() as int),
    {
        let name_blank = str_is_blank(filter.name.as_str());
        let name = to_chars(to_lowercase(trim_str(filter.name.as_str()).as_str()).as_str());
        let mut r: Vec<usize> = Vec::new();
        let mut i: usize = 0;
        while i < self.books.len()
            invariant
                i <= self.books.len(),
                name_blank == (trim(filter.name@).len() == 0),
                name@ == lowercase(trim(filter.name@)),
                r@ == search_prefix(self.books@, *filter, i as int),
            decreases self.books.len() - i,
        {
            let book = &self.books[i];
            let name_ok = name_blank || contains_chars(
                &to_chars(to_lowercase(book.title.as_str()).as_str()),
                &name,
            );
            let mut tags_ok = filter.tags.len() == 0;
            let mut k: usize = 0;
            while k < filter.tags.len() && !tags_ok
                invariant
                    k <= filter.tags.len(),
                    tags_ok ==> (filter.tags@.len() == 0 || exists|q: int|
                        0 <= q < filter.tags@.len() && views(book.tags@).contains(
                            #[trigger] filter.tags@[q]@,
                        )),
                    !tags_ok ==> filter.tags@.len() > 0 && forall|q: int|
                        0 <= q < k ==> !views(book.tags@).contains(#[trigger] filter.tags@[q]@),
                decreases filter.tags.len() - k,
            {
                if has_string(&book.tags, filter.tags[k].as_str()) {
                    tags_ok = true;
                }
                k = k + 1;
            }
            let status_ok = match &filter.status {
                None => true,
                Some(s) => book.status == *s,
            };
            if name_ok && tags_ok && status_ok {
                r.push(i);
            }
            i = i + 1;
        }
        r
    }

    /// The AI ranking of the library, while an AI search is active.
    pub fn ai_search_order(&self) -> (r: Option<Vec<usize>>)
        ensures
            match self.ai {
                Some(ai) => r is Some && r->0@ == ai_order_of(
                    self.books@,
                    ai.results.books@,
                    visible_books(ai),
                ),
                None => r is None,
            },
    {
        match &self.ai {
            None => None,
            Some(ai) => {
                let vis = ai.visible_book_indices();
                let nb = ai.results.books.len();
                proof {
                    lemma_rows_in_range(*ai);
                }
                let mut r: Vec<usize> = Vec::new();
                let mut i: usize = 0;
                while i < vis.len()
                    invariant
                        i <= vis.len(),
                        vis@ == visible_books(*ai),
                        forall|k: int| 0 <= k < vis@.len() ==> #[trigger] vis@[k]
                            < ai.results.books@.len(),
                        r@ == ai_order_of(self.books@, ai.results.books@, vis@.take(i as int)),
                    decreases vis.len() - i,
                {
                    assert(vis@.take(i + 1).drop_last() =~= vis@.take(i as int));
                    assert(vis@.take(i + 1).last() == vis@[i as int]);
                    let bi = vis[i];
                    match find_book(&self.books, ai.results.books[bi].book_url.as_str()) {
                        Some(k) => r.push(k),
                        None => {},
                    }
                    i = i + 1;
                }
                assert(vis@.take(vis.len() as int) =~= vis@);
                Some(r)
            },
        }
    }

    /// The positions of the books shown, in display order.
    pub fn visible_indices(&self) -> (r: Vec<usize>)
        ensures
            r@ == self.visible(),
    {
        match self.ai_search_order() {
            Some(order) => order,
            None => self.search(&self.filter),
        }
    }

    /// The library position of the selected book.
    pub(crate) fn selected_position(&self) -> (r: Option<usize>)
        ensures
            match self.selected_pos() {
                Some(i) => 0 <= i < self.books@.len() && r == Some(i as usize),
                None => r is None,
            },
            r matches Some(k) ==> self.selected_pos() == Some(k as int),
    {
        match &self.ai {
            Some(ai) => {
                let rows = ai.rows();
                let nb = ai.results.books.len();
                proof {
                    lemma_rows_in_range(*ai);
                }
                if ai.cursor >= rows.len() {
                    return None;
                }
                let bi = match rows[ai.cursor] {
                    AiRow::Book { book_index } => book_index,
                    AiRow::Chapter { book_index, .. } => book_index,
                };
                assert(bi == row_book(rows@[ai.cursor as int]));
                find_book(&self.books, ai.results.books[bi].book_url.as_str())
            },
            None => {
                let v = self.visible_indices();
                if self.selected_index < v.len() && v[self.selected_index] < self.books.len() {
                    Some(v[self.selected_index])
                } else {
                    None
                }
            },
        }
    }

    /// The selected book, if any.
    pub fn selected_book(&self) -> (r: Option<&Book>)
        ensures
            match self.selected_pos() {
                Some(i) => r is Some && *r->0 == self.books@[i],
                None => r is None,
            },
    {
        let nb = self.books.len();
        match self.selected_position() {
            Some(i) => {
                assert(self.selected_pos() is Some);
                assert(self.selected_pos()->0 == i as int);
                Some(&self.books[i])
            },
            None => None,
        }
    }

    /// The selected book, to change in place.
    pub fn selected_book_mut(&mut self) -> (r: Option<&mut Book>)
        ensures
            match old(self).selected_pos() {
                Some(i) => r is Some && *r->0 == old(self).books@[i] && final(self).books@ == old(
                    self,
                ).books@.update(i, *final(r->0)),
                None => r is None && *final(self) == *old(self),
            },
            final(self).selected_index == old(self).selected_index,
            final(self).filter == old(self).filter,
            final(self).ai == old(self).ai,
    {
        let nb = self.books.len();
        match self.selected_position() {
            Some(i) => Some(&mut self.books[i]),
            None => None,
        }
    }

    /// The cover to fetch next: the selected book's cover, unless it was
    /// fetched already.
    pub fn cover_to_fetch(&self, fetched: &Vec<String>) -> (r: Option<String>)
        ensures
            match self.selected_pos() {
                Some(i) => match self.books@[i].cover_url {
                    Some(c) => if views(fetched@).contains(c@) {
                        r is None
                    } else {
                        r == Some(c)
                    },
                    None => r is None,
                },
                None => r is None,
            },
    {
        match self.selected_book() {
            Some(book) => match &book.cover_url {
                Some(c) => if has_string(fetched, c.as_str()) {
                    None
                } else {
                    Some(c.clone())
                },
                None => None,
            },
            None => None,
        }
    }

    /// Adds a new book, reading and with nothing else known, at the end.
    pub fn add_book(&mut self, title: String, url: String)
        ensures
            final(self).books@.len() == old(self).books@.len() + 1,
            final(self).books@.drop_last() == old(self).books@,
            new_book(final(self).books@.last(), title, url),
            final(self).selected_index == old(self).selected_index,
            final(self).filter == old(self).filter,
            final(self).ai == old(self).ai,
    {
        self.books.push(
            Book {
                title,
                url,
                status: BookStatus::Reading,
                sessions: Vec::new(),
                active_session_id: None,
                tags: Vec::new(),
                cover_url: None,
                description: None,
                chapters: Vec::new(),
            },
        );
        assert(self.books@.drop_last() =~= old(self).books@);
    }

    /// Moves the selection down, stopping at the last shown book.
    pub fn select_next(&mut self)
        ensures
            final(self).selected_index == (if old(self).selected_index + 1 < old(
                self,
            ).visible().len() {
                old(self).selected_index + 1
            } else {
                old(self).selected_index as int
            }),
            final(self).books == old(self).books,
            final(self).filter == old(self).filter,
            final(self).ai == old(self).ai,
    {
        let len = self.visible_indices().len();
        if len > 0 && self.selected_index < len - 1 {
            self.selected_index = self.selected_index + 1;
        }
    }

    /// Moves the selection up, stopping at the first book.
    pub fn select_prev(&mut self)
        ensures
            final(self).selected_index == (if old(self).selected_index > 0 {
                old(self).selected_index - 1
            } else {
                0
            }),
            final(self).books == old(self).books,
            final(self).filter == old(self).filter,
            final(self).ai == old(self).ai,
    {
        if self.selected_index > 0 {
            self.selected_index = self.selected_index - 1;
        }
    }
}


/// The library after removing the selected book (see `Library::remove_selected`).
pub open spec fn removed_selected(o: Library, n: Library) -> bool {
    match o.ai {
        Some(ai) => {
            let rows = session_rows(ai);
            if ai.cursor >= rows.len() {
                n == o
            } else {
                let url = ai.results.books@[row_book(rows[ai.cursor as int]) as int].book_url@;
                &&& n.books@ == match position_of(book_urls(o.books@), url) {
                    Some(k) => o.books@.remove(k),
                    None => o.books@,
                }
                &&& n.ai is Some
                &&& n.ai->0.results.books@ == without_url(ai.results.books@, url)
                &&& n.ai->0.results.embedded == ai.results.embedded
                &&& n.ai->0.results.total == ai.results.total
                &&& n.ai->0.query == ai.query
                &&& n.ai->0.status == ai.status
                &&& n.ai->0.book_mode == ai.book_mode
                &&& n.ai->0.genre == ai.genre
                &&& n.ai->0.cursor == (if ai.cursor >= session_rows(
                    n.ai->0,
                ).len() {
                    last_pos(session_rows(n.ai->0).len()) as int
                } else {
                    ai.cursor as int
                })
                &&& n.selected_index == o.selected_index
                &&& n.filter == o.filter
            }
        },
        None => {
            let v = o.visible();
            if o.selected_index < v.len() {
                &&& n.books@ == o.books@.remove(
                    v[o.selected_index as int] as int,
                )
                &&& n.selected_index == (if o.selected_index > 0
                    && o.selected_index >= n.visible().len() {
                    o.selected_index - 1
                } else {
                    o.selected_index as int
                })
                &&& n.filter == o.filter
                &&& n.ai is None
            } else {
                n == o
            }
        },
    }
}

/// The library after advancing the selected book's status (see
/// `Library::cycle_selected_status`).
pub open spec fn cycled_selected(o: Library, n: Library) -> bool {
    &&& n.books@ == match o.selected_pos() {
        Some(i) => o.books@.update(
            i,
            with_status(o.books@[i], status_after(o.books@[i].status)),
        ),
        None => o.books@,
    }
    &&& n.selected_index == (if o.selected_index >= visible_of(
        n.books@,
        o.filter,
        o.ai,
    ).len() {
        last_pos(visible_of(n.books@, o.filter, o.ai).len()) as int
    } else {
        o.selected_index as int
    })
    &&& n.filter == o.filter
    &&& n.ai == o.ai
}

impl Library {
    /// Removes the selected book. Under an AI ranking the book also leaves
    /// the ranking, the cursor is kept on a row, and the ranking stays;
    /// otherwise the selection steps back when it fell off the end.
    pub fn remove_selected(&mut self)
        ensures
            removed_selected(*old(self), *final(self)),
    {
        let nb = self.books.len();
        if self.ai.is_some() {
            let url: String = match &self.ai {
                Some(ai) => {
                    let rows = ai.rows();
                    let n = ai.results.books.len();
                    proof {
                        lemma_rows_in_range(*ai);
                    }
                    if ai.cursor >= rows.len() {
                        return;
                    }
                    let bi = match rows[ai.cursor] {
                        AiRow::Book { book_index } => book_index,
                        AiRow::Chapter { book_index, .. } => book_index,
                    };
                    assert(bi == row_book(rows@[ai.cursor as int]));
                    ai.results.books[bi].book_url.clone()
                },
                None => {
                    return;
                },
            };
            match find_book(&self.books, url.as_str()) {
                Some(pos) => {
                    self.books.remove(pos);
                },
                None => {},
            }
            let taken = self.ai.take();
            match taken {
                Some(mut ai) => {
                    remove_ranked(&mut ai.results.books, url.as_str());
                    let len = ai.rows().len();
                    if ai.cursor >= len {
                        ai.cursor = if len > 0 {
                            len - 1
                        } else {
                            0
                        };
                    }
                    self.ai = Some(ai);
                },
                None => {},
            }
            return;
        }
        let indices = self.visible_indices();
        proof {
            lemma_search_prefix(self.books@, self.filter, self.books@.len() as int);
        }
        if self.selected_index < indices.len() {
            let real_idx = indices[self.selected_index];
            self.books.remove(real_idx);
            let new_len = self.visible_indices().len();
            if self.selected_index > 0 && self.selected_index >= new_len {
                self.selected_index = self.selected_index - 1;
            }
        }
    }

    /// Advances the selected book's status in the cycle, then keeps the
    /// selection on a shown book (the book may have left the view).
    pub fn cycle_selected_status(&mut self)
        ensures
            cycled_selected(*old(self), *final(self)),
    {
        match self.selected_position() {
            Some(i) => {
                let mut b = self.books.remove(i);
                let ghost ob = b;
                b.status = b.status.next();
                assert(b == with_status(ob, status_after(ob.status)));
                self.books.insert(i, b);
                assert(self.books@ =~= old(self).books@.update(
                    i as int,
                    with_status(ob, status_after(ob.status)),
                ));
            },
            None => {},
        }
        let len = self.visible_indices().len();
        if self.selected_index >= len {
            self.selected_index = if len > 0 {
                len - 1
            } else {
                0
            };
        }
        assert(self.books@ == match old(self).selected_pos() {
            Some(i) => old(self).books@.update(
                i,
                with_status(old(self).books@[i], status_after(old(self).books@[i].status)),
            ),
            None => old(self).books@,
        });
        assert(self.filter == old(self).filter);
        assert(self.ai == old(self).ai);
    }

    /// Starts an AI search: the library is ranked by it (still empty) at
    /// once, in book mode, from the top.
    pub fn set_ai_searching(&mut self, query: String)
        ensures
            final(self).ai is Some,
            final(self).ai->0.query == query,
            final(self).ai->0.status == SearchStatus::Loading,
            final(self).ai->0.results.embedded == 0,
            final(self).ai->0.results.total == 0,
            final(self).ai->0.results.books@.len() == 0,
            final(self).ai->0.book_mode,
            final(self).ai->0.cursor == 0,
            final(self).ai->0.genre is None,
            final(self).selected_index == 0,
            final(self).books == old(self).books,
            final(self).filter == old(self).filter,
    {
        self.ai = Some(
            AiSession {
                query,
                status: SearchStatus::Loading,
                results: AiSearchResults { embedded: 0, total: 0, books: Vec::new() },
                book_mode: true,
                cursor: 0,
                genre: None,
            },
        );
        self.selected_index = 0;
    }

    /// Marks the AI search for `query` failed; an answer to another query,
    /// or with no search active, changes nothing.
    pub fn set_ai_error(&mut self, query: String, error: String)
        ensures
            match old(self).ai {
                Some(ai) => if ai.query@ == query@ {
                    &&& final(self).ai == Some(
                        AiSession { status: SearchStatus::Error(error), ..ai },
                    )
                    &&& final(self).books == old(self).books
                    &&& final(self).selected_index == old(self).selected_index
                    &&& final(self).filter == old(self).filter
                } else {
                    *final(self) == *old(self)
                },
                None => *final(self) == *old(self),
            },
    {
        let same = match &self.ai {
            None => false,
            Some(ai) => str_eq(ai.query.as_str(), query.as_str()),
        };
        if !same {
            return;
        }
        let taken = self.ai.take();
        match taken {
            Some(mut ai) => {
                ai.status = SearchStatus::Error(error);
                self.ai = Some(ai);
            },
            None => {},
        }
    }

    /// Ends the AI ranking; the normal order returns, from the top.
    pub fn clear_ai(&mut self)
        ensures
            final(self).ai is None,
            final(self).selected_index == 0,
            final(self).books == old(self).books,
            final(self).filter == old(self).filter,
    {
        self.ai = None;
        self.selected_index = 0;
    }

    /// Switches between book rows and grouped chapter rows, back at the top.
    pub fn toggle_ai_mode(&mut self)
        ensures
            final(self).ai == match old(self).ai {
                Some(ai) => Some(AiSession { book_mode: !ai.book_mode, cursor: 0, ..ai }),
                None => None,
            },
            final(self).books == old(self).books,
            final(self).selected_index == old(self).selected_index,
            final(self).filter == old(self).filter,
    {
        let taken = self.ai.take();
        match taken {
            Some(mut ai) => {
                ai.book_mode = !ai.book_mode;
                ai.cursor = 0;
                self.ai = Some(ai);
            },
            None => {},
        }
    }

    /// Moves the AI cursor down (`dir > 0`) or up (`dir < 0`) a row,
    /// stopping at the ends.
    pub fn ai_nav(&mut self, dir: i32)
        ensures
            final(self).ai == match old(self).ai {
                Some(ai) => {
                    let len = session_rows(ai).len();
                    if dir > 0 && ai.cursor + 1 < len {
                        Some(AiSession { cursor: (ai.cursor + 1) as usize, ..ai })
                    } else if dir < 0 && ai.cursor > 0 && len > 0 {
                        Some(AiSession { cursor: (ai.cursor - 1) as usize, ..ai })
                    } else {
                        Some(ai)
                    }
                },
                None => None,
            },
            final(self).books == old(self).books,
            final(self).selected_index == old(self).selected_index,
            final(self).filter == old(self).filter,
    {
        let len = match &self.ai {
            Some(ai) => ai.rows().len(),
            None => 0,
        };
        if len == 0 {
            return;
        }
        let taken = self.ai.take();
        match taken {
            Some(mut ai) => {
                if dir > 0 && ai.cursor < len - 1 {
                    ai.cursor = ai.cursor + 1;
                } else if dir < 0 && ai.cursor > 0 {
                    ai.cursor = ai.cursor - 1;
                }
                self.ai = Some(ai);
            },
            None => {},
        }
    }

    /// Moves the genre facet of the AI ranking (see `AiSession::cycle_genre`).
    pub fn cycle_ai_genre(&mut self, dir: i32)
        ensures
            old(self).ai is None ==> final(self).ai is None,
            old(self).ai is Some ==> final(self).ai is Some && exists|gs: Seq<Seq<char>>|
                {
                    let ai = old(self).ai->0;
                    let nai = final(self).ai->0;
                    &&& #[trigger] strictly_sorted(gs)
                    &&& forall|t: Seq<char>|
                        gs.contains(t) <==> some_book_has_genre(ai.results.books@, t)
                    &&& if gs.len() == 0 {
                        nai.genre is None && nai.cursor == ai.cursor
                    } else {
                        nai.cursor == 0 && opt_view(nai.genre) == genre_after(
                            gs,
                            ai.genre,
                            dir as int,
                        )
                    }
                    &&& nai.query == ai.query
                    &&& nai.status == ai.status
                    &&& nai.results == ai.results
                    &&& nai.book_mode == ai.book_mode
                },
            final(self).books == old(self).books,
            final(self).selected_index == old(self).selected_index,
            final(self).filter == old(self).filter,
    {
        let taken = self.ai.take();
        match taken {
            Some(mut ai) => {
                ai.cycle_genre(dir);
                self.ai = Some(ai);
            },
            None => {},
        }
    }
}


impl Clone for AiChapter {
    fn clone(&self) -> (r: Self)
        ensures
            r == *self,
    {
        AiChapter {
            chapter_url: self.chapter_url.clone(),
            chapter_idx: self.chapter_idx,
            chapter_title: self.chapter_title.clone(),
            score: self.score,
            snippet: self.snippet.clone(),
        }
    }
}

/// A ranked book as the grouping sees it.
pub struct GroupView {
    pub url: Seq<char>,
    pub title: Seq<char>,
    pub score: u32,
    pub genres: Seq<Seq<char>>,
    pub chapters: Seq<AiChapter>,
}

/// A ranked book's contents.
pub open spec fn group_view(b: AiBook) -> GroupView {
    GroupView {
        url: b.book_url@,
        title: b.book_title@,
        score: b.score,
        genres: views(b.genres@),
        chapters: b.chapters@,
    }
}

/// The contents of ranked books.
pub open spec fn group_views(v: Seq<AiBook>) -> Seq<GroupView> {
    v.map_values(|b: AiBook| group_view(b))
}

/// Inserts `x` into a list ordered by descending key, after every item
/// whose key is at least its own (so equal keys keep their order).
pub open spec fn insert_desc<T>(s: Seq<T>, x: T, key: spec_fn(T) -> u32) -> Seq<T>
    decreases s.len(),
{
    if s.len() == 0 {
        seq![x]
    } else if key(s.last()) >= key(x) {
        s.push(x)
    } else {
        insert_desc(s.drop_last(), x, key).push(s.last())
    }
}

/// The stable sort by descending key.
pub open spec fn sort_desc<T>(s: Seq<T>, key: spec_fn(T) -> u32) -> Seq<T>
    decreases s.len(),
{
    if s.len() == 0 {
        seq![]
    } else {
        insert_desc(sort_desc(s.drop_last(), key), s.last(), key)
    }
}

/// Whether keys do not increase along `s`.
pub open spec fn desc_by<T>(s: Seq<T>, key: spec_fn(T) -> u32) -> bool {
    forall|i: int, j: int| 0 <= i < j < s.len() ==> key(#[trigger] s[i]) >= key(#[trigger] s[j])
}

pub open spec fn chapter_key() -> spec_fn(AiChapter) -> u32 {
    |c: AiChapter| c.score
}

pub open spec fn group_key() -> spec_fn(GroupView) -> u32 {
    |g: GroupView| g.score
}

/// Whether book `b` has a chapter at `url`.
pub open spec fn book_has_chapter(b: Book, url: Seq<char>) -> bool {
    exists|c: int| 0 <= c < b.chapters@.len() && #[trigger] b.chapters@[c].url@ == url
}

/// The first of the first `n` books with a chapter at `url`.
pub open spec fn chapter_owner(books: Seq<Book>, url: Seq<char>, n: int) -> Option<int>
    decreases n,
{
    if n <= 0 {
        None
    } else {
        match chapter_owner(books, url, n - 1) {
            Some(a) => Some(a),
            None => if book_has_chapter(books[n - 1], url) {
                Some(n - 1)
            } else {
                None
            },
        }
    }
}

/// The URL and title of the book a hit's chapter belongs to, or an empty
/// URL and `Unknown` for a chapter of no library book.
pub open spec fn hit_owner(books: Seq<Book>, url: Seq<char>) -> (Seq<char>, Seq<char>) {
    match chapter_owner(books, url, books.len() as int) {
        Some(a) => (books[a].url@, books[a].title@),
        None => (seq![], "Unknown"@),
    }
}

/// The first group at `url`.
pub open spec fn find_group(gs: Seq<GroupView>, url: Seq<char>) -> Option<int>
    decreases gs.len(),
{
    if gs.len() == 0 {
        None
    } else {
        match find_group(gs.drop_last(), url) {
            Some(k) => Some(k),
            None => if gs.last().url == url {
                Some(gs.len() - 1)
            } else {
                None
            },
        }
    }
}

/// Chapter hits grouped by book in order of first appearance: each group
/// has its hits in order and the best score among them.
pub open spec fn group_hits(books: Seq<Book>, hits: Seq<AiChapter>) -> Seq<GroupView>
    decreases hits.len(),
{
    if hits.len() == 0 {
        seq![]
    } else {
        let gs = group_hits(books, hits.drop_last());
        let h = hits.last();
        let (url, title) = hit_owner(books, h.chapter_url@);
        match find_group(gs, url) {
            Some(i) => gs.update(
                i,
                GroupView {
                    score: if h.score > gs[i].score {
                        h.score
                    } else {
                        gs[i].score
                    },
                    chapters: gs[i].chapters.push(h),
                    ..gs[i]
                },
            ),
            None => gs.push(
                GroupView { url, title, score: h.score, genres: seq![], chapters: seq![h] },
            ),
        }
    }
}

/// The ranked books of chapter hits: grouped by book, each book's chapters
/// by descending score, the books by descending best score.
pub open spec fn ranked_groups(books: Seq<Book>, hits: Seq<AiChapter>) -> Seq<GroupView> {
    sort_desc(
        group_hits(books, hits).map_values(
            |g: GroupView| GroupView { chapters: sort_desc(g.chapters, chapter_key()), ..g },
        ),
        group_key(),
    )
}

proof fn lemma_insert_desc_split<T>(s: Seq<T>, x: T, key: spec_fn(T) -> u32, p: int)
    requires
        0 < p <= s.len(),
        key(s[p - 1]) < key(x),
    ensures
        insert_desc(s.take(p), x, key) + s.skip(p) == insert_desc(s.take(p - 1), x, key) + s.skip(
            p - 1,
        ),
{
    assert(s.take(p).drop_last() =~= s.take(p - 1));
    assert(s.take(p).last() == s[p - 1]);
    assert(insert_desc(s.take(p), x, key) == insert_desc(s.take(p - 1), x, key).push(s[p - 1]));
    assert(s.skip(p - 1) =~= seq![s[p - 1]] + s.skip(p));
    assert(insert_desc(s.take(p - 1), x, key).push(s[p - 1]) + s.skip(p) =~= insert_desc(
        s.take(p - 1),
        x,
        key,
    ) + s.skip(p - 1));
}

/// Inserts a chapter into a list sorted by descending score, after those
/// scoring at least as well.
fn insert_chapter_desc(out: &mut Vec<AiChapter>, x: AiChapter)
    ensures
        final(out)@ == insert_desc(old(out)@, x, chapter_key()),
{
    let ghost s = out@;
    let mut p: usize = out.len();
    assert(s.take(p as int) =~= s);
    assert(s.skip(p as int) =~= Seq::<AiChapter>::empty());
    while p > 0 && out[p - 1].score < x.score
        invariant
            p <= out.len(),
            out@ == s,
            insert_desc(s, x, chapter_key()) == insert_desc(s.take(p as int), x, chapter_key())
                + s.skip(p as int),
        decreases p,
    {
        proof {
            lemma_insert_desc_split(s, x, chapter_key(), p as int);
        }
        p = p - 1;
    }
    proof {
        if p > 0 {
            assert(s.take(p as int).last() == s[p - 1]);
        }
        assert(insert_desc(s.take(p as int), x, chapter_key()) =~= s.take(p as int).push(x));
        assert(s.take(p as int).push(x) + s.skip(p as int) =~= s.insert(p as int, x));
    }
    out.insert(p, x);
}

/// Inserts a ranked book into a list sorted by descending score, after
/// those scoring at least as well.
fn insert_book_desc(out: &mut Vec<AiBook>, x: AiBook)
    ensures
        group_views(final(out)@) == insert_desc(group_views(old(out)@), group_view(x), group_key()),
{
    let ghost s = group_views(out@);
    let ghost xv = group_view(x);
    let mut p: usize = out.len();
    assert(s.take(p as int) =~= s);
    assert(s.skip(p as int) =~= Seq::<GroupView>::empty());
    while p > 0 && out[p - 1].score < x.score
        invariant
            p <= out.len(),
            s == group_views(out@),
            xv == group_view(x),
            insert_desc(s, xv, group_key()) == insert_desc(s.take(p as int), xv, group_key())
                + s.skip(p as int),
        decreases p,
    {
        assert(s[p - 1].score == out@[p - 1].score);
        proof {
            lemma_insert_desc_split(s, xv, group_key(), p as int);
        }
        p = p - 1;
    }
    proof {
        if p > 0 {
            assert(s.take(p as int).last() == s[p - 1]);
            assert(s[p - 1].score == out@[p - 1].score);
        }
        assert(insert_desc(s.take(p as int), xv, group_key()) =~= s.take(p as int).push(xv));
        assert(s.take(p as int).push(xv) + s.skip(p as int) =~= s.insert(p as int, xv));
    }
    out.insert(p, x);
    assert(group_views(out@) =~= s.insert(p as int, xv));
}

/// The chapters sorted by descending score, equal scores in their order.
fn sort_chapters_desc(v: Vec<AiChapter>) -> (r: Vec<AiChapter>)
    ensures
        r@ == sort_desc(v@, chapter_key()),
{
    let ghost orig = v@;
    let n = v.len();
    let mut input = v;
    let mut out: Vec<AiChapter> = Vec::new();
    let mut k: usize = 0;
    while input.len() > 0
        invariant
            k <= orig.len(),
            orig.len() == n,
            input@.len() + k == n,
            input@ == orig.skip(k as int),
            out@ == sort_desc(orig.take(k as int), chapter_key()),
        decreases input.len(),
    {
        let x = input.remove(0);
        assert(orig.take(k + 1).drop_last() =~= orig.take(k as int));
        assert(orig.take(k + 1).last() == x);
        insert_chapter_desc(&mut out, x);
        assert(input@ =~= orig.skip(k + 1));
        k = k + 1;
    }
    assert(orig.take(k as int) =~= orig);
    out
}

/// The ranked books sorted by descending score, equal scores in their
/// order.
fn sort_books_desc(v: Vec<AiBook>) -> (r: Vec<AiBook>)
    ensures
        group_views(r@) == sort_desc(group_views(v@), group_key()),
{
    let ghost orig = group_views(v@);
    let n = v.len();
    let mut input = v;
    let mut out: Vec<AiBook> = Vec::new();
    let mut k: usize = 0;
    while input.len() > 0
        invariant
            k <= orig.len(),
            orig.len() == n,
            input@.len() + k == n,
            group_views(input@) == orig.skip(k as int),
            group_views(out@) == sort_desc(orig.take(k as int), group_key()),
        decreases input.len(),
    {
        let ghost before = input@;
        let x = input.remove(0);
        assert(orig.take(k + 1).drop_last() =~= orig.take(k as int));
        assert(group_views(before)[0] == group_view(x));
        assert(orig.take(k + 1).last() == group_view(x));
        insert_book_desc(&mut out, x);
        assert(input@ =~= before.skip(1));
        assert(group_views(input@) =~= group_views(before).skip(1));
        assert(group_views(input@) =~= orig.skip(k + 1));
        k = k + 1;
    }
    assert(orig.take(k as int) =~= orig);
    out
}


/// Whether the book has a chapter at `url`.
fn has_chapter(b: &Book, url: &str) -> (r: bool)
    ensures
        r == book_has_chapter(*b, url@),
{
    let mut c: usize = 0;
    while c < b.chapters.len()
        invariant
            c <= b.chapters.len(),
            forall|k: int| 0 <= k < c ==> b.chapters@[k].url@ != url@,
        decreases b.chapters.len() - c,
    {
        if str_eq(b.chapters[c].url.as_str(), url) {
            return true;
        }
        c = c + 1;
    }
    false
}

/// The first book with a chapter at `url`.
fn find_owner(books: &Vec<Book>, url: &str) -> (r: Option<usize>)
    ensures
        match r {
            Some(a) => chapter_owner(books@, url@, books@.len() as int) == Some(a as int) && a
                < books@.len(),
            None => chapter_owner(books@, url@, books@.len() as int) is None,
        },
{
    let mut a: usize = 0;
    while a < books.len()
        invariant
            a <= books.len(),
            chapter_owner(books@, url@, a as int) is None,
        decreases books.len() - a,
    {
        if has_chapter(&books[a], url) {
            proof {
                lemma_owner_prefix(books@, url@, a as int + 1);
            }
            return Some(a);
        }
        a = a + 1;
    }
    None
}

proof fn lemma_owner_prefix(books: Seq<Book>, url: Seq<char>, n: int)
    requires
        0 <= n <= books.len(),
        chapter_owner(books, url, n) is Some,
    ensures
        chapter_owner(books, url, books.len() as int) == chapter_owner(books, url, n),
    decreases books.len() - n,
{
    if n < books.len() {
        lemma_owner_prefix(books, url, n + 1);
    }
}

/// The first group at `url`.
fn find_group_exec(groups: &Vec<AiBook>, url: &str) -> (r: Option<usize>)
    ensures
        match r {
            Some(k) => find_group(group_views(groups@), url@) == Some(k as int) && k
                < groups@.len(),
            None => find_group(group_views(groups@), url@) is None,
        },
{
    let ghost gs = group_views(groups@);
    let mut i: usize = 0;
    while i < groups.len()
        invariant
            i <= groups.len(),
            gs == group_views(groups@),
            find_group(gs.take(i as int), url@) is None,
        decreases groups.len() - i,
    {
        assert(gs.take(i + 1).drop_last() =~= gs.take(i as int));
        assert(gs.take(i + 1).last() == group_view(groups@[i as int]));
        if str_eq(groups[i].book_url.as_str(), url) {
            proof {
                lemma_find_group_prefix(gs, url@, i as int + 1);
            }
            return Some(i);
        }
        i = i + 1;
    }
    assert(gs.take(groups.len() as int) =~= gs);
    None
}

proof fn lemma_find_group_prefix(s: Seq<GroupView>, x: Seq<char>, n: int)
    requires
        0 <= n <= s.len(),
        find_group(s.take(n), x) is Some,
    ensures
        find_group(s, x) == find_group(s.take(n), x),
    decreases s.len() - n,
{
    if n < s.len() {
        assert(s.take(n + 1).drop_last() =~= s.take(n));
        lemma_find_group_prefix(s, x, n + 1);
    } else {
        assert(s.take(n) =~= s);
    }
}

proof fn lemma_find_group_bound(s: Seq<GroupView>, x: Seq<char>)
    ensures
        match find_group(s, x) {
            Some(k) => 0 <= k < s.len(),
            None => true,
        },
    decreases s.len(),
{
    if s.len() > 0 {
        lemma_find_group_bound(s.drop_last(), x);
    }
}

/// A group with its chapters sorted by descending score.
pub open spec fn with_sorted_chapters(g: GroupView) -> GroupView {
    GroupView { chapters: sort_desc(g.chapters, chapter_key()), ..g }
}

impl Library {
    /// Groups chapter hits into ranked books: each hit goes to the library
    /// book that has its chapter (or to an unknown book), a book's score is
    /// its best hit's, and books and their chapters are sorted by
    /// descending score.
    fn group_chapter_hits(&self, hits: &[AiChapter]) -> (r: Vec<AiBook>)
        ensures
            group_views(r@) == ranked_groups(self.books@, hits@),
    {
        let mut groups: Vec<AiBook> = Vec::new();
        let mut i: usize = 0;
        while i < hits.len()
            invariant
                i <= hits.len(),
                group_views(groups@) == group_hits(self.books@, hits@.take(i as int)),
            decreases hits.len() - i,
        {
            let ghost gs = group_views(groups@);
            assert(hits@.take(i + 1).drop_last() =~= hits@.take(i as int));
            assert(hits@.take(i + 1).last() == hits@[i as int]);
            let h = &hits[i];
            let (url, title): (String, String) = match find_owner(
                &self.books,
                h.chapter_url.as_str(),
            ) {
                Some(a) => (self.books[a].url.clone(), self.books[a].title.clone()),
                None => (String::new(), "Unknown".to_string()),
            };
            assert((url@, title@) == hit_owner(self.books@, h.chapter_url@));
            match find_group_exec(&groups, url.as_str()) {
                Some(gi) => {
                    let mut g = groups.remove(gi);
                    let ghost og = g;
                    g.chapters.push(h.clone());
                    if h.score > g.score {
                        g.score = h.score;
                    }
                    groups.insert(gi, g);
                    assert(group_view(g) == GroupView {
                        score: if h.score > og.score {
                            h.score
                        } else {
                            og.score
                        },
                        chapters: og.chapters@.push(*h),
                        ..gs[gi as int]
                    });
                    assert(group_views(groups@) =~= gs.update(gi as int, group_view(g)));
                },
                None => {
                    let mut chapters: Vec<AiChapter> = Vec::new();
                    chapters.push(h.clone());
                    let g = AiBook {
                        book_url: url,
                        book_title: title,
                        score: h.score,
                        genres: Vec::new(),
                        chapters,
                    };
                    assert(g.chapters@ =~= seq![*h]);
                    assert(views(g.genres@) =~= Seq::<Seq<char>>::empty());
                    groups.push(g);
                    assert(group_views(groups@) =~= gs.push(group_view(g)));
                },
            }
            i = i + 1;
        }
        assert(hits@.take(hits.len() as int) =~= hits@);
        let ghost grouped = group_views(groups@);
        let n = groups.len();
        let mut input = groups;
        let mut sorted: Vec<AiBook> = Vec::new();
        let mut k: usize = 0;
        while input.len() > 0
            invariant
                k <= grouped.len(),
                grouped.len() == n,
                input@.len() + k == n,
                group_views(input@) == grouped.skip(k as int),
                group_views(sorted@) == grouped.take(k as int).map_values(
                    |g: GroupView| with_sorted_chapters(g),
                ),
            decreases input.len(),
        {
            let ghost before = input@;
            let g = input.remove(0);
            assert(group_views(before)[0] == group_view(g));
            assert(grouped[k as int] == group_view(g));
            let AiBook { book_url, book_title, score, genres, chapters } = g;
            let chapters = sort_chapters_desc(chapters);
            let ng = AiBook { book_url, book_title, score, genres, chapters };
            assert(group_view(ng) == with_sorted_chapters(grouped[k as int]));
            let ghost prev = group_views(sorted@);
            sorted.push(ng);
            assert(group_views(sorted@) =~= prev.push(group_view(ng)));
            assert(grouped.take(k + 1).map_values(|g: GroupView| with_sorted_chapters(g))
                =~= grouped.take(k as int).map_values(|g: GroupView| with_sorted_chapters(g)).push(
                with_sorted_chapters(grouped[k as int]),
            ));
            assert(input@ =~= before.skip(1));
            assert(group_views(input@) =~= group_views(before).skip(1));
            k = k + 1;
        }
        assert(grouped.take(k as int) =~= grouped);
        assert(grouped.map_values(|g: GroupView| with_sorted_chapters(g)) =~= group_hits(
            self.books@,
            hits@,
        ).map_values(|g: GroupView| GroupView { chapters: sort_desc(g.chapters, chapter_key()), ..g }));
        sort_books_desc(sorted)
    }

    /// Takes in the answer to an AI search: book hits as they come, chapter
    /// hits grouped into ranked books, or the hint that nothing is embedded
    /// yet. The display mode is kept; cursor and facet start afresh.
    pub fn apply_ai_results(&mut self, query: String, outcome: SearchOutcome)
        ensures
            final(self).ai is Some,
            final(self).ai->0.query == query,
            final(self).ai->0.cursor == 0,
            final(self).ai->0.genre is None,
            final(self).ai->0.book_mode == match old(self).ai {
                Some(ai) => ai.book_mode,
                None => true,
            },
            match outcome {
                SearchOutcome::BookMode { hits, embedded, total } => {
                    &&& final(self).ai->0.results == AiSearchResults {
                        embedded,
                        total,
                        books: hits,
                    }
                    &&& final(self).ai->0.status == if hits@.len() == 0 {
                        SearchStatus::Empty
                    } else {
                        SearchStatus::Ready
                    }
                },
                SearchOutcome::ChapterMode { hits, embedded, total } => {
                    &&& final(self).ai->0.results.embedded == embedded
                    &&& final(self).ai->0.results.total == total
                    &&& group_views(final(self).ai->0.results.books@) == ranked_groups(
                        old(self).books@,
                        hits@,
                    )
                    &&& final(self).ai->0.status == if final(self).ai->0.results.books@.len()
                        == 0 {
                        SearchStatus::Empty
                    } else {
                        SearchStatus::Ready
                    }
                },
                SearchOutcome::NoEmbeddings { total } => {
                    &&& final(self).ai->0.status == SearchStatus::NoEmbeddings { total }
                    &&& final(self).ai->0.results.embedded == 0
                    &&& final(self).ai->0.results.total == total
                    &&& final(self).ai->0.results.books@.len() == 0
                },
            },
            final(self).selected_index == 0,
            final(self).books == old(self).books,
            final(self).filter == old(self).filter,
    {
        let (status, results) = match outcome {
            SearchOutcome::BookMode { hits, embedded, total } => {
                let status = if hits.len() == 0 {
                    SearchStatus::Empty
                } else {
                    SearchStatus::Ready
                };
                (status, AiSearchResults { embedded, total, books: hits })
            },
            SearchOutcome::ChapterMode { hits, embedded, total } => {
                let books = self.group_chapter_hits(hits.as_slice());
                let status = if books.len() == 0 {
                    SearchStatus::Empty
                } else {
                    SearchStatus::Ready
                };
                (status, AiSearchResults { embedded, total, books })
            },
            SearchOutcome::NoEmbeddings { total } => (
                SearchStatus::NoEmbeddings { total },
                AiSearchResults { embedded: 0, total, books: Vec::new() },
            ),
        };
        let book_mode = match &self.ai {
            Some(ai) => ai.book_mode,
            None => true,
        };
        self.ai = Some(AiSession { query, status, results, book_mode, cursor: 0, genre: None });
        self.selected_index = 0;
    }
}


proof fn lemma_insert_desc<T>(s: Seq<T>, x: T, key: spec_fn(T) -> u32)
    requires
        desc_by(s, key),
    ensures
        desc_by(insert_desc(s, x, key), key),
        insert_desc(s, x, key).to_multiset() == s.to_multiset().insert(x),
    decreases s.len(),
{
    broadcast use vstd::seq_lib::group_to_multiset_ensures;

    if s.len() > 0 {
        let p = s.drop_last();
        assert(desc_by(p, key)) by {
            assert forall|i: int, j: int| 0 <= i < j < p.len() implies key(#[trigger] p[i]) >= key(
                #[trigger] p[j],
            ) by {
                assert(p[i] == s[i] && p[j] == s[j]);
            }
        }
        assert(s =~= p.push(s.last()));
        if key(s.last()) >= key(x) {
            let r = s.push(x);
            assert forall|i: int, j: int| 0 <= i < j < r.len() implies key(#[trigger] r[i]) >= key(
                #[trigger] r[j],
            ) by {
                if j < s.len() {
                    assert(r[i] == s[i] && r[j] == s[j]);
                } else {
                    assert(r[i] == s[i]);
                    if i < s.len() - 1 {
                        assert(key(s[i]) >= key(s[s.len() - 1]));
                    }
                }
            }
        } else {
            lemma_insert_desc(p, x, key);
            let q = insert_desc(p, x, key);
            let r = q.push(s.last());
            assert(q.to_multiset() == p.to_multiset().insert(x));
            assert forall|i: int, j: int| 0 <= i < j < r.len() implies key(#[trigger] r[i]) >= key(
                #[trigger] r[j],
            ) by {
                if j < q.len() {
                    assert(r[i] == q[i] && r[j] == q[j]);
                } else {
                    assert(r[i] == q[i]);
                    assert(q.to_multiset().count(q[i]) > 0);
                    assert(p.to_multiset().insert(x).count(q[i]) > 0);
                    if q[i] == x {
                    } else {
                        assert(p.to_multiset().count(q[i]) > 0);
                        assert(p.contains(q[i]));
                        let k = choose|k: int| 0 <= k < p.len() && p[k] == q[i];
                        assert(s[k] == p[k]);
                        assert(key(s[k]) >= key(s[s.len() - 1]));
                    }
                }
            }
            assert(r.to_multiset() =~= s.to_multiset().insert(x)) by {
                assert(r.to_multiset() == q.to_multiset().insert(s.last()));
                assert(s.to_multiset() == p.to_multiset().insert(s.last()));
            }
        }
    }
}

/// The stable sort by descending key orders by descending key and keeps
/// every item, as often as it occurs.
pub proof fn lemma_sort_desc<T>(s: Seq<T>, key: spec_fn(T) -> u32)
    ensures
        desc_by(sort_desc(s, key), key),
        sort_desc(s, key).to_multiset() == s.to_multiset(),
    decreases s.len(),
{
    broadcast use vstd::seq_lib::group_to_multiset_ensures;

    if s.len() > 0 {
        lemma_sort_desc(s.drop_last(), key);
        lemma_insert_desc(sort_desc(s.drop_last(), key), s.last(), key);
        assert(s =~= s.drop_last().push(s.last()));
    }
}

/// A ranked book's score is the highest score among its chapters, and it
/// has at least one chapter.
pub open spec fn scored_by_best_hit(g: GroupView) -> bool {
    &&& g.chapters.len() > 0
    &&& forall|c: int| 0 <= c < g.chapters.len() ==> (#[trigger] g.chapters[c]).score <= g.score
    &&& exists|c: int| 0 <= c < g.chapters.len() && (#[trigger] g.chapters[c]).score == g.score
}

proof fn lemma_group_hits_best(books: Seq<Book>, hits: Seq<AiChapter>)
    ensures
        forall|k: int| 0 <= k < group_hits(books, hits).len() ==> scored_by_best_hit(
            #[trigger] group_hits(books, hits)[k],
        ),
    decreases hits.len(),
{
    if hits.len() > 0 {
        lemma_group_hits_best(books, hits.drop_last());
        let gs = group_hits(books, hits.drop_last());
        let h = hits.last();
        let (url, title) = hit_owner(books, h.chapter_url@);
        lemma_find_group_bound(gs, url);
        match find_group(gs, url) {
            Some(i) => {
                let og = gs[i];
                assert(scored_by_best_hit(og));
                let ng = GroupView {
                    score: if h.score > og.score {
                        h.score
                    } else {
                        og.score
                    },
                    chapters: og.chapters.push(h),
                    ..og
                };
                assert(scored_by_best_hit(ng)) by {
                    assert forall|c: int| 0 <= c < ng.chapters.len() implies (
                    #[trigger] ng.chapters[c]).score <= ng.score by {
                        if c < og.chapters.len() {
                            assert(ng.chapters[c] == og.chapters[c]);
                        }
                    }
                    if h.score > og.score {
                        assert(ng.chapters[og.chapters.len() as int] == h);
                    } else {
                        let c = choose|c: int| 0 <= c < og.chapters.len() && (
                        #[trigger] og.chapters[c]).score == og.score;
                        assert(ng.chapters[c] == og.chapters[c]);
                    }
                }
                assert(group_hits(books, hits) == gs.update(i, ng));
            },
            None => {
                let ng = GroupView { url, title, score: h.score, genres: seq![], chapters: seq![h] };
                assert(ng.chapters[0] == h);
                assert(scored_by_best_hit(ng));
                assert(group_hits(books, hits) == gs.push(ng));
            },
        }
        assert forall|k: int| 0 <= k < group_hits(books, hits).len() implies scored_by_best_hit(
            #[trigger] group_hits(books, hits)[k],
        ) by {
            if k < gs.len() {
                assert(scored_by_best_hit(gs[k]));
            }
        }
    }
}

/// A book ranked from chapter hits is scored by its best hit: its score is
/// the highest score among the chapters grouped into it (at least one).
pub proof fn lemma_ranked_score_is_best_hit(books: Seq<Book>, hits: Seq<AiChapter>)
    ensures
        forall|k: int| 0 <= k < ranked_groups(books, hits).len() ==> {
            let g = #[trigger] ranked_groups(books, hits)[k];
            &&& g.chapters.len() > 0
            &&& forall|c: int| 0 <= c < g.chapters.len() ==> (#[trigger] g.chapters[c]).score <= g.score
            &&& exists|c: int| 0 <= c < g.chapters.len() && (#[trigger] g.chapters[c]).score == g.score
        },
{
    broadcast use vstd::seq_lib::group_to_multiset_ensures;

    lemma_group_hits_best(books, hits);
    let gs = group_hits(books, hits);
    let ms = gs.map_values(|g: GroupView| GroupView { chapters: sort_desc(g.chapters, chapter_key()), ..g });
    assert forall|k: int| 0 <= k < ms.len() implies scored_by_best_hit(#[trigger] ms[k]) by {
        let og = gs[k];
        let ng = ms[k];
        assert(scored_by_best_hit(og));
        lemma_sort_desc(og.chapters, chapter_key());
        assert(ng.chapters.to_multiset() == og.chapters.to_multiset());
        assert(ng.chapters.len() == og.chapters.len()) by {
            assert(ng.chapters.to_multiset().len() == og.chapters.to_multiset().len());
        }
        assert forall|c: int| 0 <= c < ng.chapters.len() implies (#[trigger] ng.chapters[c]).score
            <= ng.score by {
            assert(ng.chapters.contains(ng.chapters[c]));
            assert(og.chapters.to_multiset().count(ng.chapters[c]) > 0);
            assert(og.chapters.contains(ng.chapters[c]));
            let d = choose|d: int| 0 <= d < og.chapters.len() && og.chapters[d] == ng.chapters[c];
            assert(og.chapters[d].score <= og.score);
        }
        let c = choose|c: int| 0 <= c < og.chapters.len() && (#[trigger] og.chapters[c]).score
            == og.score;
        assert(og.chapters.contains(og.chapters[c]));
        assert(ng.chapters.to_multiset().count(og.chapters[c]) > 0);
        assert(ng.chapters.contains(og.chapters[c]));
        let d = choose|d: int| 0 <= d < ng.chapters.len() && ng.chapters[d] == og.chapters[c];
        assert(ng.chapters[d].score == ng.score);
    }
    lemma_sort_desc(ms, group_key());
    let rs = ranked_groups(books, hits);
    assert(rs == sort_desc(ms, group_key()));
    assert forall|k: int| 0 <= k < rs.len() implies scored_by_best_hit(#[trigger] rs[k]) by {
        assert(rs.contains(rs[k]));
        assert(ms.to_multiset().count(rs[k]) > 0);
        assert(ms.contains(rs[k]));
        let d = choose|d: int| 0 <= d < ms.len() && ms[d] == rs[k];
        assert(scored_by_best_hit(ms[d]));
    }
    assert forall|k: int| 0 <= k < rs.len() implies {
        let g = #[trigger] rs[k];
        &&& g.chapters.len() > 0
        &&& forall|c: int| 0 <= c < g.chapters.len() ==> (#[trigger] g.chapters[c]).score <= g.score
        &&& exists|c: int| 0 <= c < g.chapters.len() && (#[trigger] g.chapters[c]).score == g.score
    } by {
        assert(scored_by_best_hit(rs[k]));
    }
}

/// Search finds exactly the books that pass the filter, in library order.
pub proof fn lemma_search_exact(books: Seq<Book>, f: BookFilter, n: int, i: int)
    requires
        0 <= n <= books.len(),
        books.len() <= usize::MAX,
        0 <= i < n,
    ensures
        search_prefix(books, f, n).contains(i as usize) <==> book_matches(books[i], f),
    decreases n,
{
    lemma_search_prefix(books, f, n - 1);
    let p = search_prefix(books, f, n - 1);
    if i < n - 1 {
        lemma_search_exact(books, f, n - 1, i);
        if book_matches(books[n - 1], f) {
            assert(search_prefix(books, f, n) == p.push((n - 1) as usize));
            if search_prefix(books, f, n).contains(i as usize) {
                let k = choose|k: int| 0 <= k < p.len() + 1 && #[trigger] search_prefix(books, f, n)[k] == i as usize;
                if k < p.len() {
                    assert(p[k] == i as usize);
                } else {
                    assert((n - 1) as usize == i as usize);
                    assert(false);
                }
            }
            if p.contains(i as usize) {
                let k = choose|k: int| 0 <= k < p.len() && p[k] == i as usize;
                assert(search_prefix(books, f, n)[k] == i as usize);
            }
        }
    } else {
        assert(i == n - 1);
        if book_matches(books[i], f) {
            assert(search_prefix(books, f, n) == p.push((n - 1) as usize));
            assert(search_prefix(books, f, n)[p.len() as int] == i as usize);
        } else {
            if p.contains(i as usize) {
                let k = choose|k: int| 0 <= k < p.len() && p[k] == i as usize;
                assert(p[k] < n - 1);
            }
        }
    }
}

/// A filter with no name, tags or status lets every book through.
pub proof fn lemma_unconstrained_search(books: Seq<Book>, f: BookFilter, n: int)
    requires
        0 <= n <= books.len(),
        books.len() <= usize::MAX,
        trim(f.name@).len() == 0,
        f.tags@.len() == 0,
        f.status is None,
    ensures
        search_prefix(books, f, n) == Seq::new(n as nat, |k: int| k as usize),
    decreases n,
{
    if n > 0 {
        lemma_unconstrained_search(books, f, n - 1);
        assert(search_prefix(books, f, n) =~= Seq::new(n as nat, |k: int| k as usize));
    } else {
        assert(search_prefix(books, f, n) =~= Seq::new(n as nat, |k: int| k as usize));
    }
}


/// A library book after a scrape of it: the scraped title, cover,
/// description and chapters, with the reader's status, tags and sessions.
pub open spec fn scraped_into(existing: Book, scraped: Book) -> Book {
    Book {
        title: scraped.title,
        cover_url: scraped.cover_url,
        description: scraped.description,
        chapters: scraped.chapters,
        ..existing
    }
}

impl Library {
    /// Takes in a scraped book: the book already in the library at its URL
    /// (the first) is updated by the scrape and keeps what the reader gave
    /// it; an unknown book is added at the end. Answers the book's position.
    pub fn merge_scraped_book(&mut self, book: Book) -> (r: usize)
        ensures
            match position_of(book_urls(old(self).books@), book.url@) {
                Some(k) => r == k && final(self).books@ == old(self).books@.update(
                    k,
                    scraped_into(old(self).books@[k], book),
                ),
                None => r == old(self).books@.len() && final(self).books@ == old(
                    self,
                ).books@.push(book),
            },
            r < final(self).books@.len(),
            final(self).selected_index == old(self).selected_index,
            final(self).filter == old(self).filter,
            final(self).ai == old(self).ai,
    {
        match find_book(&self.books, book.url.as_str()) {
            Some(k) => {
                let mut b = self.books.remove(k);
                let ghost ob = b;
                b.title = book.title;
                b.cover_url = book.cover_url;
                b.description = book.description;
                b.chapters = book.chapters;
                assert(b == scraped_into(ob, book));
                self.books.insert(k, b);
                assert(self.books@ =~= old(self).books@.update(k as int, scraped_into(ob, book)));
                k
            },
            None => {
                let n = self.books.len();
                self.books.push(book);
                n
            },
        }
    }
}

/// A scrape changes only what it scraped: the reader's status, tags,
/// sessions and active session of a book already in the library stay.
pub proof fn lemma_scrape_keeps_reader_data(existing: Book, scraped: Book)
    ensures
        scraped_into(existing, scraped).status == existing.status,
        scraped_into(existing, scraped).tags == existing.tags,
        scraped_into(existing, scraped).sessions == existing.sessions,
        scraped_into(existing, scraped).active_session_id == existing.active_session_id,
        scraped_into(existing, scraped).url == existing.url,
        scraped_into(existing, scraped).chapters == scraped.chapters,
        scraped_into(existing, scraped).title == scraped.title,
        scraped_into(existing, scraped).description == scraped.description,
        scraped_into(existing, scraped).cover_url == scraped.cover_url,
{
}

/// Merging a scrape of a book the library already has (as
/// `merge_scraped_book` does) replaces that book's title, cover,
/// description and chapters by the scraped ones and keeps the reader's
/// status, tags, sessions and active session; no other book changes.
pub proof fn lemma_merge_known_book(before: Seq<Book>, after: Seq<Book>, scraped: Book, r: usize)
    requires
        position_of(book_urls(before), scraped.url@) == Some(r as int),
        after == before.update(r as int, scraped_into(before[r as int], scraped)),
    ensures
        0 <= r < before.len(),
        after.len() == before.len(),
        after[r as int].title == scraped.title,
        after[r as int].description == scraped.description,
        after[r as int].cover_url == scraped.cover_url,
        after[r as int].chapters == scraped.chapters,
        after[r as int].url == before[r as int].url,
        after[r as int].status == before[r as int].status,
        after[r as int].tags == before[r as int].tags,
        after[r as int].sessions == before[r as int].sessions,
        after[r as int].active_session_id == before[r as int].active_session_id,
        forall|k: int| 0 <= k < before.len() && k != r ==> after[k] == before[k],
{
    lemma_position_of_bound(book_urls(before), scraped.url@);
}

} // verus!
