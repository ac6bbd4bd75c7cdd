//! The library's filter dialog: its rows, the facets being edited, and what
//! Enter does with them (apply the filter, or start an AI search).
use vstd::prelude::*;
use crate::library::{
    filter_tags, has_tag, known_tags, strictly_sorted, tags_matching, BookFilter, Library,
};
use crate::models::{Book, BookStatus};
use crate::text::{pop_char, push_char, str_eq, trim, trim_str, views};

verus! {

/// A row of the filter dialog.
#[derive(Debug, Clone, Copy, PartialEq, Eq, Structural)]
pub enum FilterRow {
    Status,
    Search,
    Tags,
    Library,
    Ai,
}

/// The filter dialog: the filter being edited and where each row stands.
#[derive(Debug)]
pub struct FilterDialog {
    pub working: BookFilter,
    pub focus: FilterRow,
    /// What narrows the tag list.
    pub tag_query: String,
    pub tag_cursor: usize,
    pub tag_scroll: usize,
    /// The row among `[any, Reading, Paused, Dropped, Completed]`.
    pub status_cursor: usize,
    /// The row among `[any, backends...]`.
    pub lib_cursor: usize,
    pub ai_query: String,
}

/// A key the filter dialog answers.
#[derive(Debug, Clone, Copy, PartialEq, Eq, Structural)]
pub enum FilterKey {
    RowNext,
    RowPrev,
    Up,
    Down,
    Enter,
    Backspace,
    Char(char),
    Other,
}

/// What became of the dialog after a key.
#[derive(Debug, PartialEq)]
pub enum FilterOutcome {
    /// It stays open.
    Open,
    /// The filter was applied and the dialog closes; the books are to be
    /// read again when the library facet changed.
    Committed { library_changed: bool },
    /// An AI search for this query started and the dialog closes.
    AiSearch(String),
}

/// The row after `r` in the cycle Status → Search → Tags → Library → AI →
/// Status.
pub open spec fn row_after(r: FilterRow) -> FilterRow {
    match r {
        FilterRow::Status => FilterRow::Search,
        FilterRow::Search => FilterRow::Tags,
        FilterRow::Tags => FilterRow::Library,
        FilterRow::Library => FilterRow::Ai,
        FilterRow::Ai => FilterRow::Status,
    }
}

/// The row before `r` in the cycle.
pub open spec fn row_before(r: FilterRow) -> FilterRow {
    match r {
        FilterRow::Status => FilterRow::Ai,
        FilterRow::Search => FilterRow::Status,
        FilterRow::Tags => FilterRow::Search,
        FilterRow::Library => FilterRow::Tags,
        FilterRow::Ai => FilterRow::Library,
    }
}

/// The status a status row stands for (rows past the last are none).
pub open spec fn status_row(i: int) -> Option<BookStatus> {
    if i == 1 {
        Some(BookStatus::Reading)
    } else if i == 2 {
        Some(BookStatus::Paused)
    } else if i == 3 {
        Some(BookStatus::Dropped)
    } else if i == 4 {
        Some(BookStatus::Completed)
    } else {
        None
    }
}

/// Whether `cands` is the tag list the dialog offers: the books' tags, each
/// once, sorted, narrowed by the tag query.
pub open spec fn tag_candidates(books: Seq<Book>, query: Seq<char>, cands: Seq<Seq<char>>) -> bool {
    exists|k: Seq<Seq<char>>|
        #![trigger strictly_sorted(k)]
        strictly_sorted(k) && (forall|t: Seq<char>| k.contains(t) <==> has_tag(books, t)) && cands
            == (if trim(query).len() == 0 {
            k
        } else {
            tags_matching(k, query)
        })
}

/// A cursor moved one step in `dir` over `len` rows, kept within them.
pub open spec fn cursor_step(c: usize, len: nat, dir: int) -> usize {
    if dir > 0 && len > 0 && c + 1 < len {
        (c + 1) as usize
    } else if dir < 0 && len > 0 && c > 0 {
        (c - 1) as usize
    } else {
        c
    }
}

/// A tag list with `t` taken out where it first stands, or added at the
/// end when it is not there.
pub open spec fn toggled(tags: Seq<Seq<char>>, t: Seq<char>) -> Seq<Seq<char>> {
    match tags.index_of_first(t) {
        Some(k) => tags.remove(k),
        None => tags.push(t),
    }
}

/// Whether the dialog changed only in its focused text: `c` typed into the
/// search, tag query or AI query it focuses (nothing on other rows).
pub open spec fn typed(d: FilterDialog, n: FilterDialog, c: char) -> bool {
    match d.focus {
        FilterRow::Search => n.working.name@ == d.working.name@.push(c) && n == FilterDialog {
            working: BookFilter { name: n.working.name, ..d.working },
            ..d
        },
        FilterRow::Tags => n.tag_query@ == d.tag_query@.push(c) && n == FilterDialog {
            tag_query: n.tag_query,
            ..d
        },
        FilterRow::Ai => n.ai_query@ == d.ai_query@.push(c) && n == FilterDialog {
            ai_query: n.ai_query,
            ..d
        },
        _ => n == d,
    }
}

/// A text after a backspace: its last character gone, if it has one.
pub open spec fn backspaced(s: Seq<char>) -> Seq<char> {
    if s.len() > 0 {
        s.drop_last()
    } else {
        s
    }
}

/// What a backspace does to the focused text.
pub open spec fn erased(d: FilterDialog, n: FilterDialog) -> bool {
    match d.focus {
        FilterRow::Search => n.working.name@ == backspaced(d.working.name@) && n == FilterDialog {
            working: BookFilter { name: n.working.name, ..d.working },
            ..d
        },
        FilterRow::Tags => n.tag_query@ == backspaced(d.tag_query@) && n == FilterDialog {
            tag_query: n.tag_query,
            ..d
        },
        FilterRow::Ai => n.ai_query@ == backspaced(d.ai_query@) && n == FilterDialog {
            ai_query: n.ai_query,
            ..d
        },
        _ => n == d,
    }
}

/// Whether a key types on the focused row: every character on the text
/// rows; on the other rows, every character but the space (which picks)
/// and `c` (which clears).
pub open spec fn types_char(focus: FilterRow, c: char) -> bool {
    focus == FilterRow::Search || focus == FilterRow::Ai || (c != ' ' && c != 'c')
}

/// What a character does: on a row where it types, it is typed; `c`
/// clears the name, tags and status; the space picks the row under the
/// focused cursor (a tag is toggled, a status or library chosen).
pub open spec fn picked_or_typed(
    d: FilterDialog,
    n: FilterDialog,
    c: char,
    books: Seq<Book>,
    names: Seq<String>,
) -> bool {
    if types_char(d.focus, c) {
        typed(d, n, c)
    } else if c == 'c' {
        n.working.name@.len() == 0 && n.working.tags@.len() == 0 && n == FilterDialog {
            working: BookFilter {
                name: n.working.name,
                tags: n.working.tags,
                status: None,
                ..d.working
            },
            ..d
        }
    } else {
        match d.focus {
            FilterRow::Tags => exists|cands: Seq<Seq<char>>|
                tag_candidates(books, d.tag_query@, cands) && if d.tag_cursor < cands.len() {
                    views(n.working.tags@) == toggled(
                        views(d.working.tags@),
                        cands[d.tag_cursor as int],
                    ) && n == FilterDialog {
                        working: BookFilter { tags: n.working.tags, ..d.working },
                        ..d
                    }
                } else {
                    n == d
                },
            FilterRow::Status => n == FilterDialog {
                working: BookFilter { status: status_row(d.status_cursor as int), ..d.working },
                ..d
            },
            _ => if d.lib_cursor == 0 {
                n == FilterDialog { working: BookFilter { library: None, ..d.working }, ..d }
            } else if d.lib_cursor <= names.len() {
                n == FilterDialog {
                    working: BookFilter { library: Some(names[d.lib_cursor - 1]), ..d.working },
                    ..d
                }
            } else {
                n == d
            },
        }
    }
}

/// Whether two filters have the same facets.
pub open spec fn same_filter(a: BookFilter, b: BookFilter) -> bool {
    a.name == b.name && a.tags@ == b.tags@ && a.status == b.status && a.library == b.library
}

/// A filter with the same facets.
pub(crate) fn copy_filter(f: &BookFilter) -> (r: BookFilter)
    ensures
        same_filter(r, *f),
{
    let tags = f.tags.clone();
    assert(tags@ =~= f.tags@);
    BookFilter {
        name: f.name.clone(),
        tags,
        status: f.status,
        library: match &f.library {
            Some(l) => Some(l.clone()),
            None => None,
        },
    }
}

fn same_library(a: &Option<String>, b: &Option<String>) -> (r: bool)
    ensures
        r == (match (a, b) {
            (Some(x), Some(y)) => x@ == y@,
            (None, None) => true,
            _ => false,
        }),
{
    match (a, b) {
        (Some(x), Some(y)) => str_eq(x.as_str(), y.as_str()),
        (None, None) => true,
        _ => false,
    }
}

/// The first position of `t` in `v`, if it is there.
fn position_of_tag(v: &Vec<String>, t: &String) -> (r: Option<usize>)
    ensures
        match r {
            Some(k) => views(v@).index_of_first(t@) == Some(k as int) && k < v@.len(),
            None => views(v@).index_of_first(t@) is None,
        },
{
    let ghost s = views(v@);
    proof {
        s.index_of_first_ensures(t@);
    }
    let mut i: usize = 0;
    while i < v.len()
        invariant
            i <= v.len(),
            s == views(v@),
            forall|k: int| 0 <= k < i ==> s[k] != t@,
            match s.index_of_first(t@) {
                Some(index) => {
                    &&& s.contains(t@)
                    &&& 0 <= index < s.len()
                    &&& s[index] == t@
                    &&& forall|j: int| 0 <= j < index < s.len() ==> s[j] != t@
                },
                None => !s.contains(t@),
            },
        decreases v.len() - i,
    {
        if str_eq(v[i].as_str(), t.as_str()) {
            assert(s[i as int] == t@);
            assert(s.contains(t@));
            let ghost k = s.index_of_first(t@)->0;
            assert(k == i) by {
                if k < i {
                    assert(s[k] != t@);
                }
                if k > i {
                    assert(s[i as int] != t@);
                }
            }
            return Some(i);
        }
        i = i + 1;
    }
    assert(!s.contains(t@)) by {
        if s.contains(t@) {
            let k = choose|k: int| 0 <= k < s.len() && s[k] == t@;
            assert(s[k] != t@);
        }
    }
    None
}

/// The dialog's answer to a key: `d` and `l` before, `n` and `m` after.
pub open spec fn filter_step(
    d: FilterDialog,
    n: FilterDialog,
    l: Library,
    m: Library,
    key: FilterKey,
    names: Seq<String>,
    r: FilterOutcome,
) -> bool {
    &&& (key == FilterKey::RowNext ==> r == FilterOutcome::Open && m == l && n == FilterDialog {
        focus: row_after(d.focus),
        ..d
    })
    &&& (key == FilterKey::RowPrev ==> r == FilterOutcome::Open && m == l && n == FilterDialog {
        focus: row_before(d.focus),
        ..d
    })
    &&& (key == FilterKey::Up || key == FilterKey::Down ==> {
        let dir: int = if key == FilterKey::Down {
            1
        } else {
            -1
        };
        &&& r == FilterOutcome::Open
        &&& m == l
        &&& match d.focus {
            FilterRow::Tags => exists|cands: Seq<Seq<char>>|
                tag_candidates(l.books@, d.tag_query@, cands) && n == FilterDialog {
                    tag_cursor: cursor_step(d.tag_cursor, cands.len(), dir),
                    ..d
                },
            FilterRow::Status => n == FilterDialog {
                status_cursor: cursor_step(d.status_cursor, 5, dir),
                ..d
            },
            FilterRow::Library => n == FilterDialog {
                lib_cursor: cursor_step(d.lib_cursor, names.len() + 1, dir),
                ..d
            },
            _ => n == d,
        }
    })
    &&& (key matches FilterKey::Char(c) ==> r == FilterOutcome::Open && m == l && picked_or_typed(
        d,
        n,
        c,
        l.books@,
        names,
    ))
    &&& (key == FilterKey::Backspace ==> r == FilterOutcome::Open && m == l && erased(d, n))
    &&& (key == FilterKey::Enter && d.focus == FilterRow::Ai ==> if trim(d.ai_query@).len() == 0 {
        r == FilterOutcome::Open && m == l && n == d
    } else {
        &&& r matches FilterOutcome::AiSearch(q) && q@ == trim(d.ai_query@)
        &&& n == d
        &&& m.ai is Some
        &&& m.ai->0.query@ == trim(d.ai_query@)
        &&& m.books == l.books
        &&& m.filter == l.filter
        &&& m.selected_index == 0
    })
    &&& (key == FilterKey::Enter && d.focus != FilterRow::Ai ==> {
        &&& r == FilterOutcome::Committed {
            library_changed: !(match (d.working.library, l.filter.library) {
                (Some(x), Some(y)) => x@ == y@,
                (None, None) => true,
                _ => false,
            }),
        }
        &&& n == d
        &&& same_filter(m.filter, d.working)
        &&& m.selected_index == 0
        &&& m.books == l.books
        &&& m.ai == l.ai
    })
    &&& (key == FilterKey::Other ==> r == FilterOutcome::Open && m == l && n == d)
}

/// The dialog's answer to a key. Tab and Shift-Tab cycle the rows; the
/// arrows move the focused list's cursor; on the status, tag and library
/// rows the space picks the row under the cursor and `c` clears the
/// name, tags and status; other characters and backspace edit the focused
/// text. Enter on the AI row starts a search for the trimmed query (a
/// blank query does nothing); elsewhere it applies the filter.
pub fn handle_filter(
    d: &mut FilterDialog,
    lib: &mut Library,
    key: FilterKey,
    backend_names: &[String],
) -> (r: FilterOutcome)
    requires
        old(d).focus == FilterRow::Status && key == FilterKey::Char(' ') ==> old(d).status_cursor
            < 5,
        backend_names@.len() < usize::MAX,
    ensures
        filter_step(*old(d), *final(d), *old(lib), *final(lib), key, backend_names@, r),
{
    match key {
        FilterKey::RowNext => {
            d.focus = match d.focus {
                FilterRow::Status => FilterRow::Search,
                FilterRow::Search => FilterRow::Tags,
                FilterRow::Tags => FilterRow::Library,
                FilterRow::Library => FilterRow::Ai,
                FilterRow::Ai => FilterRow::Status,
            };
            FilterOutcome::Open
        },
        FilterKey::RowPrev => {
            d.focus = match d.focus {
                FilterRow::Status => FilterRow::Ai,
                FilterRow::Search => FilterRow::Status,
                FilterRow::Tags => FilterRow::Search,
                FilterRow::Library => FilterRow::Tags,
                FilterRow::Ai => FilterRow::Library,
            };
            FilterOutcome::Open
        },
        FilterKey::Up | FilterKey::Down => {
            let down = key == FilterKey::Down;
            let len: usize = match d.focus {
                FilterRow::Tags => {
                    let known = known_tags(lib.books.as_slice());
                    let tags = filter_tags(known.as_slice(), d.tag_query.as_str());
                    proof {
                        assert(strictly_sorted(views(known@)));
                        assert(tag_candidates(lib.books@, d.tag_query@, views(tags@)));
                    }
                    tags.len()
                },
                FilterRow::Status => 5,
                FilterRow::Library => backend_names.len() + 1,
                _ => 0,
            };
            let c: usize = match d.focus {
                FilterRow::Tags => d.tag_cursor,
                FilterRow::Status => d.status_cursor,
                FilterRow::Library => d.lib_cursor,
                _ => 0,
            };
            let moved: usize = if down && len > 0 && c < len - 1 {
                c + 1
            } else if !down && len > 0 && c > 0 {
                c - 1
            } else {
                c
            };
            match d.focus {
                FilterRow::Tags => d.tag_cursor = moved,
                FilterRow::Status => d.status_cursor = moved,
                FilterRow::Library => d.lib_cursor = moved,
                _ => {},
            }
            FilterOutcome::Open
        },
        FilterKey::Char(c) => {
            let text_row = match d.focus {
                FilterRow::Search | FilterRow::Ai => true,
                _ => false,
            };
            if text_row || (c != ' ' && c != 'c') {
                match d.focus {
                    FilterRow::Search => push_char(&mut d.working.name, c),
                    FilterRow::Tags => push_char(&mut d.tag_query, c),
                    FilterRow::Ai => push_char(&mut d.ai_query, c),
                    _ => {},
                }
            } else if c == 'c' {
                d.working.name = String::new();
                d.working.tags = Vec::new();
                d.working.status = None;
            } else {
                match d.focus {
                    FilterRow::Tags => {
                        let known = known_tags(lib.books.as_slice());
                        let tags = filter_tags(known.as_slice(), d.tag_query.as_str());
                        proof {
                            assert(strictly_sorted(views(known@)));
                            assert(tag_candidates(lib.books@, d.tag_query@, views(tags@)));
                        }
                        if d.tag_cursor < tags.len() {
                            let tag = &tags[d.tag_cursor];
                            match position_of_tag(&d.working.tags, tag) {
                                Some(pos) => {
                                    let ghost before = views(d.working.tags@);
                                    d.working.tags.remove(pos);
                                    assert(views(d.working.tags@) =~= before.remove(pos as int));
                                },
                                None => {
                                    let ghost before = views(d.working.tags@);
                                    d.working.tags.push(tag.clone());
                                    assert(views(d.working.tags@) =~= before.push(tag@));
                                },
                            }
                        }
                    },
                    FilterRow::Status => {
                        let i = d.status_cursor;
                        d.working.status = if i == 1 {
                            Some(BookStatus::Reading)
                        } else if i == 2 {
                            Some(BookStatus::Paused)
                        } else if i == 3 {
                            Some(BookStatus::Dropped)
                        } else if i == 4 {
                            Some(BookStatus::Completed)
                        } else {
                            None
                        };
                    },
                    _ => {
                        if d.lib_cursor == 0 {
                            d.working.library = None;
                        } else if d.lib_cursor <= backend_names.len() {
                            d.working.library = Some(backend_names[d.lib_cursor - 1].clone());
                        }
                    },
                }
            }
            FilterOutcome::Open
        },
        FilterKey::Backspace => {
            match d.focus {
                FilterRow::Search => {
                    pop_char(&mut d.working.name);
                },
                FilterRow::Tags => {
                    pop_char(&mut d.tag_query);
                },
                FilterRow::Ai => {
                    pop_char(&mut d.ai_query);
                },
                _ => {},
            }
            FilterOutcome::Open
        },
        FilterKey::Enter => {
            if d.focus == FilterRow::Ai {
                let query = trim_str(d.ai_query.as_str());
                if query.as_str().is_empty() {
                    return FilterOutcome::Open;
                }
                let q2 = query.clone();
                lib.set_ai_searching(query);
                FilterOutcome::AiSearch(q2)
            } else {
                let changed = !same_library(&d.working.library, &lib.filter.library);
                lib.filter = copy_filter(&d.working);
                lib.selected_index = 0;
                FilterOutcome::Committed { library_changed: changed }
            }
        },
        FilterKey::Other => FilterOutcome::Open,
    }
}

} // verus!
