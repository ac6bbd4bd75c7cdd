//! Picking chapters: which are already embedded, moving over them, the
//! chapters picked for embedding, the chapters a query finds, and the
//! embedding status kept per book.
use vstd::prelude::*;
use crate::models::Chapter;
use crate::text::{contains_chars, contains_sub, lowercase, str_eq, str_is_blank, to_chars, to_lowercase, trim, views};

verus! {

/// Whether a chapter's URL is among the embedded ones.
pub open spec fn embedded(ch: Chapter, urls: Seq<Seq<char>>) -> bool {
    urls.contains(ch.url@)
}

/// Whether a chapter already has an embedding.
pub fn is_embedded(ch: &Chapter, embedded_urls: &[String]) -> (r: bool)
    ensures
        r == embedded(*ch, views(embedded_urls@)),
{
    let mut i: usize = 0;
    while i < embedded_urls.len()
        invariant
            i <= embedded_urls.len(),
            forall|k: int| 0 <= k < i ==> embedded_urls@[k]@ != ch.url@,
        decreases embedded_urls.len() - i,
    {
        if str_eq(embedded_urls[i].as_str(), ch.url.as_str()) {
            assert(views(embedded_urls@)[i as int] == ch.url@);
            return true;
        }
        i = i + 1;
    }
    assert(!views(embedded_urls@).contains(ch.url@)) by {
        if views(embedded_urls@).contains(ch.url@) {
            let k = choose|k: int| 0 <= k < views(embedded_urls@).len() && views(embedded_urls@)[k]
                == ch.url@;
            assert(embedded_urls@[k]@ == ch.url@);
        }
    }
    false
}

/// From `idx`, the first chapter not embedded going `dir` at a time;
/// nothing when every chapter from there to the end of the list in that
/// direction is embedded.
pub open spec fn walk_selectable(chs: Seq<Chapter>, urls: Seq<Seq<char>>, idx: int, dir: int) -> Option<int>
    decreases (if dir > 0 {
        chs.len() - idx
    } else {
        idx + 1
    }),
    when 0 <= idx < chs.len() && dir != 0
{
    if !embedded(chs[idx], urls) {
        Some(idx)
    } else if idx + dir < 0 || idx + dir >= chs.len() {
        None
    } else {
        walk_selectable(chs, urls, idx + dir, dir)
    }
}

/// What a walk finds is a chapter of the list that is not embedded.
pub proof fn lemma_walk_selectable(chs: Seq<Chapter>, urls: Seq<Seq<char>>, idx: int, dir: int)
    requires
        0 <= idx < chs.len(),
        dir != 0,
    ensures
        match walk_selectable(chs, urls, idx, dir) {
            Some(k) => 0 <= k < chs.len() && !embedded(chs[k], urls),
            None => true,
        },
    decreases (if dir > 0 {
        chs.len() - idx
    } else {
        idx + 1
    }),
{
    if embedded(chs[idx], urls) && !(idx + dir < 0 || idx + dir >= chs.len()) {
        lemma_walk_selectable(chs, urls, idx + dir, dir);
    }
}

/// `x` kept within `lo..=hi`.
pub open spec fn clamp(x: int, lo: int, hi: int) -> int {
    if x < lo {
        lo
    } else if x > hi {
        hi
    } else {
        x
    }
}

/// The cursor after moving one step in `dir` over the chapters, clamped to
/// the list and skipping the embedded ones; it stays where it is when no
/// chapter that is not embedded lies in that direction.
pub open spec fn next_selectable_spec(
    cursor: int,
    chs: Seq<Chapter>,
    urls: Seq<Seq<char>>,
    dir: int,
) -> int {
    if chs.len() == 0 {
        0
    } else {
        let start = clamp(cursor + dir, 0, chs.len() - 1);
        if !embedded(chs[start], urls) {
            start
        } else {
            match walk_selectable(chs, urls, start, dir) {
                Some(k) => k,
                None => cursor,
            }
        }
    }
}

/// Moves the cursor to the next chapter that is not embedded in direction
/// `dir`, clamped to the list; embedded chapters are not selectable, so the
/// cursor stays put when only embedded ones lie that way. A step of 0 onto
/// an embedded chapter would never end, and the positions are those of
/// 32-bit arithmetic.
pub fn next_selectable(cursor: usize, chapters: &[Chapter], embedded_urls: &[String], dir: i32) -> (r: usize)
    requires
        chapters@.len() <= i32::MAX,
        cursor + dir <= i32::MAX,
        cursor + dir >= i32::MIN,
        dir == 0 && chapters@.len() > 0 ==> !embedded(
            chapters@[clamp(cursor + dir, 0, chapters@.len() - 1)],
            views(embedded_urls@),
        ),
    ensures
        r == next_selectable_spec(cursor as int, chapters@, views(embedded_urls@), dir as int),
        chapters@.len() > 0 && r != cursor ==> r < chapters@.len() && !embedded(
            chapters@[r as int],
            views(embedded_urls@),
        ),
{
    let len = chapters.len();
    if len == 0 {
        return 0;
    }
    let x: i64 = cursor as i64 + dir as i64;
    let hi: i64 = len as i64 - 1;
    let mut idx: i64 = if x < 0 {
        0
    } else if x > hi {
        hi
    } else {
        x
    };
    let ghost start = idx as int;
    if !is_embedded(&chapters[idx as usize], embedded_urls) {
        return idx as usize;
    }
    loop
        invariant
            0 <= idx <= hi,
            hi == len - 1,
            len == chapters@.len(),
            len <= i32::MAX,
            dir != 0,
            0 <= start <= hi,
            embedded(chapters@[start], views(embedded_urls@)),
            cursor as int + dir as int == x as int,
            start == clamp(x as int, 0, hi as int),
            walk_selectable(chapters@, views(embedded_urls@), start, dir as int) == walk_selectable(
                chapters@,
                views(embedded_urls@),
                idx as int,
                dir as int,
            ),
        decreases (if dir > 0 {
            len - idx
        } else {
            idx + 1
        }),
    {
        if !is_embedded(&chapters[idx as usize], embedded_urls) {
            proof {
                lemma_walk_selectable(chapters@, views(embedded_urls@), start, dir as int);
            }
            return idx as usize;
        }
        let next = idx + dir as i64;
        if next < 0 || next > hi {
            return cursor;
        }
        idx = next;
    }
}

/// The chapters marked selected (as far as both lists go), in order.
pub open spec fn picked(chs: Seq<Chapter>, sel: Seq<bool>, n: int) -> Seq<Chapter>
    decreases n,
{
    if n <= 0 {
        seq![]
    } else if sel[n - 1] {
        picked(chs, sel, n - 1).push(chs[n - 1])
    } else {
        picked(chs, sel, n - 1)
    }
}

/// The chapters of `chs` not embedded, in order.
pub open spec fn not_embedded(chs: Seq<Chapter>, urls: Seq<Seq<char>>) -> Seq<Chapter>
    decreases chs.len(),
{
    if chs.len() == 0 {
        seq![]
    } else if embedded(chs.last(), urls) {
        not_embedded(chs.drop_last(), urls)
    } else {
        not_embedded(chs.drop_last(), urls).push(chs.last())
    }
}

/// The smaller of two lengths.
pub open spec fn min_len(a: nat, b: nat) -> int {
    if a < b {
        a as int
    } else {
        b as int
    }
}

/// The chapters currently selected.
pub fn selected_chapters(chapters: &[Chapter], selected: &[bool]) -> (r: Vec<Chapter>)
    ensures
        r@ == picked(chapters@, selected@, min_len(chapters@.len(), selected@.len())),
{
    let n = if chapters.len() < selected.len() {
        chapters.len()
    } else {
        selected.len()
    };
    let mut r: Vec<Chapter> = Vec::new();
    let mut i: usize = 0;
    while i < n
        invariant
            i <= n,
            n <= chapters@.len(),
            n <= selected@.len(),
            r@ == picked(chapters@, selected@, i as int),
        decreases n - i,
    {
        if selected[i] {
            r.push(chapters[i].clone());
        }
        i = i + 1;
    }
    r
}

/// The selected chapters that are not embedded yet.
pub fn selected_embeddable_chapters(
    chapters: &[Chapter],
    selected: &[bool],
    embedded_urls: &[String],
) -> (r: Vec<Chapter>)
    ensures
        r@ == not_embedded(
            picked(chapters@, selected@, min_len(chapters@.len(), selected@.len())),
            views(embedded_urls@),
        ),
{
    let picked_v = selected_chapters(chapters, selected);
    let mut r: Vec<Chapter> = Vec::new();
    let mut i: usize = 0;
    while i < picked_v.len()
        invariant
            i <= picked_v.len(),
            r@ == not_embedded(picked_v@.take(i as int), views(embedded_urls@)),
        decreases picked_v.len() - i,
    {
        assert(picked_v@.take(i + 1).drop_last() =~= picked_v@.take(i as int));
        assert(picked_v@.take(i + 1).last() == picked_v@[i as int]);
        if !is_embedded(&picked_v[i], embedded_urls) {
            r.push(picked_v[i].clone());
        }
        i = i + 1;
    }
    assert(picked_v@.take(picked_v.len() as int) =~= picked_v@);
    r
}

/// The chapters a query finds: all for a blank query, else those whose
/// title or URL holds the query, all lowercased.
pub open spec fn chapters_matching(chs: Seq<Chapter>, query: Seq<char>) -> Seq<Chapter>
    decreases chs.len(),
{
    if chs.len() == 0 {
        seq![]
    } else {
        let rest = chapters_matching(chs.drop_last(), query);
        let c = chs.last();
        if contains_sub(lowercase(c.title@), lowercase(query)) || contains_sub(
            lowercase(c.url@),
            lowercase(query),
        ) {
            rest.push(c)
        } else {
            rest
        }
    }
}

/// The chapters a jump query finds.
pub fn filter_chapters(chapters: &[Chapter], query: &str) -> (r: Vec<Chapter>)
    ensures
        r@ == (if trim(query@).len() == 0 {
            chapters@
        } else {
            chapters_matching(chapters@, query@)
        }),
{
    let blank = str_is_blank(query);
    let q = to_chars(to_lowercase(query).as_str());
    let mut r: Vec<Chapter> = Vec::new();
    let mut i: usize = 0;
    while i < chapters.len()
        invariant
            i <= chapters.len(),
            blank == (trim(query@).len() == 0),
            q@ == lowercase(query@),
            r@ == (if blank {
                chapters@.take(i as int)
            } else {
                chapters_matching(chapters@.take(i as int), query@)
            }),
        decreases chapters.len() - i,
    {
        assert(chapters@.take(i + 1).drop_last() =~= chapters@.take(i as int));
        assert(chapters@.take(i + 1).last() == chapters@[i as int]);
        let c = &chapters[i];
        if blank {
            r.push(c.clone());
        } else {
            let t = to_chars(to_lowercase(c.title.as_str()).as_str());
            let u = to_chars(to_lowercase(c.url.as_str()).as_str());
            if contains_chars(&t, &q) || contains_chars(&u, &q) {
                r.push(c.clone());
            }
        }
        i = i + 1;
    }
    assert(chapters@.take(chapters.len() as int) =~= chapters@);
    r
}

/// How far a book's chapters are embedded, as the server reports it.
#[derive(Debug, PartialEq)]
pub struct EmbeddingStatus {
    pub embedded_chapters: usize,
    pub total_chapters: usize,
    pub aggregate: bool,
    pub genres: Vec<String>,
    pub embedded_chapter_urls: Vec<String>,
}

impl Clone for EmbeddingStatus {
    fn clone(&self) -> (r: Self)
        ensures
            r.embedded_chapters == self.embedded_chapters,
            r.total_chapters == self.total_chapters,
            r.aggregate == self.aggregate,
            views(r.genres@) == views(self.genres@),
            views(r.embedded_chapter_urls@) == views(self.embedded_chapter_urls@),
    {
        EmbeddingStatus {
            embedded_chapters: self.embedded_chapters,
            total_chapters: self.total_chapters,
            aggregate: self.aggregate,
            genres: clone_strings(&self.genres),
            embedded_chapter_urls: clone_strings(&self.embedded_chapter_urls),
        }
    }
}

/// A copy of a list of strings.
fn clone_strings(v: &Vec<String>) -> (r: Vec<String>)
    ensures
        views(r@) == views(v@),
{
    let mut r: Vec<String> = Vec::new();
    let mut i: usize = 0;
    while i < v.len()
        invariant
            i <= v.len(),
            views(r@) == views(v@).take(i as int),
        decreases v.len() - i,
    {
        let ghost before = views(r@);
        r.push(v[i].clone());
        assert(views(r@) =~= before.push(v@[i as int]@));
        assert(views(v@).take(i + 1) =~= views(v@).take(i as int).push(v@[i as int]@));
        i = i + 1;
    }
    assert(views(v@).take(v.len() as int) =~= views(v@));
    r
}

/// The embedded chapter URLs last known per book.
pub open spec fn cached_urls(entries: Seq<(Seq<char>, Seq<Seq<char>>)>, url: Seq<char>) -> Option<
    Seq<Seq<char>>,
>
    decreases entries.len(),
{
    if entries.len() == 0 {
        None
    } else if entries.last().0 == url {
        Some(entries.last().1)
    } else {
        cached_urls(entries.drop_last(), url)
    }
}

/// The embedding status last fetched for each book, latest last.
#[derive(Debug)]
pub struct StatusCache {
    pub entries: Vec<(String, EmbeddingStatus)>,
}

impl StatusCache {
    /// What the cache knows: each book's embedded chapter URLs, in order of
    /// storing.
    pub open spec fn known(&self) -> Seq<(Seq<char>, Seq<Seq<char>>)> {
        self.entries@.map_values(
            |e: (String, EmbeddingStatus)| (e.0@, views(e.1.embedded_chapter_urls@)),
        )
    }

    /// An empty cache.
    pub fn new() -> (r: Self)
        ensures
            r.known().len() == 0,
    {
        StatusCache { entries: Vec::new() }
    }

    /// The status stored last for `url`.
    pub fn get(&self, url: &str) -> (r: Option<&EmbeddingStatus>)
        ensures
            match r {
                Some(s) => cached_urls(self.known(), url@) == Some(views(s.embedded_chapter_urls@)),
                None => cached_urls(self.known(), url@) is None,
            },
    {
        let ghost k = self.known();
        let mut i: usize = self.entries.len();
        assert(k.take(i as int) =~= k);
        while i > 0
            invariant
                i <= self.entries.len(),
                k == self.known(),
                cached_urls(k, url@) == cached_urls(k.take(i as int), url@),
            decreases i,
        {
            assert(k.take(i as int).last() == k[i - 1]);
            if str_eq(self.entries[i - 1].0.as_str(), url) {
                return Some(&self.entries[i - 1].1);
            }
            assert(k.take(i as int).drop_last() =~= k.take(i - 1));
            i = i - 1;
        }
        assert(k.take(0) =~= Seq::<(Seq<char>, Seq<Seq<char>>)>::empty());
        None
    }

    /// Stores the status of `url`; it is what `get` answers from now on.
    pub fn insert(&mut self, url: String, status: EmbeddingStatus)
        ensures
            final(self).known() == old(self).known().push((url@, views(status.embedded_chapter_urls@))),
    {
        self.entries.push((url, status));
        assert(self.known() =~= old(self).known().push((url@, views(status.embedded_chapter_urls@))));
    }
}

/// The embedded chapter URLs of a book: a fresh status is stored and used;
/// when fetching failed, the cached one is used, or none.
pub fn resolve_embedded_urls(
    cache: &mut StatusCache,
    book_url: &str,
    fetch: Result<EmbeddingStatus, String>,
) -> (r: Vec<String>)
    ensures
        match fetch {
            Ok(s) => {
                &&& views(r@) == views(s.embedded_chapter_urls@)
                &&& final(cache).known() == old(cache).known().push(
                    (book_url@, views(s.embedded_chapter_urls@)),
                )
            },
            Err(_) => {
                &&& views(r@) == match cached_urls(old(cache).known(), book_url@) {
                    Some(u) => u,
                    None => seq![],
                }
                &&& final(cache).known() == old(cache).known()
            },
        },
{
    match fetch {
        Ok(status) => {
            let copy = status.clone();
            cache.insert(book_url.to_owned(), copy);
            status.embedded_chapter_urls
        },
        Err(_) => match cache.get(book_url) {
            Some(s) => clone_strings(&s.embedded_chapter_urls),
            None => {
                let r: Vec<String> = Vec::new();
                assert(views(r@) =~= Seq::<Seq<char>>::empty());
                r
            },
        },
    }
}

} // verus!
