//! The embedding dialog: picking chapters of a book to fetch for
//! embedding, skipping those already embedded.
use vstd::prelude::*;
use crate::chapters::{
    embedded, is_embedded, min_len, next_selectable, next_selectable_spec, not_embedded, picked,
    selected_embeddable_chapters,
};
use crate::models::Chapter;
use crate::text::views;

verus! {

/// The embedding dialog of a book.
#[derive(Debug)]
pub struct EmbedDialog {
    pub book_url: String,
    pub chapters: Vec<Chapter>,
    /// Which chapters are picked, by position.
    pub selected: Vec<bool>,
    /// The chapters that already have an embedding.
    pub embedded_urls: Vec<String>,
    pub cursor: usize,
    pub scroll_offset: usize,
}

/// A key the embedding dialog answers.
#[derive(Debug, Clone, Copy, PartialEq, Eq, Structural)]
pub enum EmbedKey {
    Up,
    Down,
    /// Picks or unpicks the chapter under the cursor.
    Toggle,
    /// Picks every chapter not embedded yet.
    SelectAll,
    /// Unpicks every chapter.
    ClearAll,
    Enter,
    Other,
}

/// What became of the dialog.
#[derive(Debug, PartialEq)]
pub enum EmbedOutcome {
    Open,
    /// Fetch these chapters for embedding; the dialog closes.
    Fetch(Vec<Chapter>),
}

/// The first chapter not embedded yet, or the first row when every
/// chapter is embedded.
pub fn first_selectable(chapters: &[Chapter], embedded_urls: &[String]) -> (r: usize)
    ensures
        (r < chapters@.len() && !embedded(chapters@[r as int], views(embedded_urls@))) || (r == 0
            && forall|k: int|
            0 <= k < chapters@.len() ==> embedded(#[trigger] chapters@[k], views(embedded_urls@))),
        forall|k: int| 0 <= k < r ==> embedded(#[trigger] chapters@[k], views(embedded_urls@)),
{
    let mut i: usize = 0;
    while i < chapters.len()
        invariant
            i <= chapters@.len(),
            forall|k: int| 0 <= k < i ==> embedded(#[trigger] chapters@[k], views(embedded_urls@)),
        decreases chapters.len() - i,
    {
        if !is_embedded(&chapters[i], embedded_urls) {
            return i;
        }
        i = i + 1;
    }
    0
}

impl EmbedDialog {
    /// The dialog as it opens on a book: nothing picked, the cursor on the
    /// first chapter not embedded yet.
    pub fn open(book_url: String, chapters: Vec<Chapter>, embedded_urls: Vec<String>) -> (r: Self)
        ensures
            r.book_url == book_url,
            r.chapters == chapters,
            r.embedded_urls == embedded_urls,
            r.selected@ == Seq::new(chapters@.len(), |i: int| false),
            r.scroll_offset == 0,
            (r.cursor < chapters@.len() && !embedded(chapters@[r.cursor as int], views(embedded_urls@)))
                || (r.cursor == 0 && forall|k: int|
                0 <= k < chapters@.len() ==> embedded(#[trigger] chapters@[k], views(embedded_urls@))),
            forall|k: int|
                0 <= k < r.cursor ==> embedded(#[trigger] chapters@[k], views(embedded_urls@)),
    {
        let cursor = first_selectable(chapters.as_slice(), embedded_urls.as_slice());
        let mut selected: Vec<bool> = Vec::new();
        let mut i: usize = 0;
        while i < chapters.len()
            invariant
                i <= chapters@.len(),
                selected@ == Seq::new(i as nat, |k: int| false),
            decreases chapters.len() - i,
        {
            selected.push(false);
            i = i + 1;
        }
        EmbedDialog { book_url, chapters, selected, embedded_urls, cursor, scroll_offset: 0 }
    }
}

/// The picks after picking every chapter not embedded yet.
pub open spec fn all_picked(sel: Seq<bool>, chs: Seq<Chapter>, urls: Seq<Seq<char>>) -> Seq<bool> {
    Seq::new(sel.len(), |i: int| sel[i] || !embedded(chs[i], urls))
}

/// The dialog's answer to a key. The arrows move to the next chapter not
/// embedded in their direction; the toggle picks or unpicks the chapter
/// under the cursor unless it is embedded; Enter fetches the picked
/// chapters not embedded yet, and does nothing when there are none.
pub fn handle_embed_chapters(d: &mut EmbedDialog, key: EmbedKey) -> (r: EmbedOutcome)
    requires
        old(d).chapters@.len() <= i32::MAX,
        old(d).cursor < i32::MAX,
        key == EmbedKey::Toggle ==> old(d).cursor < old(d).chapters@.len(),
        key == EmbedKey::SelectAll ==> old(d).selected@.len() <= old(d).chapters@.len(),
    ensures
        (key == EmbedKey::Up || key == EmbedKey::Down) ==> r == EmbedOutcome::Open && *final(d)
            == (EmbedDialog {
            cursor: next_selectable_spec(
                old(d).cursor as int,
                old(d).chapters@,
                views(old(d).embedded_urls@),
                if key == EmbedKey::Up {
                    -1int
                } else {
                    1int
                },
            ) as usize,
            ..*old(d)
        }),
        key == EmbedKey::Toggle ==> r == EmbedOutcome::Open && if !embedded(
            old(d).chapters@[old(d).cursor as int],
            views(old(d).embedded_urls@),
        ) && old(d).cursor < old(d).selected@.len() {
            final(d).selected@ == old(d).selected@.update(
                old(d).cursor as int,
                !old(d).selected@[old(d).cursor as int],
            ) && *final(d) == (EmbedDialog { selected: final(d).selected, ..*old(d) })
        } else {
            *final(d) == *old(d)
        },
        key == EmbedKey::SelectAll ==> r == EmbedOutcome::Open && final(d).selected@ == all_picked(
            old(d).selected@,
            old(d).chapters@,
            views(old(d).embedded_urls@),
        ) && *final(d) == (EmbedDialog { selected: final(d).selected, ..*old(d) }),
        key == EmbedKey::ClearAll ==> r == EmbedOutcome::Open && final(d).selected@ == Seq::new(
            old(d).selected@.len(),
            |i: int| false,
        ) && *final(d) == (EmbedDialog { selected: final(d).selected, ..*old(d) }),
        key == EmbedKey::Enter ==> *final(d) == *old(d) && ({
            let to_fetch = not_embedded(
                picked(
                    old(d).chapters@,
                    old(d).selected@,
                    min_len(old(d).chapters@.len(), old(d).selected@.len()),
                ),
                views(old(d).embedded_urls@),
            );
            if to_fetch.len() == 0 {
                r == EmbedOutcome::Open
            } else {
                r matches EmbedOutcome::Fetch(chs) && chs@ == to_fetch
            }
        }),
        key == EmbedKey::Other ==> r == EmbedOutcome::Open && *final(d) == *old(d),
{
    match key {
        EmbedKey::Up | EmbedKey::Down => {
            let dir: i32 = if key == EmbedKey::Up {
                -1
            } else {
                1
            };
            d.cursor = next_selectable(d.cursor, d.chapters.as_slice(), d.embedded_urls.as_slice(), dir);
            EmbedOutcome::Open
        },
        EmbedKey::Toggle => {
            let c = d.cursor;
            if !is_embedded(&d.chapters[c], d.embedded_urls.as_slice()) && c < d.selected.len() {
                let now = !d.selected[c];
                d.selected.set(c, now);
            }
            EmbedOutcome::Open
        },
        EmbedKey::SelectAll => {
            let ghost before = d.selected@;
            let mut i: usize = 0;
            while i < d.selected.len()
                invariant
                    i <= d.selected.len(),
                    d.selected@.len() == before.len(),
                    before.len() <= d.chapters@.len(),
                    d.chapters == old(d).chapters,
                    d.embedded_urls == old(d).embedded_urls,
                    d.book_url == old(d).book_url,
                    d.cursor == old(d).cursor,
                    d.scroll_offset == old(d).scroll_offset,
                    before == old(d).selected@,
                    forall|k: int|
                        0 <= k < i ==> #[trigger] d.selected@[k] == (before[k] || !embedded(
                            d.chapters@[k],
                            views(d.embedded_urls@),
                        )),
                    forall|k: int| i <= k < before.len() ==> d.selected@[k] == before[k],
                decreases d.selected.len() - i,
            {
                let ghost prev = d.selected@;
                let e = is_embedded(&d.chapters[i], d.embedded_urls.as_slice());
                if !e {
                    d.selected.set(i, true);
                }
                assert forall|k: int| 0 <= k < i + 1 implies #[trigger] d.selected@[k] == (before[k]
                    || !embedded(d.chapters@[k], views(d.embedded_urls@))) by {
                    if k < i {
                        assert(prev[k] == d.selected@[k]);
                    }
                }
                i = i + 1;
            }
            assert(d.selected@ =~= all_picked(before, d.chapters@, views(d.embedded_urls@))) by {
                assert forall|k: int| 0 <= k < before.len() implies d.selected@[k] == all_picked(
                    before,
                    d.chapters@,
                    views(d.embedded_urls@),
                )[k] by {}
            }
            EmbedOutcome::Open
        },
        EmbedKey::ClearAll => {
            let ghost n = d.selected@.len();
            let mut i: usize = 0;
            while i < d.selected.len()
                invariant
                    i <= d.selected.len(),
                    d.selected@.len() == n,
                    d.chapters == old(d).chapters,
                    d.embedded_urls == old(d).embedded_urls,
                    d.book_url == old(d).book_url,
                    d.cursor == old(d).cursor,
                    d.scroll_offset == old(d).scroll_offset,
                    forall|k: int| 0 <= k < i ==> !d.selected@[k],
                decreases d.selected.len() - i,
            {
                d.selected.set(i, false);
                i = i + 1;
            }
            assert(d.selected@ =~= Seq::new(n, |i: int| false));
            EmbedOutcome::Open
        },
        EmbedKey::Enter => {
            let to_fetch = selected_embeddable_chapters(
                d.chapters.as_slice(),
                d.selected.as_slice(),
                d.embedded_urls.as_slice(),
            );
            if to_fetch.len() == 0 {
                EmbedOutcome::Open
            } else {
                EmbedOutcome::Fetch(to_fetch)
            }
        },
        EmbedKey::Other => EmbedOutcome::Open,
    }
}

} // verus!
