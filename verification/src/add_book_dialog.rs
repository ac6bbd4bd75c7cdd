//! The dialog that takes the URLs of books to add, one per line.
use vstd::prelude::*;
use crate::text::{pop_char, push_char, str_is_blank, trim, trim_str, views};

verus! {

/// The add-book dialog: the lines typed so far and the line being typed.
#[derive(Debug)]
pub struct AddBookDialog {
    pub inputs: Vec<String>,
    pub cursor: usize,
    pub scroll_offset: usize,
}

/// A key the dialog answers.
#[derive(Debug, Clone, Copy, PartialEq, Eq, Structural)]
pub enum AddBookKey {
    /// Ctrl+S: scrape the URLs and close.
    Submit,
    /// Opens a new line below the current one.
    Enter,
    Backspace,
    Up,
    Down,
    /// A character typed without a modifier other than Shift.
    Char(char),
    Other,
}

/// What became of the dialog.
#[derive(Debug, PartialEq)]
pub enum AddBookOutcome {
    Open,
    /// The dialog closes and the library page shows; these URLs are to be
    /// scraped, in order.
    Submit(Vec<String>),
}

/// The lines, trimmed, without the blank ones.
pub open spec fn urls_of(lines: Seq<Seq<char>>) -> Seq<Seq<char>>
    decreases lines.len(),
{
    if lines.len() == 0 {
        seq![]
    } else {
        let rest = urls_of(lines.drop_last());
        if trim(lines.last()).len() == 0 {
            rest
        } else {
            rest.push(trim(lines.last()))
        }
    }
}

/// The dialog's answer to a key. Submitting hands on every line, trimmed,
/// that is not blank. Backspace on an empty line removes it (unless it is
/// the only one) and steps up; elsewhere it removes the last character.
pub fn handle_adding_book(d: &mut AddBookDialog, key: AddBookKey) -> (r: AddBookOutcome)
    requires
        old(d).cursor < old(d).inputs@.len() < usize::MAX,
    ensures
        ({
            let lines = views(old(d).inputs@);
            let c = old(d).cursor as int;
            match key {
                AddBookKey::Submit => *final(d) == *old(d) && (r matches AddBookOutcome::Submit(urls)
                    && views(urls@) == urls_of(lines)),
                AddBookKey::Enter => r is Open && final(d).scroll_offset == old(d).scroll_offset
                    && views(final(d).inputs@) == lines.insert(c + 1, seq![]) && final(d).cursor
                    == c + 1,
                AddBookKey::Backspace => r is Open && final(d).scroll_offset == old(d).scroll_offset
                    && if lines[c].len() == 0 && lines.len() > 1 {
                    views(final(d).inputs@) == lines.remove(c) && final(d).cursor == (if c > 0 {
                        c - 1
                    } else {
                        0
                    })
                } else {
                    views(final(d).inputs@) == lines.update(
                        c,
                        if lines[c].len() > 0 {
                            lines[c].drop_last()
                        } else {
                            lines[c]
                        },
                    ) && final(d).cursor == c
                },
                AddBookKey::Up => r is Open && *final(d) == AddBookDialog {
                    cursor: if c > 0 {
                        (c - 1) as usize
                    } else {
                        c as usize
                    },
                    ..*old(d)
                },
                AddBookKey::Down => r is Open && *final(d) == AddBookDialog {
                    cursor: if c + 1 < lines.len() {
                        (c + 1) as usize
                    } else {
                        c as usize
                    },
                    ..*old(d)
                },
                AddBookKey::Char(ch) => r is Open && final(d).scroll_offset == old(d).scroll_offset
                    && final(d).cursor == c && views(final(d).inputs@) == lines.update(
                    c,
                    lines[c].push(ch),
                ),
                AddBookKey::Other => r is Open && *final(d) == *old(d),
            }
        }),
{
    let c = d.cursor;
    match key {
        AddBookKey::Submit => {
            let mut urls: Vec<String> = Vec::new();
            let mut i: usize = 0;
            while i < d.inputs.len()
                invariant
                    i <= d.inputs@.len(),
                    views(urls@) == urls_of(views(d.inputs@).take(i as int)),
                decreases d.inputs.len() - i,
            {
                assert(views(d.inputs@).take(i + 1).drop_last() =~= views(d.inputs@).take(
                    i as int,
                ));
                if !str_is_blank(d.inputs[i].as_str()) {
                    let ghost before = views(urls@);
                    urls.push(trim_str(d.inputs[i].as_str()));
                    assert(views(urls@) =~= before.push(trim(d.inputs@[i as int]@)));
                }
                i = i + 1;
            }
            assert(views(d.inputs@).take(d.inputs@.len() as int) =~= views(d.inputs@));
            AddBookOutcome::Submit(urls)
        },
        AddBookKey::Enter => {
            let ghost before = views(d.inputs@);
            d.inputs.insert(c + 1, String::new());
            assert(views(d.inputs@) =~= before.insert(c + 1, seq![]));
            d.cursor = c + 1;
            AddBookOutcome::Open
        },
        AddBookKey::Backspace => {
            let ghost before = views(d.inputs@);
            if d.inputs[c].as_str().is_empty() && d.inputs.len() > 1 {
                d.inputs.remove(c);
                assert(views(d.inputs@) =~= before.remove(c as int));
                if c > 0 {
                    d.cursor = c - 1;
                }
            } else {
                let mut line = d.inputs.remove(c);
                pop_char(&mut line);
                d.inputs.insert(c, line);
                assert(views(d.inputs@) =~= before.update(
                    c as int,
                    if before[c as int].len() > 0 {
                        before[c as int].drop_last()
                    } else {
                        before[c as int]
                    },
                ));
            }
            AddBookOutcome::Open
        },
        AddBookKey::Up => {
            if c > 0 {
                d.cursor = c - 1;
            }
            AddBookOutcome::Open
        },
        AddBookKey::Down => {
            if c + 1 < d.inputs.len() {
                d.cursor = c + 1;
            }
            AddBookOutcome::Open
        },
        AddBookKey::Char(ch) => {
            let ghost before = views(d.inputs@);
            let mut line = d.inputs.remove(c);
            push_char(&mut line, ch);
            d.inputs.insert(c, line);
            assert(views(d.inputs@) =~= before.update(c as int, before[c as int].push(ch)));
            AddBookOutcome::Open
        },
        AddBookKey::Other => AddBookOutcome::Open,
    }
}


/// Enter opens an empty line below the current one; Backspace on it takes
/// it away again and puts the cursor back.
pub proof fn lemma_enter_then_backspace(lines: Seq<Seq<char>>, c: int)
    requires
        0 <= c < lines.len(),
    ensures
        ({
            let opened = lines.insert(c + 1, seq![]);
            &&& opened[c + 1].len() == 0
            &&& opened.len() > 1
            &&& opened.remove(c + 1) == lines
        }),
{
    let opened = lines.insert(c + 1, seq![]);
    assert(opened.remove(c + 1) =~= lines);
}

} // verus!
