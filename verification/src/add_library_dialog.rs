//! The dialog that adds a library backend by name and URL.
use vstd::prelude::*;
use crate::backends::Backend;
use crate::models::{BackendKind, LibraryConfig};
use crate::text::{pop_char, push_char};

verus! {

/// The add-library dialog: two fields, the name (0) and the URL (1).
#[derive(Debug)]
pub struct AddLibraryDialog {
    pub name: String,
    pub url: String,
    pub cursor: usize,
    /// Which field typing goes to: 0 for the name, 1 for the URL.
    pub focused_field: usize,
}

/// A key the dialog answers.
#[derive(Debug, Clone, Copy, PartialEq, Eq, Structural)]
pub enum AddLibraryKey {
    /// Moves to the other field.
    Tab,
    Enter,
    Esc,
    Backspace,
    /// A character typed without a modifier other than Shift.
    Char(char),
    Other,
}

/// What became of the dialog.
#[derive(Debug, PartialEq)]
pub enum AddLibraryOutcome {
    Open,
    /// The dialog closes without adding anything.
    Close,
    /// The dialog closes; this library was added to the backends and is to
    /// be appended to the saved libraries.
    Added(LibraryConfig),
}

/// The dialog's answer to a key. Enter adds a server backend when both
/// fields are filled in, and closes the dialog either way.
pub fn handle_add_library(d: &mut AddLibraryDialog, backends: &mut Vec<Backend>, key: AddLibraryKey) -> (r: AddLibraryOutcome)
    requires
        old(d).focused_field < 2,
    ensures
        key != AddLibraryKey::Enter ==> final(backends)@ == old(backends)@,
        match key {
            AddLibraryKey::Tab => r is Open && *final(d) == AddLibraryDialog {
                focused_field: (1 - old(d).focused_field) as usize,
                ..*old(d)
            },
            AddLibraryKey::Enter => *final(d) == *old(d) && if old(d).name@.len() > 0
                && old(d).url@.len() > 0 {
                &&& r matches AddLibraryOutcome::Added(c)
                &&& c.name@ == old(d).name@
                &&& c.url@ == old(d).url@
                &&& !c.default
                &&& final(backends)@.drop_last() == old(backends)@
                &&& final(backends)@.len() == old(backends)@.len() + 1
                &&& final(backends)@.last().name@ == old(d).name@
                &&& final(backends)@.last().kind == BackendKind::Remote
                &&& final(backends)@.last().url matches Some(u) && u@ == old(d).url@
            } else {
                r is Close && final(backends)@ == old(backends)@
            },
            AddLibraryKey::Esc => r is Close && *final(d) == *old(d),
            AddLibraryKey::Backspace => {
                let drop = |s: Seq<char>|
                    if s.len() > 0 {
                        s.drop_last()
                    } else {
                        s
                    };
                &&& r is Open
                &&& final(d).cursor == old(d).cursor
                &&& final(d).focused_field == old(d).focused_field
                &&& if old(d).focused_field == 0 {
                    final(d).name@ == drop(old(d).name@) && final(d).url == old(d).url
                } else {
                    final(d).url@ == drop(old(d).url@) && final(d).name == old(d).name
                }
            },
            AddLibraryKey::Char(c) => {
                &&& r is Open
                &&& final(d).cursor == old(d).cursor
                &&& final(d).focused_field == old(d).focused_field
                &&& if old(d).focused_field == 0 {
                    final(d).name@ == old(d).name@.push(c) && final(d).url == old(d).url
                } else {
                    final(d).url@ == old(d).url@.push(c) && final(d).name == old(d).name
                }
            },
            AddLibraryKey::Other => r is Open && *final(d) == *old(d),
        },
{
    match key {
        AddLibraryKey::Tab => {
            d.focused_field = 1 - d.focused_field;
            AddLibraryOutcome::Open
        },
        AddLibraryKey::Enter => {
            if d.name.as_str().is_empty() || d.url.as_str().is_empty() {
                return AddLibraryOutcome::Close;
            }
            let config = LibraryConfig { name: d.name.clone(), url: d.url.clone(), default: false };
            backends.push(Backend { name: d.name.clone(), kind: BackendKind::Remote, url: Some(d.url.clone()) });
            proof {
                assert(backends@.drop_last() =~= old(backends)@);
            }
            AddLibraryOutcome::Added(config)
        },
        AddLibraryKey::Esc => AddLibraryOutcome::Close,
        AddLibraryKey::Backspace => {
            if d.focused_field == 0 {
                pop_char(&mut d.name);
            } else {
                pop_char(&mut d.url);
            }
            AddLibraryOutcome::Open
        },
        AddLibraryKey::Char(c) => {
            if d.focused_field == 0 {
                push_char(&mut d.name, c);
            } else {
                push_char(&mut d.url, c);
            }
            AddLibraryOutcome::Open
        },
        AddLibraryKey::Other => AddLibraryOutcome::Open,
    }
}

} // verus!
