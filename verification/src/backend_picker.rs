//! The backend picker: choosing the library backend the books come from,
//! and adding, renaming and deleting backends. The picker decides; saving
//! the configuration and reloading books are the caller's.
use vstd::prelude::*;
use crate::backends::{add_backend, rename_backend, unique_choice, Backend};
use crate::library::{BookFilter, Library};
use crate::models::BackendKind;
use crate::text::{pop_char, push_char, starts_with, str_eq, str_is_blank, trim, trim_str};

verus! {

/// The backend picker.
#[derive(Debug)]
pub struct BackendPicker {
    pub cursor: usize,
    pub scroll_offset: usize,
    /// The name being typed, while adding a backend or renaming one.
    pub input: Option<String>,
    /// The backend being renamed; none while adding one.
    pub editing_idx: Option<usize>,
    /// Set by a first delete of the last backend: a second delete removes
    /// it, any other key cancels.
    pub pending_delete_idx: Option<usize>,
}

/// A key the picker answers. While a name is typed, characters are text;
/// otherwise `n` adds a backend, `r` renames the one under the cursor and
/// `d` deletes it.
#[derive(Debug, Clone, Copy, PartialEq, Eq, Structural)]
pub enum BackendKey {
    Up,
    Down,
    Esc,
    Enter,
    Backspace,
    Char(char),
    Other,
}

/// What the caller carries out after a key.
#[derive(Debug, PartialEq)]
pub enum BackendRequest {
    /// The picker stays open; nothing to carry out.
    Stay,
    /// The picker closes.
    Close,
    /// The picker closes on this backend, now the active one: make it so
    /// and reload the books from it.
    Select(String),
    /// The backends changed: save their configuration; the picker stays.
    Save,
    /// The last backend went: save the (empty) configuration; the picker
    /// closes.
    SaveAndClose,
}

/// The library after the backend named `name` is gone: a filter on it is
/// dropped and the selection goes back to the top.
pub open spec fn forgot_backend(o: Library, n: Library, name: Seq<char>) -> bool {
    match o.filter.library {
        Some(l) if l@ == name => n == Library {
            filter: BookFilter { library: None, ..o.filter },
            selected_index: 0,
            ..o
        },
        _ => n == o,
    }
}

/// The picker with the pending delete cancelled.
pub open spec fn settled(p: BackendPicker) -> BackendPicker {
    BackendPicker { pending_delete_idx: None, ..p }
}

/// The answer to a key while no name is typed.
pub open spec fn choosing_step(
    o: BackendPicker,
    bo: Seq<Backend>,
    lo: Library,
    key: BackendKey,
    n: BackendPicker,
    bn: Seq<Backend>,
    ln: Library,
    r: BackendRequest,
) -> bool {
    let count = bo.len();
    match key {
        BackendKey::Up => r is Stay && bn == bo && ln == lo && n == BackendPicker {
            cursor: if o.cursor > 0 {
                (o.cursor - 1) as usize
            } else {
                o.cursor
            },
            ..o
        },
        BackendKey::Down => r is Stay && bn == bo && ln == lo && n == BackendPicker {
            cursor: if o.cursor + 1 < count {
                (o.cursor + 1) as usize
            } else {
                o.cursor
            },
            ..o
        },
        BackendKey::Esc => r is Close && bn == bo && ln == lo && n == o,
        BackendKey::Enter => bn == bo && n == o && if o.cursor < count {
            let name = bo[o.cursor as int].name@;
            &&& r matches BackendRequest::Select(s) && s@ == name
            &&& ln.filter.library matches Some(l) && l@ == name
            &&& ln == Library {
                filter: BookFilter { library: ln.filter.library, ..lo.filter },
                selected_index: 0,
                ai: None,
                ..lo
            }
        } else {
            r is Close && ln == lo
        },
        BackendKey::Char('n') => r is Stay && bn == bo && ln == lo && (n.input matches Some(t)
            && t@.len() == 0) && n == BackendPicker {
            cursor: 0,
            input: n.input,
            editing_idx: None,
            pending_delete_idx: None,
            ..o
        },
        BackendKey::Char('r') => r is Stay && bn == bo && ln == lo && if o.cursor < count {
            &&& n.input matches Some(t) && t@ == bo[o.cursor as int].name@
            &&& n == BackendPicker { input: n.input, editing_idx: Some(o.cursor), ..settled(o) }
        } else {
            n == settled(o)
        },
        BackendKey::Char('d') => if o.cursor < count {
            let name = bo[o.cursor as int].name@;
            if count == 1 && o.pending_delete_idx is None {
                r is Stay && bn == bo && ln == lo && n == BackendPicker {
                    pending_delete_idx: Some(o.cursor),
                    ..o
                }
            } else if count > 1 {
                &&& r is Save
                &&& bn == bo.remove(o.cursor as int)
                &&& forgot_backend(lo, ln, name)
                &&& n == BackendPicker {
                    cursor: if o.cursor <= count - 2 {
                        o.cursor
                    } else {
                        (count - 2) as usize
                    },
                    ..o
                }
            } else {
                &&& r is SaveAndClose
                &&& bn.len() == 0
                &&& forgot_backend(lo, ln, name)
                &&& n == settled(o)
            }
        } else {
            r is Stay && bn == bo && ln == lo && n == o
        },
        _ => r is Stay && bn == bo && ln == lo && n == settled(o),
    }
}

/// The backends after `entered` is added (see `add_backend`).
pub open spec fn added(bo: Seq<Backend>, bn: Seq<Backend>, entered: Seq<char>) -> bool {
    &&& bn.len() == bo.len() + 1
    &&& bn.drop_last() == bo
    &&& bn.last().kind == BackendKind::Remote
    &&& bn.last().url is Some
    &&& if starts_with(entered, "http://"@) || starts_with(entered, "https://"@) {
        &&& unique_choice(bo, "remote"@, bn.last().name@)
        &&& bn.last().url->0@ == entered
    } else {
        &&& unique_choice(bo, entered, bn.last().name@)
        &&& bn.last().url->0@ == "http://"@ + entered
    }
}

/// The backends after the one at `idx` is renamed to `name` (see
/// `rename_backend`).
pub open spec fn renamed_backend(bo: Seq<Backend>, bn: Seq<Backend>, idx: int, name: Seq<char>) -> bool {
    if idx >= bo.len() || bo[idx].name@ == name {
        bn == bo
    } else {
        &&& bn.len() == bo.len()
        &&& forall|j: int| 0 <= j < bo.len() && j != idx ==> bn[j] == bo[j]
        &&& unique_choice(bo, name, bn[idx].name@)
        &&& bn[idx].kind == BackendKind::Remote
        &&& bn[idx].url is Some
        &&& bn[idx].url->0@ == match bo[idx].url {
            Some(u) => u@,
            None => seq![],
        }
    }
}

/// The answer to a key while a name is typed.
pub open spec fn typing_step(
    o: BackendPicker,
    bo: Seq<Backend>,
    key: BackendKey,
    n: BackendPicker,
    bn: Seq<Backend>,
    r: BackendRequest,
) -> bool {
    let text = o.input->0@;
    match key {
        BackendKey::Esc => r is Stay && bn == bo && n == BackendPicker {
            input: None,
            editing_idx: None,
            ..o
        },
        BackendKey::Enter => {
            let name = trim(text);
            if name.len() == 0 {
                r is Stay && bn == bo && n == o
            } else {
                &&& r is Save
                &&& n == BackendPicker { input: None, editing_idx: None, cursor: 0, ..o }
                &&& match o.editing_idx {
                    Some(idx) => renamed_backend(bo, bn, idx as int, name),
                    None => added(bo, bn, name),
                }
            }
        },
        BackendKey::Backspace => r is Stay && bn == bo && (n.input matches Some(t) && t@ == (if text.len()
            > 0 {
            text.drop_last()
        } else {
            text
        })) && n == BackendPicker { input: n.input, ..o },
        BackendKey::Char(c) => r is Stay && bn == bo && (n.input matches Some(t) && t@ == text.push(
            c,
        )) && n == BackendPicker { input: n.input, ..o },
        _ => r is Stay && bn == bo && n == o,
    }
}

impl BackendPicker {
    /// The picker as it opens.
    pub fn new() -> (r: Self)
        ensures
            r.cursor == 0,
            r.scroll_offset == 0,
            r.input is None,
            r.editing_idx is None,
            r.pending_delete_idx is None,
    {
        BackendPicker { cursor: 0, scroll_offset: 0, input: None, editing_idx: None, pending_delete_idx: None }
    }
}

/// Drops a filter on the backend named `name`.
fn forget_backend(lib: &mut Library, name: &str)
    ensures
        forgot_backend(*old(lib), *final(lib), name@),
{
    let hit = match &lib.filter.library {
        Some(l) => str_eq(l.as_str(), name),
        None => false,
    };
    if hit {
        lib.filter.library = None;
        lib.selected_index = 0;
    }
}

/// The picker's answer to a key while no name is typed.
fn handle_choosing(p: &mut BackendPicker, backends: &mut Vec<Backend>, lib: &mut Library, key: BackendKey) -> (r: BackendRequest)
    requires
        old(p).input is None,
    ensures
        choosing_step(*old(p), old(backends)@, *old(lib), key, *final(p), final(backends)@, *final(lib), r),
{
    let count = backends.len();
    match key {
        BackendKey::Up => {
            if p.cursor > 0 {
                p.cursor = p.cursor - 1;
            }
            BackendRequest::Stay
        },
        BackendKey::Down => {
            if count > 0 && p.cursor < count - 1 {
                p.cursor = p.cursor + 1;
            }
            BackendRequest::Stay
        },
        BackendKey::Esc => BackendRequest::Close,
        BackendKey::Enter => {
            if p.cursor < count {
                let name = backends[p.cursor].name.clone();
                lib.filter.library = Some(name.clone());
                lib.selected_index = 0;
                lib.ai = None;
                BackendRequest::Select(name)
            } else {
                BackendRequest::Close
            }
        },
        BackendKey::Char('n') => {
            p.cursor = 0;
            p.input = Some(String::new());
            p.editing_idx = None;
            p.pending_delete_idx = None;
            BackendRequest::Stay
        },
        BackendKey::Char('r') => {
            p.pending_delete_idx = None;
            if p.cursor < count {
                p.input = Some(backends[p.cursor].name.clone());
                p.editing_idx = Some(p.cursor);
            }
            BackendRequest::Stay
        },
        BackendKey::Char('d') => {
            let idx = p.cursor;
            if idx >= count {
                return BackendRequest::Stay;
            }
            if count == 1 {
                if p.pending_delete_idx.is_none() {
                    p.pending_delete_idx = Some(idx);
                    return BackendRequest::Stay;
                }
                p.pending_delete_idx = None;
            }
            let name = backends[idx].name.clone();
            if count > 1 {
                backends.remove(idx);
                forget_backend(lib, name.as_str());
                if p.cursor > count - 2 {
                    p.cursor = count - 2;
                }
                BackendRequest::Save
            } else {
                backends.clear();
                forget_backend(lib, name.as_str());
                BackendRequest::SaveAndClose
            }
        },
        _ => {
            p.pending_delete_idx = None;
            BackendRequest::Stay
        },
    }
}

/// The picker's answer to a key while a name is typed.
fn handle_typing(p: &mut BackendPicker, backends: &mut Vec<Backend>, key: BackendKey) -> (r: BackendRequest)
    requires
        old(p).input is Some,
        old(backends)@.len() + 2 <= u64::MAX,
    ensures
        typing_step(*old(p), old(backends)@, key, *final(p), final(backends)@, r),
{
    match key {
        BackendKey::Esc => {
            p.input = None;
            p.editing_idx = None;
            BackendRequest::Stay
        },
        BackendKey::Enter => {
            let name = match &p.input {
                Some(t) => {
                    if str_is_blank(t.as_str()) {
                        return BackendRequest::Stay;
                    }
                    trim_str(t.as_str())
                },
                None => String::new(),
            };
            match p.editing_idx {
                Some(idx) => rename_backend(backends, idx, name),
                None => add_backend(backends, name.as_str()),
            }
            p.input = None;
            p.editing_idx = None;
            p.cursor = 0;
            BackendRequest::Save
        },
        BackendKey::Backspace => {
            let mut t = match p.input.take() {
                Some(t) => t,
                None => String::new(),
            };
            pop_char(&mut t);
            p.input = Some(t);
            BackendRequest::Stay
        },
        BackendKey::Char(c) => {
            let mut t = match p.input.take() {
                Some(t) => t,
                None => String::new(),
            };
            push_char(&mut t, c);
            p.input = Some(t);
            BackendRequest::Stay
        },
        _ => BackendRequest::Stay,
    }
}

/// The picker's answer to a key: while a name is typed, keys edit it
/// (Enter adds or renames a backend, unless the name is blank; Esc drops
/// it); otherwise they move the cursor, choose, add, rename or delete
/// backends. Deleting the last backend asks twice.
pub fn handle_backend_picker(
    p: &mut BackendPicker,
    backends: &mut Vec<Backend>,
    lib: &mut Library,
    key: BackendKey,
) -> (r: BackendRequest)
    requires
        old(backends)@.len() + 2 <= u64::MAX,
    ensures
        old(p).input is Some ==> typing_step(
            *old(p),
            old(backends)@,
            key,
            *final(p),
            final(backends)@,
            r,
        ) && *final(lib) == *old(lib),
        old(p).input is None ==> choosing_step(
            *old(p),
            old(backends)@,
            *old(lib),
            key,
            *final(p),
            final(backends)@,
            *final(lib),
            r,
        ),
{
    if p.input.is_some() {
        handle_typing(p, backends, key)
    } else {
        handle_choosing(p, backends, lib, key)
    }
}


/// Deleting the last backend takes two presses of `d`: the first only
/// asks, the second empties the backends.
pub proof fn lemma_last_backend_delete_asks_first(
    o: BackendPicker,
    bo: Seq<Backend>,
    lo: Library,
    n1: BackendPicker,
    b1: Seq<Backend>,
    l1: Library,
    r1: BackendRequest,
    n2: BackendPicker,
    b2: Seq<Backend>,
    l2: Library,
    r2: BackendRequest,
)
    requires
        o.input is None,
        o.pending_delete_idx is None,
        o.cursor == 0,
        bo.len() == 1,
        choosing_step(o, bo, lo, BackendKey::Char('d'), n1, b1, l1, r1),
        choosing_step(n1, b1, l1, BackendKey::Char('d'), n2, b2, l2, r2),
    ensures
        r1 is Stay,
        b1 == bo,
        l1 == lo,
        r2 is SaveAndClose,
        b2.len() == 0,
{
}

} // verus!
