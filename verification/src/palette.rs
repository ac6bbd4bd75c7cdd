//! The command palette: a list of actions narrowed by what is typed, one
//! of which Enter runs.
use vstd::prelude::*;
use crate::text::{contains_chars, contains_sub, lowercase, pop_char, push_char, to_chars, to_lowercase};

verus! {

/// An action the palette offers: its label, its group and the keys that
/// also run it.
#[derive(Debug, PartialEq)]
pub struct PaletteAction {
    pub label: String,
    pub category: String,
    pub keys: String,
}

/// The palette: the query typed, the positions of the actions it finds,
/// and the row selected among them.
#[derive(Debug)]
pub struct Palette {
    pub query: String,
    pub filtered: Vec<usize>,
    pub selected: usize,
}

/// A key the palette answers.
#[derive(Debug, Clone, Copy, PartialEq, Eq, Structural)]
pub enum PaletteKey {
    Up,
    Down,
    Enter,
    Backspace,
    Char(char),
    Other,
}

/// What became of the palette.
#[derive(Debug, PartialEq)]
pub enum PaletteOutcome {
    Open,
    /// The palette closes without running anything.
    Close,
    /// The palette closes and runs the action at this position.
    Run(usize),
}

/// Whether an action is found by a query: every action by an empty one,
/// else those whose label, group or keys hold the query, all lowercased.
pub open spec fn action_matches(a: PaletteAction, q: Seq<char>) -> bool {
    q.len() == 0 || contains_sub(lowercase(a.label@), lowercase(q)) || contains_sub(
        lowercase(a.category@),
        lowercase(q),
    ) || contains_sub(lowercase(a.keys@), lowercase(q))
}

/// The positions of the actions a query finds, in order.
pub open spec fn found_actions(actions: Seq<PaletteAction>, q: Seq<char>) -> Seq<usize>
    decreases actions.len(),
{
    if actions.len() == 0 {
        seq![]
    } else {
        let rest = found_actions(actions.drop_last(), q);
        if action_matches(actions.last(), q) {
            rest.push((actions.len() - 1) as usize)
        } else {
            rest
        }
    }
}

proof fn lemma_found_actions(actions: Seq<PaletteAction>, q: Seq<char>)
    requires
        actions.len() <= usize::MAX,
    ensures
        forall|k: int| 0 <= k < found_actions(actions, q).len() ==> (#[trigger] found_actions(actions, q)[k]) < actions.len(),
        forall|i: int|
            0 <= i < actions.len() ==> (#[trigger] found_actions(actions, q).contains(i as usize)
                <==> action_matches(actions[i], q)),
    decreases actions.len(),
{
    if actions.len() > 0 {
        let p = actions.drop_last();
        lemma_found_actions(p, q);
        let rest = found_actions(p, q);
        let f = found_actions(actions, q);
        let n = actions.len() - 1;
        assert forall|i: int| 0 <= i < actions.len() implies (#[trigger] f.contains(i as usize)
            <==> action_matches(actions[i], q)) by {
            if i < n {
                assert(actions[i] == p[i]);
                if f.contains(i as usize) {
                    let k = choose|k: int| 0 <= k < f.len() && f[k] == i as usize;
                    if k < rest.len() {
                        assert(rest[k] == i as usize);
                    }
                }
                if rest.contains(i as usize) {
                    let k = choose|k: int| 0 <= k < rest.len() && rest[k] == i as usize;
                    assert(f[k] == i as usize);
                }
            } else {
                if action_matches(actions[i], q) {
                    assert(f[rest.len() as int] == i as usize);
                } else {
                    if f.contains(i as usize) {
                        let k = choose|k: int| 0 <= k < f.len() && f[k] == i as usize;
                        assert(rest[k] == f[k]);
                    }
                }
            }
        }
    }
}

/// The palette finds exactly the actions whose label, group or keys hold
/// what was typed, lowercased, and every action when nothing is typed; it
/// lists them in their order, each once.
pub proof fn lemma_palette_finds(actions: Seq<PaletteAction>, q: Seq<char>)
    requires
        actions.len() <= usize::MAX,
    ensures
        forall|i: int|
            0 <= i < actions.len() ==> (#[trigger] found_actions(actions, q).contains(i as usize)
                <==> (q.len() == 0 || contains_sub(lowercase(actions[i].label@), lowercase(q))
                || contains_sub(lowercase(actions[i].category@), lowercase(q)) || contains_sub(
                lowercase(actions[i].keys@),
                lowercase(q),
            ))),
        forall|a: int, b: int|
            0 <= a < b < found_actions(actions, q).len() ==> #[trigger] found_actions(actions, q)[a]
                < #[trigger] found_actions(actions, q)[b],
    decreases actions.len(),
{
    lemma_found_actions(actions, q);
    if actions.len() > 0 {
        let p = actions.drop_last();
        lemma_palette_finds(p, q);
        lemma_found_actions(p, q);
        let rest = found_actions(p, q);
        let f = found_actions(actions, q);
        assert forall|a: int, b: int| 0 <= a < b < f.len() implies #[trigger] f[a] < #[trigger] f[b] by {
            if b < rest.len() {
                assert(f[a] == rest[a] && f[b] == rest[b]);
            } else {
                assert(f[a] == rest[a]);
                assert(rest[a] < p.len());
            }
        }
    }
}

/// The palette after a key, and what became of it.
pub open spec fn palette_step(
    o: Palette,
    key: PaletteKey,
    actions: Seq<PaletteAction>,
    n: Palette,
    r: PaletteOutcome,
) -> bool {
    match key {
        PaletteKey::Up => r is Open && n == Palette {
            selected: if o.selected > 0 {
                (o.selected - 1) as usize
            } else {
                0
            },
            ..o
        },
        PaletteKey::Down => r is Open && n == Palette {
            selected: if o.selected + 1 < o.filtered@.len() {
                (o.selected + 1) as usize
            } else {
                o.selected
            },
            ..o
        },
        PaletteKey::Enter => n == o && if o.selected < o.filtered@.len() {
            r == PaletteOutcome::Run(o.filtered@[o.selected as int])
        } else {
            r is Close
        },
        PaletteKey::Char(c) => {
            &&& r is Open
            &&& n.query@ == o.query@.push(c)
            &&& n.filtered@ == found_actions(actions, n.query@)
            &&& n.selected == 0
        },
        PaletteKey::Backspace => {
            &&& r is Open
            &&& n.query@ == (if o.query@.len() > 0 {
                o.query@.drop_last()
            } else {
                o.query@
            })
            &&& n.filtered@ == found_actions(actions, n.query@)
            &&& n.selected == 0
        },
        PaletteKey::Other => r is Open && n == o,
    }
}

/// The positions of the actions a query finds.
pub fn filter_actions(actions: &[PaletteAction], query: &str) -> (r: Vec<usize>)
    ensures
        r@ == found_actions(actions@, query@),
{
    let empty = query.is_empty();
    let q = to_chars(to_lowercase(query).as_str());
    let mut r: Vec<usize> = Vec::new();
    let mut i: usize = 0;
    while i < actions.len()
        invariant
            i <= actions@.len(),
            empty == (query@.len() == 0),
            q@ == lowercase(query@),
            r@ == found_actions(actions@.take(i as int), query@),
        decreases actions.len() - i,
    {
        assert(actions@.take(i + 1).drop_last() =~= actions@.take(i as int));
        assert(actions@.take(i + 1).last() == actions@[i as int]);
        let a = &actions[i];
        let hit = empty || contains_chars(&to_chars(to_lowercase(a.label.as_str()).as_str()), &q)
            || contains_chars(&to_chars(to_lowercase(a.category.as_str()).as_str()), &q)
            || contains_chars(&to_chars(to_lowercase(a.keys.as_str()).as_str()), &q);
        if hit {
            r.push(i);
        }
        i = i + 1;
    }
    assert(actions@.take(actions@.len() as int) =~= actions@);
    r
}

impl Palette {
    /// The palette as it opens: no query, every action found, the first
    /// selected.
    pub fn open(actions: &[PaletteAction]) -> (r: Self)
        ensures
            r.query@.len() == 0,
            r.filtered@ == found_actions(actions@, seq![]),
            r.selected == 0,
    {
        let query = String::new();
        let filtered = filter_actions(actions, query.as_str());
        Palette { query, filtered, selected: 0 }
    }
}

/// The palette's answer to a key: the arrows move the selection within the
/// actions found; typing and Backspace change the query, find the actions
/// again and select the first; Enter runs the selected action and closes.
pub fn handle_palette(p: &mut Palette, key: PaletteKey, actions: &[PaletteAction]) -> (r: PaletteOutcome)
    ensures
        palette_step(*old(p), key, actions@, *final(p), r),
{
    match key {
        PaletteKey::Up => {
            if p.selected > 0 {
                p.selected = p.selected - 1;
            }
            PaletteOutcome::Open
        },
        PaletteKey::Down => {
            if p.selected < p.filtered.len() && p.selected + 1 < p.filtered.len() {
                p.selected = p.selected + 1;
            }
            PaletteOutcome::Open
        },
        PaletteKey::Enter => {
            if p.selected < p.filtered.len() {
                PaletteOutcome::Run(p.filtered[p.selected])
            } else {
                PaletteOutcome::Close
            }
        },
        PaletteKey::Char(c) => {
            push_char(&mut p.query, c);
            p.filtered = filter_actions(actions, p.query.as_str());
            p.selected = 0;
            PaletteOutcome::Open
        },
        PaletteKey::Backspace => {
            pop_char(&mut p.query);
            p.filtered = filter_actions(actions, p.query.as_str());
            p.selected = 0;
            PaletteOutcome::Open
        },
        PaletteKey::Other => PaletteOutcome::Open,
    }
}

} // verus!
