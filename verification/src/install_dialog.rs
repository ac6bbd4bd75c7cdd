//! The dialog that takes the URL of a plugin to install: a one-line text
//! field with a cursor.
use vstd::prelude::*;
use crate::text::{str_is_blank, string_of, to_chars, trim, trim_str};

verus! {

/// The install-plugin dialog.
#[derive(Debug)]
pub struct InstallDialog {
    pub url: String,
    /// Where typing goes, counted in characters.
    pub cursor: usize,
    pub scroll_offset: usize,
}

/// A key the dialog answers.
#[derive(Debug, Clone, Copy, PartialEq, Eq, Structural)]
pub enum InstallKey {
    /// Enter, or Ctrl+S.
    Submit,
    Backspace,
    Left,
    Right,
    Home,
    End,
    Delete,
    /// A character typed without a modifier other than Shift.
    Char(char),
    Other,
}

/// What became of the dialog.
#[derive(Debug, PartialEq)]
pub enum InstallOutcome {
    Open,
    /// The dialog closes and the library page shows; the plugin at the
    /// URL given, if any, is to be installed.
    Close(Option<String>),
}

/// Whether every character of a text is ASCII.
pub open spec fn ascii(s: Seq<char>) -> bool {
    forall|i: int| 0 <= i < s.len() ==> (#[trigger] s[i] as u32) < 128
}

/// The text with `s[from..to]` replaced by `mid`.
pub open spec fn spliced(s: Seq<char>, from: int, to: int, mid: Seq<char>) -> Seq<char> {
    s.take(from) + mid + s.skip(to)
}

/// The text made of `v[..from]`, then `mid`, then `v[to..]`.
fn splice(v: &Vec<char>, from: usize, to: usize, mid: &Vec<char>) -> (out: String)
    requires
        from <= to <= v@.len(),
    ensures
        out@ == spliced(v@, from as int, to as int, mid@),
{
    let mut w: Vec<char> = Vec::new();
    let mut i: usize = 0;
    while i < from
        invariant
            i <= from <= to <= v@.len(),
            w@ == v@.take(i as int),
        decreases from - i,
    {
        w.push(v[i]);
        assert(v@.take(i + 1) =~= v@.take(i as int).push(v@[i as int]));
        i = i + 1;
    }
    let mut k: usize = 0;
    while k < mid.len()
        invariant
            k <= mid@.len(),
            w@ == v@.take(from as int) + mid@.take(k as int),
        decreases mid.len() - k,
    {
        w.push(mid[k]);
        assert(mid@.take(k + 1) =~= mid@.take(k as int).push(mid@[k as int]));
        k = k + 1;
    }
    let mut j: usize = to;
    while j < v.len()
        invariant
            to <= j <= v@.len(),
            w@ == v@.take(from as int) + mid@ + v@.subrange(to as int, j as int),
        decreases v.len() - j,
    {
        w.push(v[j]);
        assert(v@.subrange(to as int, j + 1) =~= v@.subrange(to as int, j as int).push(
            v@[j as int],
        ));
        j = j + 1;
    }
    assert(mid@.take(mid@.len() as int) =~= mid@);
    assert(v@.subrange(to as int, v@.len() as int) =~= v@.skip(to as int));
    string_of(&w)
}

/// The dialog's answer to a key. Submitting closes it, handing on the
/// trimmed URL unless it is blank; the other keys edit the URL at the
/// cursor or move the cursor. The cursor counts bytes of the URL, so the
/// URL is taken to be ASCII, where bytes and characters coincide.
pub fn handle_installing_plugin(d: &mut InstallDialog, key: InstallKey) -> (r: InstallOutcome)
    requires
        ascii(old(d).url@),
        old(d).cursor <= old(d).url@.len(),
        old(d).url@.len() < usize::MAX,
    ensures
        ({
            let u = old(d).url@;
            let c = old(d).cursor as int;
            let same_url = final(d).url@ == u;
            let keeps = final(d).scroll_offset == old(d).scroll_offset;
            match key {
                InstallKey::Submit => *final(d) == *old(d) && if trim(u).len() == 0 {
                    r == InstallOutcome::Close(None)
                } else {
                    r matches InstallOutcome::Close(Some(s)) && s@ == trim(u)
                },
                InstallKey::Backspace => r is Open && keeps && if c > 0 {
                    final(d).url@ == spliced(u, c - 1, c, seq![]) && final(d).cursor == c - 1
                } else {
                    *final(d) == *old(d)
                },
                InstallKey::Left => r is Open && keeps && same_url && final(d).cursor == (if c > 0 {
                    c - 1
                } else {
                    0
                }),
                InstallKey::Right => r is Open && keeps && same_url && final(d).cursor == (if c
                    < u.len() {
                    c + 1
                } else {
                    c
                }),
                InstallKey::Home => r is Open && keeps && same_url && final(d).cursor == 0,
                InstallKey::End => r is Open && keeps && same_url && final(d).cursor == u.len(),
                InstallKey::Delete => r is Open && keeps && final(d).cursor == c && if c < u.len() {
                    final(d).url@ == spliced(u, c, c + 1, seq![])
                } else {
                    same_url
                },
                InstallKey::Char(ch) => r is Open && keeps && final(d).url@ == spliced(
                    u,
                    c,
                    c,
                    seq![ch],
                ) && final(d).cursor == c + 1,
                InstallKey::Other => r is Open && *final(d) == *old(d),
            }
        }),
{
    let v = to_chars(d.url.as_str());
    let c = d.cursor;
    let n = v.len();
    match key {
        InstallKey::Submit => {
            if str_is_blank(d.url.as_str()) {
                InstallOutcome::Close(None)
            } else {
                InstallOutcome::Close(Some(trim_str(d.url.as_str())))
            }
        },
        InstallKey::Backspace => {
            if c > 0 {
                d.url = splice(&v, c - 1, c, &Vec::new());
                d.cursor = c - 1;
            }
            InstallOutcome::Open
        },
        InstallKey::Left => {
            if c > 0 {
                d.cursor = c - 1;
            }
            InstallOutcome::Open
        },
        InstallKey::Right => {
            if c < n {
                d.cursor = c + 1;
            }
            InstallOutcome::Open
        },
        InstallKey::Home => {
            d.cursor = 0;
            InstallOutcome::Open
        },
        InstallKey::End => {
            d.cursor = n;
            InstallOutcome::Open
        },
        InstallKey::Delete => {
            if c < n {
                d.url = splice(&v, c, c + 1, &Vec::new());
            }
            InstallOutcome::Open
        },
        InstallKey::Char(ch) => {
            let mut mid: Vec<char> = Vec::new();
            mid.push(ch);
            d.url = splice(&v, c, c, &mid);
            d.cursor = c + 1;
            InstallOutcome::Open
        },
        InstallKey::Other => InstallOutcome::Open,
    }
}


/// Typing a character and then Backspace leaves the URL and the cursor as
/// they were.
pub proof fn lemma_type_then_backspace(u: Seq<char>, c: int, ch: char)
    requires
        0 <= c <= u.len(),
    ensures
        spliced(spliced(u, c, c, seq![ch]), c, c + 1, seq![]) == u,
{
    let t = spliced(u, c, c, seq![ch]);
    assert(t.take(c) =~= u.take(c));
    assert(t.skip(c + 1) =~= u.skip(c));
    assert(spliced(t, c, c + 1, seq![]) =~= u);
}

} // verus!
