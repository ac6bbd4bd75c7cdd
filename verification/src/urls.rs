//! URL handling of the worker: pasted links are cleaned, and requests are
//! rate limited per host.
use vstd::prelude::*;
use crate::text::{
    before_char, find_first, find_sub, index_of_char, lemma_char_pos, lemma_find_from, lowercase,
    slice_chars, string_of, string_of_range, to_chars, to_lowercase, trim, trim_bounds, trim_chars,
};

verus! {

/// The first position at or after `i` where `"]("` opens a markdown link.
pub open spec fn link_open_from(s: Seq<char>, i: int) -> Option<int>
    decreases s.len() - i,
{
    if i < 0 || i + 1 >= s.len() {
        None
    } else if s[i] == ']' && s[i + 1] == '(' {
        Some(i)
    } else {
        link_open_from(s, i + 1)
    }
}

/// The position at or after `i` of the `')'` that closes the link target,
/// given `depth` unclosed `'('` inside the target so far.
pub open spec fn link_close_from(s: Seq<char>, i: int, depth: nat) -> Option<int>
    decreases s.len() - i,
{
    if i < 0 || i >= s.len() {
        None
    } else if s[i] == '(' {
        link_close_from(s, i + 1, depth + 1)
    } else if s[i] == ')' {
        if depth == 0 {
            Some(i)
        } else {
            link_close_from(s, i + 1, (depth - 1) as nat)
        }
    } else {
        link_close_from(s, i + 1, depth)
    }
}

/// A pasted URL cleaned: the target of the first markdown link
/// `[text](target)` (with balanced parentheses inside the target), trimmed;
/// otherwise the whole text, trimmed.
pub open spec fn cleaned_url(s: Seq<char>) -> Seq<char> {
    match link_open_from(s, 0) {
        Some(k) => match link_close_from(s, k + 2, 0) {
            Some(j) => trim(s.subrange(k + 2, j)),
            None => trim(s),
        },
        None => trim(s),
    }
}

fn find_link_open(v: &Vec<char>) -> (r: Option<usize>)
    ensures
        r matches Some(k) ==> link_open_from(v@, 0) == Some(k as int) && k + 1 < v.len(),
        r is None ==> link_open_from(v@, 0) is None,
{
    let mut i: usize = 0;
    while i < v.len() && i + 1 < v.len()
        invariant
            i <= v.len(),
            link_open_from(v@, 0) == link_open_from(v@, i as int),
        decreases v.len() - i,
    {
        if v[i] == ']' && v[i + 1] == '(' {
            return Some(i);
        }
        i = i + 1;
    }
    None
}

fn find_link_close(v: &Vec<char>, start: usize) -> (r: Option<usize>)
    requires
        start <= v.len(),
    ensures
        r matches Some(j) ==> link_close_from(v@, start as int, 0) == Some(j as int) && start <= j
            < v.len(),
        r is None ==> link_close_from(v@, start as int, 0) is None,
{
    let mut i: usize = start;
    let mut depth: usize = 0;
    while i < v.len()
        invariant
            start <= i <= v.len(),
            depth <= i,
            link_close_from(v@, start as int, 0) == link_close_from(v@, i as int, depth as nat),
        decreases v.len() - i,
    {
        let c = v[i];
        if c == '(' {
            depth = depth + 1;
        } else if c == ')' {
            if depth == 0 {
                return Some(i);
            }
            depth = depth - 1;
        }
        i = i + 1;
    }
    None
}

/// A pasted URL cleaned of markdown link syntax and surrounding whitespace.
pub fn clean_url(url: &str) -> (r: String)
    ensures
        r@ == cleaned_url(url@),
{
    let v = to_chars(url);
    if let Some(k) = find_link_open(&v) {
        if let Some(j) = find_link_close(&v, k + 2) {
            let inner = slice_chars(&v, k + 2, j);
            let (a, b) = trim_bounds(&inner);
            return string_of_range(&inner, a, b);
        }
    }
    let (a, b) = trim_bounds(&v);
    string_of_range(&v, a, b)
}

/// The host of a URL as the rate limiter keys it: after the scheme's `"://"`
/// (if any), before the first `'/'`, and before the first `':'`.
pub open spec fn host_key(t: Seq<char>) -> Seq<char> {
    let after = match find_first(t, "://"@) {
        Some(p) => t.subrange(p + "://"@.len(), t.len() as int),
        None => t,
    };
    before_char(before_char(after, '/'), ':')
}

/// The lower-cased host of a trimmed URL; `None` for a blank URL or an empty
/// host.
pub open spec fn domain_of(s: Seq<char>) -> Option<Seq<char>> {
    let t = trim(s);
    if t.len() == 0 || host_key(t).len() == 0 {
        None
    } else {
        Some(lowercase(host_key(t)))
    }
}

/// The domain a request to `url` goes to.
pub fn extract_domain(url: &str) -> (r: Option<String>)
    ensures
        r matches Some(d) ==> domain_of(url@) == Some(d@),
        r is None ==> domain_of(url@) is None,
{
    let t = trim_chars(&to_chars(url));
    if t.len() == 0 {
        return None;
    }
    let sep = to_chars("://");
    let after = match find_sub(&t, &sep) {
        Some(p) => {
            proof {
                lemma_find_from(t@, sep@, 0);
            }
            slice_chars(&t, p + sep.len(), t.len())
        },
        None => t,
    };
    proof {
        lemma_char_pos(after@, '/');
    }
    let h1 = slice_chars(&after, 0, index_of_char(&after, '/'));
    proof {
        lemma_char_pos(h1@, ':');
    }
    let h2 = slice_chars(&h1, 0, index_of_char(&h1, ':'));
    if h2.len() == 0 {
        None
    } else {
        let s = string_of(&h2);
        Some(to_lowercase(s.as_str()))
    }
}

} // verus!
