//! Paths of the reader's files, kept as text: joining a directory and a
//! name, and the directories the environment provides.
use vstd::prelude::*;
use crate::text::{push_char, push_str};

verus! {

/// `comp` under `base`, as `Path::join` makes it: an absolute `comp`
/// replaces `base`; otherwise one `/` separates them unless `base` is empty
/// or already ends with one.
pub open spec fn path_join(base: Seq<char>, comp: Seq<char>) -> Seq<char> {
    if comp.len() > 0 && comp[0] == '/' {
        comp
    } else if base.len() == 0 {
        comp
    } else if base.last() == '/' {
        base + comp
    } else {
        base + seq!['/'] + comp
    }
}

/// Joins `comp` to `base` (see `path_join`).
pub fn join_path(base: &str, comp: &str) -> (r: String)
    ensures
        r@ == path_join(base@, comp@),
{
    let b = crate::text::to_chars(base);
    let c = crate::text::to_chars(comp);
    if c.len() > 0 && c[0] == '/' {
        return comp.to_owned();
    }
    let mut out = String::new();
    push_str(&mut out, base);
    if b.len() > 0 && b[b.len() - 1] != '/' {
        push_char(&mut out, '/');
    }
    push_str(&mut out, comp);
    out
}

/// `dirs::config_local_dir`: the user's local configuration directory, if
/// the platform and environment give one. It depends on the environment,
/// so nothing is claimed of it.
#[verifier::external_body]
pub(crate) fn config_local_dir() -> (r: Option<String>) {
    dirs::config_local_dir().map(|p| p.to_string_lossy().into_owned())
}

/// `dirs::state_dir`: the user's state directory, if the platform and
/// environment give one. It depends on the environment, so nothing is
/// claimed of it.
#[verifier::external_body]
pub(crate) fn state_dir() -> (r: Option<String>) {
    dirs::state_dir().map(|p| p.to_string_lossy().into_owned())
}

/// `Path::exists`: whether something is at `path` on disk now. It depends
/// on the disk, so nothing is claimed of it.
#[verifier::external_body]
pub(crate) fn path_exists(path: &str) -> (r: bool) {
    std::path::Path::new(path).exists()
}

} // verus!
