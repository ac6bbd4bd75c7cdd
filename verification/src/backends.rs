//! The library backends the backend picker manages: their saved
//! configuration, unique names, renaming and adding.
use vstd::prelude::*;
use vstd::set_lib::{lemma_int_range, lemma_len_subset, lemma_map_size, set_int_range};
use crate::models::{BackendKind, LibraryConfig};
use crate::text::{
    decimal, decimal_string, lemma_decimal_injective, push_char, push_str, starts_with,
    starts_with_chars, str_eq, to_chars,
};

verus! {

/// A library backend as the picker sees it: its name, whether it is this
/// machine's or a server, and the server's URL.
#[derive(Debug, PartialEq)]
pub struct Backend {
    pub name: String,
    pub kind: BackendKind,
    pub url: Option<String>,
}

/// Whether a backend is named `name`.
pub open spec fn taken(bs: Seq<Backend>, name: Seq<char>) -> bool {
    exists|j: int| 0 <= j < bs.len() && #[trigger] bs[j].name@ == name
}

/// The name `desired-k`.
pub open spec fn numbered(desired: Seq<char>, k: nat) -> Seq<char> {
    desired + seq!['-'] + decimal(k)
}

/// Whether `r` is the name `unique_backend_name` picks for `desired`:
/// `desired` itself when free, else `desired-k` for the least `k >= 2`
/// that is free.
pub open spec fn unique_choice(bs: Seq<Backend>, desired: Seq<char>, r: Seq<char>) -> bool {
    if !taken(bs, desired) {
        r == desired
    } else {
        exists|k: nat|
            k >= 2 && r == numbered(desired, k) && !taken(bs, numbered(desired, k)) && forall|m: nat|
                2 <= m < k ==> taken(bs, #[trigger] numbered(desired, m))
    }
}

/// The configuration saved for a backend: its name and URL (empty for
/// none), not the default.
pub open spec fn config_of(b: Backend, c: LibraryConfig) -> bool {
    &&& c.name@ == b.name@
    &&& c.url@ == match b.url {
        Some(u) => u@,
        None => seq![],
    }
    &&& !c.default
}

/// Whether some backend is named `name`.
fn name_taken(bs: &[Backend], name: &str) -> (r: bool)
    ensures
        r == taken(bs@, name@),
{
    let mut i: usize = 0;
    while i < bs.len()
        invariant
            i <= bs.len(),
            forall|k: int| 0 <= k < i ==> bs@[k].name@ != name@,
        decreases bs.len() - i,
    {
        if str_eq(bs[i].name.as_str(), name) {
            return true;
        }
        i = i + 1;
    }
    false
}

proof fn lemma_numbered_injective(desired: Seq<char>, a: nat, b: nat)
    requires
        numbered(desired, a) == numbered(desired, b),
    ensures
        a == b,
{
    let n = desired.len() + 1;
    assert(numbered(desired, a).skip(n as int) =~= decimal(a));
    assert(numbered(desired, b).skip(n as int) =~= decimal(b));
    lemma_decimal_injective(a, b);
}

/// Among `n + 1` numbered names some is free, as `n` backends hold at most
/// `n` names.
proof fn lemma_some_number_free(bs: Seq<Backend>, desired: Seq<char>)
    ensures
        exists|m: nat| 2 <= m <= bs.len() + 2 && !taken(bs, #[trigger] numbered(desired, m)),
{
    if forall|m: nat| 2 <= m <= bs.len() + 2 ==> taken(bs, #[trigger] numbered(desired, m)) {
        let n = bs.len() as int;
        let x = set_int_range(2, n + 3);
        let owner = |m: int|
            choose|j: int| 0 <= j < bs.len() && bs[j].name@ == numbered(desired, m as nat);
        lemma_int_range(2, n + 3);
        lemma_int_range(0, n);
        assert forall|m: int| #[trigger] x.contains(m) implies 0 <= owner(m) < n && bs[owner(
            m,
        )].name@ == numbered(desired, m as nat) by {
            assert(taken(bs, numbered(desired, m as nat)));
        }
        assert(vstd::relations::injective_on(owner, x)) by {
            assert forall|a: int, b: int|
                x.contains(a) && x.contains(b) && #[trigger] owner(a) == #[trigger] owner(
                    b,
                ) implies a == b by {
                lemma_numbered_injective(desired, a as nat, b as nat);
            }
        }
        let y = x.map(owner);
        lemma_map_size(x, y, owner);
        assert(y.subset_of(set_int_range(0, n))) by {
            assert forall|j: int| #[trigger] y.contains(j) implies set_int_range(0, n).contains(
                j,
            ) by {
                let m = choose|m: int| x.contains(m) && owner(m) == j;
            }
        }
        lemma_len_subset(y, set_int_range(0, n));
        assert(false);
    }
}

/// The text `desired-k`.
fn numbered_exec(desired: &str, k: u64) -> (r: String)
    ensures
        r@ == numbered(desired@, k as nat),
{
    let mut r = String::new();
    push_str(&mut r, desired);
    push_char(&mut r, '-');
    push_str(&mut r, decimal_string(k).as_str());
    r
}

/// `desired` when no backend uses it, else `desired-2`, `desired-3`, ...:
/// the first that is free.
pub fn unique_backend_name(backends: &[Backend], desired: &str) -> (r: String)
    requires
        backends@.len() + 2 <= u64::MAX,
    ensures
        unique_choice(backends@, desired@, r@),
{
    if !name_taken(backends, desired) {
        return desired.to_owned();
    }
    proof {
        lemma_some_number_free(backends@, desired@);
    }
    let n = backends.len() as u64;
    let mut suffix: u64 = 2;
    loop
        invariant
            2 <= suffix <= n + 2,
            n == backends@.len(),
            n + 2 <= u64::MAX,
            taken(backends@, desired@),
            forall|m: nat| 2 <= m < suffix ==> taken(backends@, #[trigger] numbered(desired@, m)),
            exists|m: nat| 2 <= m <= n + 2 && !taken(backends@, #[trigger] numbered(desired@, m)),
        decreases n + 2 - suffix,
    {
        let c = numbered_exec(desired, suffix);
        if !name_taken(backends, c.as_str()) {
            assert(unique_choice(backends@, desired@, c@)) by {
                assert(numbered(desired@, suffix as nat) == c@);
            }
            return c;
        }
        assert(taken(backends@, numbered(desired@, suffix as nat)));
        assert(suffix < n + 2) by {
            if suffix == n + 2 {
                let m = choose|m: nat| 2 <= m <= n + 2 && !taken(
                    backends@,
                    #[trigger] numbered(desired@, m),
                );
                if m < suffix {
                }
            }
        }
        suffix = suffix + 1;
    }
}

/// The saved configuration of each backend, in order.
pub fn backend_configs(backends: &[Backend]) -> (r: Vec<LibraryConfig>)
    ensures
        r@.len() == backends@.len(),
        forall|i: int| 0 <= i < r@.len() ==> config_of(backends@[i], #[trigger] r@[i]),
{
    let mut r: Vec<LibraryConfig> = Vec::new();
    let mut i: usize = 0;
    while i < backends.len()
        invariant
            i <= backends.len(),
            r@.len() == i,
            forall|k: int| 0 <= k < i ==> config_of(backends@[k], #[trigger] r@[k]),
        decreases backends.len() - i,
    {
        let b = &backends[i];
        let url = match &b.url {
            Some(u) => u.clone(),
            None => String::new(),
        };
        r.push(LibraryConfig { name: b.name.clone(), url, default: false });
        i = i + 1;
    }
    r
}

/// Gives the backend at `idx` the name `name` (made unique), as a server
/// backend that keeps its URL (empty when it had none). Renaming to the
/// current name, or a position past the end, changes nothing.
pub fn rename_backend(backends: &mut Vec<Backend>, idx: usize, name: String)
    requires
        old(backends)@.len() + 2 <= u64::MAX,
    ensures
        if idx >= old(backends)@.len() || old(backends)@[idx as int].name@ == name@ {
            final(backends)@ == old(backends)@
        } else {
            &&& final(backends)@.len() == old(backends)@.len()
            &&& forall|j: int|
                0 <= j < old(backends)@.len() && j != idx ==> final(backends)@[j] == old(
                    backends,
                )@[j]
            &&& unique_choice(old(backends)@, name@, final(backends)@[idx as int].name@)
            &&& final(backends)@[idx as int].kind == BackendKind::Remote
            &&& final(backends)@[idx as int].url is Some
            &&& final(backends)@[idx as int].url->0@ == match old(backends)@[idx as int].url {
                Some(u) => u@,
                None => seq![],
            }
        },
{
    if idx >= backends.len() {
        return;
    }
    let url = match &backends[idx].url {
        Some(u) => u.clone(),
        None => String::new(),
    };
    if str_eq(backends[idx].name.as_str(), name.as_str()) {
        return;
    }
    let unique = unique_backend_name(backends.as_slice(), name.as_str());
    backends.remove(idx);
    backends.insert(idx, Backend { name: unique, kind: BackendKind::Remote, url: Some(url) });
}

/// Adds a server backend for what was entered: a URL is used as it is,
/// under the name `remote`; anything else is a name, served at
/// `http://` followed by it. The name is made unique.
pub fn add_backend(backends: &mut Vec<Backend>, entered: &str)
    requires
        old(backends)@.len() + 2 <= u64::MAX,
    ensures
        final(backends)@.len() == old(backends)@.len() + 1,
        final(backends)@.drop_last() == old(backends)@,
        final(backends)@.last().kind == BackendKind::Remote,
        final(backends)@.last().url is Some,
        if starts_with(entered@, "http://"@) || starts_with(entered@, "https://"@) {
            &&& unique_choice(old(backends)@, "remote"@, final(backends)@.last().name@)
            &&& final(backends)@.last().url->0@ == entered@
        } else {
            &&& unique_choice(old(backends)@, entered@, final(backends)@.last().name@)
            &&& final(backends)@.last().url->0@ == "http://"@ + entered@
        },
{
    let v = to_chars(entered);
    let is_url = starts_with_chars(&v, &to_chars("http://")) || starts_with_chars(
        &v,
        &to_chars("https://"),
    );
    let (desired, url) = if is_url {
        ("remote".to_owned(), entered.to_owned())
    } else {
        let mut u = String::new();
        push_str(&mut u, "http://");
        push_str(&mut u, entered);
        (entered.to_owned(), u)
    };
    let name = unique_backend_name(backends.as_slice(), desired.as_str());
    backends.push(Backend { name, kind: BackendKind::Remote, url: Some(url) });
    assert(backends@.drop_last() =~= old(backends)@);
}

} // verus!
