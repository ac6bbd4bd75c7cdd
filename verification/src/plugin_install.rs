//! Installing plugins from GitHub: reading a repository reference, where
//! its latest release is asked for, and which release files are plugins.
use vstd::prelude::*;
use crate::text::{
    before_char, char_pos, ends_with, ends_with_chars, index_of_char, lemma_char_pos, push_str,
    slice_chars, starts_with, starts_with_chars, string_of, string_of_range, to_chars, trim,
    trim_chars, trim_str,
};

verus! {

/// `s` with `p` removed from its end as often as it ends with `p`
/// (`str::trim_end_matches`).
pub open spec fn strip_suffix_all(s: Seq<char>, p: Seq<char>) -> Seq<char>
    decreases s.len(),
{
    if p.len() > 0 && ends_with(s, p) {
        strip_suffix_all(s.subrange(0, s.len() - p.len()), p)
    } else {
        s
    }
}

/// The reference as written, without surrounding whitespace, trailing
/// `.git` and trailing slashes.
pub open spec fn cleaned_repo_ref(url: Seq<char>) -> Seq<char> {
    strip_suffix_all(strip_suffix_all(trim(url), ".git"@), seq!['/'])
}

/// The `owner/repo...` part of a reference: after `https://github.com/`,
/// `git@github.com:` or `github.com/`, or all of it.
pub open spec fn repo_path(url: Seq<char>) -> Seq<char> {
    let u = cleaned_repo_ref(url);
    if starts_with(u, "https://github.com/"@) {
        u.skip("https://github.com/"@.len() as int)
    } else if starts_with(u, "git@github.com:"@) {
        u.skip("git@github.com:"@.len() as int)
    } else if starts_with(u, "github.com/"@) {
        u.skip("github.com/"@.len() as int)
    } else {
        u
    }
}

/// The owner and repository a reference names: the first two `/`-separated
/// pieces of its path, both non-empty.
pub open spec fn github_parts(url: Seq<char>) -> Option<(Seq<char>, Seq<char>)> {
    let p = repo_path(url);
    let k = char_pos(p, '/');
    let owner = p.subrange(0, k);
    if k >= p.len() {
        None
    } else {
        let repo = before_char(p.skip(k + 1), '/');
        if owner.len() == 0 || repo.len() == 0 {
            None
        } else {
            Some((owner, repo))
        }
    }
}

/// Strips `p` from the end of `v` as often as `v` ends with it.
fn strip_suffix_all_exec(v: Vec<char>, p: &Vec<char>) -> (r: Vec<char>)
    ensures
        r@ == strip_suffix_all(v@, p@),
{
    let mut cur = v;
    while p.len() > 0 && ends_with_chars(&cur, p)
        invariant
            strip_suffix_all(cur@, p@) == strip_suffix_all(v@, p@),
        decreases cur.len(),
    {
        let n = cur.len() - p.len();
        cur = slice_chars(&cur, 0, n);
    }
    cur
}

/// The owner and repository of a GitHub repository reference
/// (`https://github.com/owner/repo`, `git@github.com:owner/repo`,
/// `github.com/owner/repo` or `owner/repo`, with optional `.git` and
/// trailing slashes).
pub fn parse_github_url(url: &str) -> (r: Result<(String, String), String>)
    ensures
        match r {
            Ok((owner, repo)) => github_parts(url@) == Some((owner@, repo@)),
            Err(e) => github_parts(url@) is None && e@ == "Invalid GitHub URL: "@
                + cleaned_repo_ref(url@) + ". Expected https://github.com/owner/repo"@,
        },
{
    let git = to_chars(".git");
    let mut slash: Vec<char> = Vec::new();
    slash.push('/');
    assert(slash@ =~= seq!['/']);
    let t = to_chars(trim_str(url).as_str());
    let u = strip_suffix_all_exec(strip_suffix_all_exec(t, &git), &slash);
    let https = to_chars("https://github.com/");
    let ssh = to_chars("git@github.com:");
    let bare = to_chars("github.com/");
    let path = if starts_with_chars(&u, &https) {
        slice_chars(&u, https.len(), u.len())
    } else if starts_with_chars(&u, &ssh) {
        slice_chars(&u, ssh.len(), u.len())
    } else if starts_with_chars(&u, &bare) {
        slice_chars(&u, bare.len(), u.len())
    } else {
        slice_chars(&u, 0, u.len())
    };
    assert(path@ =~= repo_path(url@));
    let k = index_of_char(&path, '/');
    proof {
        lemma_char_pos(path@, '/');
    }
    if k < path.len() {
        let rest = slice_chars(&path, k + 1, path.len());
        assert(rest@ =~= path@.skip(k + 1));
        let j = index_of_char(&rest, '/');
        proof {
            lemma_char_pos(rest@, '/');
        }
        if k > 0 && j > 0 {
            return Ok((string_of_range(&path, 0, k), string_of_range(&rest, 0, j)));
        }
    }
    let mut e = String::new();
    push_str(&mut e, "Invalid GitHub URL: ");
    push_str(&mut e, string_of(&u).as_str());
    push_str(&mut e, ". Expected https://github.com/owner/repo");
    Err(e)
}

/// Where the latest release of `owner/repo` is asked for.
pub fn release_api_url(owner: &str, repo: &str) -> (r: String)
    ensures
        r@ == "https://api.github.com/repos/"@ + owner@ + "/"@ + repo@ + "/releases/latest"@,
{
    let mut out = "https://api.github.com/repos/".to_string();
    push_str(&mut out, owner);
    push_str(&mut out, "/");
    push_str(&mut out, repo);
    push_str(&mut out, "/releases/latest");
    out
}

/// The domain a release file installs a plugin for: only files named
/// `plugin-<domain>.wasm` are plugins, and the domain is what stands
/// between the prefix and the extension; nothing for other files.
pub open spec fn asset_domain(name: Seq<char>) -> Option<Seq<char>> {
    if ends_with(name, ".wasm"@) {
        let stem = name.subrange(0, name.len() - 5);
        if starts_with(stem, "plugin-"@) {
            Some(stem.subrange(7, stem.len() as int))
        } else {
            None
        }
    } else {
        None
    }
}

/// The domain a release file installs a plugin for, if it is a plugin.
pub fn wasm_asset_domain(name: &str) -> (r: Option<String>)
    ensures
        match r {
            Some(d) => asset_domain(name@) == Some(d@),
            None => asset_domain(name@) is None,
        },
{
    let v = to_chars(name);
    let ext = to_chars(".wasm");
    let prefix = to_chars("plugin-");
    proof {
        reveal_strlit(".wasm");
        reveal_strlit("plugin-");
    }
    if !ends_with_chars(&v, &ext) {
        return None;
    }
    let stem = slice_chars(&v, 0, v.len() - 5);
    if starts_with_chars(&stem, &prefix) {
        Some(string_of_range(&stem, 7, stem.len()))
    } else {
        None
    }
}

} // verus!
