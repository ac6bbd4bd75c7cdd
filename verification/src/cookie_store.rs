//! Per-site cookie files: where they are and what they hold.
use vstd::prelude::*;
use crate::paths::{join_path, path_join};
use crate::plugin_config::{cookie_header, cookie_line_list, cookie_preview_text};
use crate::text::{join_strings, push_char, push_str, string_of, string_of_range, to_chars, trim_str};

verus! {

/// The reader's configuration directory under the home directory `home`
/// (the value of `HOME`; `/root` when it is not set).
pub open spec fn config_dir_from(home: Option<String>) -> Seq<char> {
    match home {
        Some(h) => path_join(h@, ".config/scylla-reader"@),
        None => path_join("/root"@, ".config/scylla-reader"@),
    }
}

/// The reader's configuration directory: `.config/scylla-reader` in the
/// home directory, given the value of `HOME` (none when it is not set).
pub fn config_dir(home: Option<String>) -> (r: String)
    ensures
        r@ == config_dir_from(home),
{
    match home {
        Some(h) => join_path(h.as_str(), ".config/scylla-reader"),
        None => join_path("/root", ".config/scylla-reader"),
    }
}

/// The cookie file of a site in a directory.
pub fn cookie_file_in(dir: &str, domain: &str) -> (r: String)
    ensures
        r@ == path_join(dir@, domain@ + ".txt"@),
{
    let mut name = String::new();
    push_str(&mut name, domain);
    push_str(&mut name, ".txt");
    join_path(dir, name.as_str())
}

/// A site's cookie file.
#[derive(Debug)]
pub struct CookieStore {
    pub domain: String,
    pub path: String,
}

impl CookieStore {
    /// The cookie file of `domain`, in the configuration directory under
    /// the home directory `home` (the value of `HOME`).
    pub fn for_domain(domain: &str, home: Option<String>) -> (r: Self)
        ensures
            r.domain@ == domain@,
            r.path@ == path_join(config_dir_from(home), domain@ + ".txt"@),
    {
        let dir = config_dir(home);
        let path = cookie_file_in(dir.as_str(), domain);
        CookieStore { domain: domain.to_owned(), path }
    }

    /// Where the file is.
    pub fn path(&self) -> (r: &String)
        ensures
            r == self.path,
    {
        &self.path
    }

    /// The cookie header made of the file's text `contents`: its lines
    /// that count joined by `"; "`, or an error when none counts.
    pub fn load_from(&self, contents: &str) -> (r: Result<String, String>)
        ensures
            match r {
                Ok(h) => h@ == cookie_header(contents@) && h@.len() > 0,
                Err(e) => cookie_header(contents@).len() == 0 && e@ == "Cookie file for '"@
                    + self.domain@ + "' is empty."@,
            },
    {
        let kept = cookie_line_list(contents);
        let h = join_strings(&kept, "; ");
        if h.as_str().is_empty() {
            let mut e = String::new();
            push_str(&mut e, "Cookie file for '");
            push_str(&mut e, self.domain.as_str());
            push_str(&mut e, "' is empty.");
            Err(e)
        } else {
            Ok(h)
        }
    }

    /// How the file's text `raw` reads in the list: trimmed, cut to 40
    /// characters and `...` when longer, `<empty>` when blank.
    pub fn preview(&self, raw: &str) -> (r: String)
        ensures
            r@ == cookie_preview_text(raw@),
    {
        let t = to_chars(trim_str(raw).as_str());
        if t.len() == 0 {
            "<empty>".to_string()
        } else if t.len() > 40 {
            let mut s = string_of_range(&t, 0, 40);
            push_str(&mut s, "...");
            assert(t@.subrange(0, 40) =~= t@.take(40));
            s
        } else {
            string_of(&t)
        }
    }
}

} // verus!
