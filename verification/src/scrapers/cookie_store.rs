//! The scrapers' cookie files, in the reader's configuration directory.
use vstd::prelude::*;
use crate::paths::path_join;
use crate::cookie_store::{config_dir_from, cookie_file_in};

verus! {

/// The scrapers' configuration directory: `.config/scylla-reader` in the
/// home directory, given the value of `HOME` (none when it is not set).
pub fn config_dir(home: Option<String>) -> (r: String)
    ensures
        r@ == config_dir_from(home),
{
    crate::cookie_store::config_dir(home)
}

/// A site's cookie file.
#[derive(Debug)]
pub struct CookieStore {
    pub path: String,
}

impl CookieStore {
    /// Where the file is.
    pub fn path_buf(&self) -> (r: &String)
        ensures
            r == self.path,
    {
        &self.path
    }

    /// The cookie file of `domain`, in the configuration directory under
    /// the home directory `home` (the value of `HOME`).
    pub fn for_domain(domain: &str, home: Option<String>) -> (r: Self)
        ensures
            r.path@ == path_join(config_dir_from(home), domain@ + ".txt"@),
    {
        let dir = config_dir(home);
        CookieStore { path: cookie_file_in(dir.as_str(), domain) }
    }
}

} // verus!
