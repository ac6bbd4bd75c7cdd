//! The settings page's view of per-site cookie files.
use vstd::prelude::*;
use crate::paths::path_join;
use crate::cookie_store::{config_dir_from, cookie_file_in};

verus! {

/// The reader's configuration directory: `.config/scylla-reader` in the
/// home directory, given the value of `HOME` (none when it is not set).
pub fn config_dir(home: Option<String>) -> (r: String)
    ensures
        r@ == config_dir_from(home),
{
    crate::cookie_store::config_dir(home)
}

/// A site's cookie file.
#[derive(Debug)]
pub struct CookieStore {
    pub domain: String,
    pub path: String,
}

impl CookieStore {
    /// The cookie file of `domain`, in the configuration directory under
    /// the home directory `home` (the value of `HOME`).
    pub fn for_domain(domain: &str, home: Option<String>) -> (r: Self)
        ensures
            r.domain@ == domain@,
            r.path@ == path_join(config_dir_from(home), domain@ + ".txt"@),
    {
        let dir = config_dir(home);
        let path = cookie_file_in(dir.as_str(), domain);
        CookieStore { domain: domain.to_owned(), path }
    }
}

} // verus!
