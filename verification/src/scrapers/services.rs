//! The scraper registry: which installed plugin serves a URL, and what a
//! plugin's answers become.
use vstd::prelude::*;
use vstd::utf8::encode_utf8;
use crate::models::{Book, BookStatus, Chapter};
use crate::plugin_api::{ChapterOutput, ConfigField, PluginChapter, ScrapeOutput};
use crate::plugin_config::{cookie_header, cookie_line_list, loaded_config, PluginConfig};
use crate::text::{join_strings, join, views,
    before_char, char_pos, chars_eq, ends_with, ends_with_chars, find_first, find_sub,
    index_of_char, last_char_pos, last_index_of_char, lemma_char_pos, lemma_find_from,
    lemma_last_char_pos, push_str, slice_chars, starts_with, starts_with_chars, str_eq,
    string_of, string_of_range, to_chars,
};

verus! {

/// A URL after its scheme's `"://"`, or all of it when it has none.
pub open spec fn after_scheme(url: Seq<char>) -> Seq<char> {
    match find_first(url, "://"@) {
        Some(p) => url.subrange(p + "://"@.len(), url.len() as int),
        None => url,
    }
}

/// The host a URL names: after the scheme, before the path, the query and
/// the fragment, and after any `user:password@`.
pub open spec fn url_host(url: Seq<char>) -> Seq<char> {
    let h = before_char(before_char(before_char(after_scheme(url), '/'), '?'), '#');
    match last_char_pos(h, '@') {
        Some(a) => h.subrange(a + 1, h.len() as int),
        None => h,
    }
}

/// The pieces of `s` between the separators `c` (`str::split`): there is
/// always one more piece than separators.
pub open spec fn segments(s: Seq<char>, c: char) -> Seq<Seq<char>>
    decreases s.len(),
{
    proof {
        lemma_char_pos(s, c);
    }
    let p = char_pos(s, c);
    if p < s.len() {
        seq![s.subrange(0, p)] + segments(s.subrange(p + 1, s.len() as int), c)
    } else {
        seq![s]
    }
}

/// Whether a plugin's domain serves a host. A domain with a dot serves
/// itself and its subdomains; one without a dot serves a host that has it
/// as a dot-separated piece other than the last one.
pub open spec fn domain_matches(domain: Seq<char>, host: Seq<char>) -> bool {
    if domain.contains('.') {
        host == domain || ends_with(host, seq!['.'] + domain)
    } else {
        segments(host, '.').contains(domain) && segments(host, '.').last() != domain
    }
}

/// The length `str::len` gives a text: its number of UTF-8 bytes.
pub open spec fn byte_len(s: Seq<char>) -> usize {
    encode_utf8(s).len() as usize
}

/// Installed plugins taken by their texts: domain and file.
pub open spec fn plugin_views(ps: Seq<(String, String)>) -> Seq<(Seq<char>, Seq<char>)> {
    ps.map_values(|p: (String, String)| (p.0@, p.1@))
}

/// Whether a URL goes to the template plugin: it starts with `template`
/// and that plugin is installed.
pub open spec fn template_route(ps: Seq<(Seq<char>, Seq<char>)>, url: Seq<char>) -> bool {
    starts_with(url, "template"@) && exists|i: int| 0 <= i < ps.len() && #[trigger] ps[i].0 == "template"@
}

/// Whether `i` is the first installed template plugin.
pub open spec fn first_template(ps: Seq<(Seq<char>, Seq<char>)>, i: int) -> bool {
    &&& 0 <= i < ps.len()
    &&& ps[i].0 == "template"@
    &&& forall|j: int| 0 <= j < i ==> #[trigger] ps[j].0 != "template"@
}

/// Whether some installed plugin serves a host.
pub open spec fn any_match(ps: Seq<(Seq<char>, Seq<char>)>, host: Seq<char>) -> bool {
    exists|j: int| 0 <= j < ps.len() && #[trigger] domain_matches(ps[j].0, host)
}

/// Whether `i` is the plugin chosen for a host: it serves the host, no
/// plugin that serves it has a longer domain, and every earlier one that
/// serves it has a shorter domain.
pub open spec fn best_match(ps: Seq<(Seq<char>, Seq<char>)>, host: Seq<char>, i: int) -> bool {
    &&& 0 <= i < ps.len()
    &&& domain_matches(ps[i].0, host)
    &&& forall|j: int|
        0 <= j < ps.len() && #[trigger] domain_matches(ps[j].0, host) ==> byte_len(ps[j].0)
            <= byte_len(ps[i].0)
    &&& forall|j: int|
        0 <= j < i && #[trigger] domain_matches(ps[j].0, host) ==> byte_len(ps[j].0) < byte_len(
            ps[i].0,
        )
}

/// Whether `i` is the plugin chosen for a URL.
pub open spec fn picks(ps: Seq<(Seq<char>, Seq<char>)>, url: Seq<char>, i: int) -> bool {
    if template_route(ps, url) {
        first_template(ps, i)
    } else {
        best_match(ps, url_host(url), i)
    }
}

/// The error when no plugin serves a URL.
pub open spec fn no_plugin_message(url: Seq<char>) -> Seq<char> {
    "No plugin found for: "@ + url + "\nInstall a plugin to ~/.config/scylla-reader/plugins/"@
}

/// The domain a plugin file's name gives: `plugin-<domain>.wasm`.
pub open spec fn plugin_domain_of(name: Seq<char>) -> Option<Seq<char>> {
    match last_char_pos(name, '.') {
        Some(p) => if p > 0 && name.subrange(p + 1, name.len() as int) == "wasm"@ && starts_with(
            name.subrange(0, p),
            "plugin-"@,
        ) {
            Some(name.subrange("plugin-"@.len() as int, p))
        } else {
            None
        },
        None => None,
    }
}

/// The plugins that files of the plugin directory give, in order: each
/// `(file name, path)` named like a plugin gives its domain and path.
pub open spec fn registered(entries: Seq<(Seq<char>, Seq<char>)>) -> Seq<(Seq<char>, Seq<char>)>
    decreases entries.len(),
{
    if entries.len() == 0 {
        seq![]
    } else {
        let rest = registered(entries.drop_last());
        match plugin_domain_of(entries.last().0) {
            Some(d) => rest.push((d, entries.last().1)),
            None => rest,
        }
    }
}

/// A URL has at most one chosen plugin: the template plugin installed
/// first, or the earliest of the longest domains that serve its host.
pub proof fn lemma_pick_unique(ps: Seq<(Seq<char>, Seq<char>)>, url: Seq<char>, i: int, j: int)
    requires
        picks(ps, url, i),
        picks(ps, url, j),
    ensures
        i == j,
{
    if template_route(ps, url) {
        if i < j {
            assert(ps[i].0 == "template"@);
        } else if j < i {
            assert(ps[j].0 == "template"@);
        }
    } else {
        let host = url_host(url);
        assert(domain_matches(ps[i].0, host));
        assert(domain_matches(ps[j].0, host));
    }
}

/// The chapters a plugin lists, as the library keeps them.
pub open spec fn chapters_of(cs: Seq<PluginChapter>) -> Seq<Chapter> {
    cs.map_values(|c: PluginChapter| Chapter { title: c.title, url: c.url, order: c.order })
}

/// Why a plugin's answer for a book is refused: it has no title, no URL or
/// no chapters, checked in that order.
pub open spec fn book_refusal(o: ScrapeOutput) -> Option<Seq<char>> {
    if o.title@.len() == 0 {
        Some("scrape failed: plugin returned empty title"@)
    } else if o.url@.len() == 0 {
        Some("scrape failed: plugin returned empty URL"@)
    } else if o.chapters@.len() == 0 {
        Some("scrape failed: plugin returned 0 chapters"@)
    } else {
        None
    }
}

/// Why a plugin's answer for a chapter is refused: it has no title, then
/// no text.
pub open spec fn chapter_refusal(o: ChapterOutput) -> Option<Seq<char>> {
    if o.title@.len() == 0 {
        Some("scrape failed: plugin returned empty chapter title"@)
    } else if o.content@.len() == 0 {
        Some("scrape failed: plugin returned empty chapter content"@)
    } else {
        None
    }
}

/// The cookie header a plugin's stored configuration holds, when it has
/// one that is not empty.
pub open spec fn stored_cookie_header(text: Seq<char>) -> Option<Seq<char>> {
    let h = cookie_header(loaded_config(text, seq![]).1);
    if h.len() == 0 {
        None
    } else {
        Some(h)
    }
}

proof fn lemma_segments_step(s: Seq<char>, c: char)
    ensures
        char_pos(s, c) < s.len() ==> segments(s, c) == seq![s.subrange(0, char_pos(s, c))]
            + segments(s.subrange(char_pos(s, c) + 1, s.len() as int), c),
        char_pos(s, c) >= s.len() ==> segments(s, c) == seq![s],
        0 <= char_pos(s, c) <= s.len(),
{
    lemma_char_pos(s, c);
}

/// The pieces of `v` between the separators `c`.
fn split_on(v: &Vec<char>, c: char) -> (out: Vec<Vec<char>>)
    ensures
        crate::text::char_views(out@) == segments(v@, c),
{
    let mut out: Vec<Vec<char>> = Vec::new();
    let mut rest: Vec<char> = slice_chars(v, 0, v.len());
    assert(v@.subrange(0, v.len() as int) =~= v@);
    loop
        invariant
            segments(v@, c) == crate::text::char_views(out@) + segments(rest@, c),
        decreases rest.len(),
    {
        proof {
            lemma_segments_step(rest@, c);
        }
        let p = index_of_char(&rest, c);
        if p < rest.len() {
            let piece = slice_chars(&rest, 0, p);
            let tail = slice_chars(&rest, p + 1, rest.len());
            let ghost before = crate::text::char_views(out@);
            out.push(piece);
            assert(crate::text::char_views(out@) =~= before.push(piece@));
            assert(before.push(piece@) + segments(tail@, c) =~= before + (seq![piece@] + segments(
                tail@,
                c,
            )));
            rest = tail;
        } else {
            let ghost before = crate::text::char_views(out@);
            let r = rest.clone();
            out.push(r);
            assert(crate::text::char_views(out@) =~= before.push(rest@));
            assert(before.push(rest@) =~= before + seq![rest@]);
            return out;
        }
    }
}

/// Whether a plugin's domain serves a host.
fn match_domain(domain: &str, host: &Vec<char>) -> (r: bool)
    ensures
        r == domain_matches(domain@, host@),
{
    let d = to_chars(domain);
    proof {
        lemma_char_pos(d@, '.');
        if d@.contains('.') {
            let k = choose|k: int| 0 <= k < d@.len() && d@[k] == '.';
            assert(char_pos(d@, '.') <= k);
        }
    }
    let has_dot = index_of_char(&d, '.') < d.len();
    assert(has_dot == d@.contains('.'));
    if has_dot {
        let mut dotted: Vec<char> = Vec::new();
        dotted.push('.');
        let mut i: usize = 0;
        while i < d.len()
            invariant
                i <= d.len(),
                dotted@ == seq!['.'] + d@.take(i as int),
            decreases d.len() - i,
        {
            dotted.push(d[i]);
            assert(d@.take(i + 1) =~= d@.take(i as int).push(d@[i as int]));
            assert(dotted@ =~= seq!['.'] + d@.take(i + 1));
            i = i + 1;
        }
        assert(d@.take(d.len() as int) =~= d@);
        chars_eq(host, &d) || ends_with_chars(host, &dotted)
    } else {
        let segs = split_on(host, '.');
        let ghost sv = crate::text::char_views(segs@);
        let mut found = false;
        let mut i: usize = 0;
        while i < segs.len()
            invariant
                i <= segs.len(),
                sv == crate::text::char_views(segs@),
                found == exists|k: int| 0 <= k < i && #[trigger] sv[k] == d@,
            decreases segs.len() - i,
        {
            if chars_eq(&segs[i], &d) {
                found = true;
            }
            assert(sv[i as int] == segs@[i as int]@);
            i = i + 1;
        }
        proof {
            if found {
                let k = choose|k: int| 0 <= k < segs.len() && #[trigger] sv[k] == d@;
                assert(sv.contains(d@));
            }
            if sv.contains(d@) {
                let k = choose|k: int| 0 <= k < sv.len() && sv[k] == d@;
                assert(sv[k] == d@);
            }
            lemma_segments_step(host@, '.');
        }
        assert(segs.len() > 0);
        let last_differs = !chars_eq(&segs[segs.len() - 1], &d);
        assert(sv.last() == segs@[segs.len() - 1]@);
        found && last_differs
    }
}

/// What a plugin file's name makes of it: the domain of
/// `plugin-<domain>.wasm`, or nothing.
pub fn plugin_domain(file_name: &str) -> (r: Option<String>)
    ensures
        match r {
            Some(d) => plugin_domain_of(file_name@) == Some(d@),
            None => plugin_domain_of(file_name@) is None,
        },
{
    let v = to_chars(file_name);
    let wasm = to_chars("wasm");
    let prefix = to_chars("plugin-");
    proof {
        lemma_last_char_pos(v@, '.');
    }
    match last_index_of_char(&v, '.') {
        Some(p) => {
            if p == 0 {
                return None;
            }
            let ext = slice_chars(&v, p + 1, v.len());
            let stem = slice_chars(&v, 0, p);
            if chars_eq(&ext, &wasm) && starts_with_chars(&stem, &prefix) {
                assert(stem@.subrange(prefix.len() as int, p as int) =~= v@.subrange(
                    prefix.len() as int,
                    p as int,
                ));
                Some(string_of_range(&stem, prefix.len(), p))
            } else {
                None
            }
        },
        None => None,
    }
}

/// The cookie header of a fetch request a plugin sends: what follows its
/// first NUL, or nothing when it has none.
pub open spec fn request_cookies(input: Seq<char>) -> Seq<char> {
    let p = char_pos(input, '\0');
    if p < input.len() {
        input.subrange(p + 1, input.len() as int)
    } else {
        seq![]
    }
}

/// A fetch request a plugin sends, split into its URL (up to the first
/// NUL) and its cookie header (after it).
pub fn split_fetch_request(input: &str) -> (r: (String, String))
    ensures
        r.0@ == before_char(input@, '\0'),
        r.1@ == request_cookies(input@),
{
    let v = to_chars(input);
    proof {
        lemma_char_pos(v@, '\0');
    }
    let p = index_of_char(&v, '\0');
    let url = string_of_range(&v, 0, p);
    if p < v.len() {
        (url, string_of_range(&v, p + 1, v.len()))
    } else {
        (url, String::new())
    }
}

/// The installed plugins: a domain and the file that serves it.
#[derive(Debug)]
pub struct ScraperRegistry {
    pub plugins: Vec<(String, String)>,
}

impl ScraperRegistry {
    /// The book a plugin answered with, or why the answer is refused.
    pub fn book_from_output(output: ScrapeOutput) -> (r: Result<Book, String>)
        ensures
            match r {
                Ok(b) => {
                    &&& book_refusal(output) is None
                    &&& b.title == output.title
                    &&& b.url == output.url
                    &&& b.status == BookStatus::Reading
                    &&& b.sessions@.len() == 0
                    &&& b.active_session_id is None
                    &&& b.tags@.len() == 0
                    &&& b.cover_url == output.cover_url
                    &&& b.description == output.description
                    &&& b.chapters@ == chapters_of(output.chapters@)
                },
                Err(e) => book_refusal(output) == Some(e@),
            },
    {
        if output.title.as_str().is_empty() {
            return Err("scrape failed: plugin returned empty title".to_string());
        }
        if output.url.as_str().is_empty() {
            return Err("scrape failed: plugin returned empty URL".to_string());
        }
        if output.chapters.len() == 0 {
            return Err("scrape failed: plugin returned 0 chapters".to_string());
        }
        let ghost listed = output.chapters@;
        let ScrapeOutput { title, url, cover_url, description, total_chapters: _, chapters: listed_chapters } = output;
        let mut chapters: Vec<Chapter> = Vec::new();
        let mut i: usize = 0;
        while i < listed_chapters.len()
            invariant
                i <= listed_chapters.len(),
                listed_chapters@ == listed,
                chapters@ == chapters_of(listed.take(i as int)),
            decreases listed_chapters.len() - i,
        {
            let c = &listed_chapters[i];
            chapters.push(Chapter { title: c.title.clone(), url: c.url.clone(), order: c.order });
            assert(chapters_of(listed.take(i + 1)) =~= chapters_of(listed.take(i as int)).push(
                Chapter { title: listed[i as int].title, url: listed[i as int].url, order: listed[i as int].order },
            ));
            i = i + 1;
        }
        assert(listed.take(listed.len() as int) =~= listed);
        Ok(
            Book {
                title,
                url,
                status: BookStatus::Reading,
                sessions: Vec::new(),
                active_session_id: None,
                tags: Vec::new(),
                cover_url,
                description,
                chapters,
            },
        )
    }

    /// A chapter's title and text as a plugin answered them, or why the
    /// answer is refused: no title, then no text.
    pub fn chapter_from_output(output: ChapterOutput) -> (r: Result<(String, String), String>)
        ensures
            match r {
                Ok(tc) => chapter_refusal(output) is None && tc.0 == output.title && tc.1
                    == output.content,
                Err(e) => chapter_refusal(output) == Some(e@),
            },
    {
        if output.title.as_str().is_empty() {
            return Err("scrape failed: plugin returned empty chapter title".to_string());
        }
        if output.content.as_str().is_empty() {
            return Err("scrape failed: plugin returned empty chapter content".to_string());
        }
        Ok((output.title, output.content))
    }

    /// The cookie header kept in a plugin's stored configuration text:
    /// its `_cookies` lines that count, joined by `"; "`; nothing when
    /// that is empty or the text holds no configuration.
    pub fn load_cookies_for_domain(contents: &str) -> (r: Option<String>)
        ensures
            match r {
                Some(h) => stored_cookie_header(contents@) == Some(h@),
                None => stored_cookie_header(contents@) is None,
            },
    {
        let no_fields: Vec<ConfigField> = Vec::new();
        assert(no_fields@ =~= seq![]);
        let (_, cookies) = PluginConfig::load_values(contents, no_fields.as_slice());
        let kept = cookie_line_list(cookies.as_str());
        let header = join_strings(&kept, "; ");
        if header.as_str().is_empty() {
            None
        } else {
            Some(header)
        }
    }

    /// The registry of a plugin directory's files, each given by its name
    /// and its path; the files named `plugin-<domain>.wasm` register, in
    /// order.
    pub fn from_entries(entries: Vec<(String, String)>) -> (r: ScraperRegistry)
        ensures
            plugin_views(r.plugins@) == registered(plugin_views(entries@)),
    {
        let ghost ev = plugin_views(entries@);
        let mut plugins: Vec<(String, String)> = Vec::new();
        let mut i: usize = 0;
        while i < entries.len()
            invariant
                i <= entries.len(),
                ev == plugin_views(entries@),
                plugin_views(plugins@) == registered(ev.take(i as int)),
            decreases entries.len() - i,
        {
            assert(ev.take(i + 1).drop_last() =~= ev.take(i as int));
            assert(ev.take(i + 1).last() == ev[i as int]);
            match plugin_domain(entries[i].0.as_str()) {
                Some(d) => {
                    let ghost before = plugin_views(plugins@);
                    plugins.push((d, entries[i].1.clone()));
                    assert(plugin_views(plugins@) =~= before.push((d@, ev[i as int].1)));
                },
                None => {},
            }
            i = i + 1;
        }
        assert(ev.take(entries.len() as int) =~= ev);
        ScraperRegistry { plugins }
    }

    /// The host a URL names.
    pub fn extract_host(url: &str) -> (r: String)
        ensures
            r@ == url_host(url@),
    {
        let v = to_chars(url);
        let sep = to_chars("://");
        let after = match find_sub(&v, &sep) {
            Some(p) => {
                proof {
                    lemma_find_from(v@, sep@, 0);
                }
                slice_chars(&v, p + sep.len(), v.len())
            },
            None => v,
        };
        proof {
            lemma_char_pos(after@, '/');
        }
        let h1 = slice_chars(&after, 0, index_of_char(&after, '/'));
        proof {
            lemma_char_pos(h1@, '?');
        }
        let h2 = slice_chars(&h1, 0, index_of_char(&h1, '?'));
        proof {
            lemma_char_pos(h2@, '#');
        }
        let h3 = slice_chars(&h2, 0, index_of_char(&h2, '#'));
        proof {
            lemma_last_char_pos(h3@, '@');
        }
        match last_index_of_char(&h3, '@') {
            Some(a) => string_of_range(&h3, a + 1, h3.len()),
            None => string_of(&h3),
        }
    }

    /// The plugin that serves a URL, by domain and file. A URL starting
    /// with `template` goes to the template plugin when it is installed;
    /// otherwise the plugin whose domain serves the URL's host wins, the
    /// longest domain first, the earliest among equals.
    pub fn find_plugin(&self, url: &str) -> (r: Result<(String, String), String>)
        ensures
            match r {
                Ok(found) => exists|i: int|
                    picks(plugin_views(self.plugins@), url@, i) && #[trigger] plugin_views(
                        self.plugins@,
                    )[i] == (found.0@, found.1@),
                Err(e) => !template_route(plugin_views(self.plugins@), url@) && !any_match(
                    plugin_views(self.plugins@),
                    url_host(url@),
                ) && e@ == no_plugin_message(url@),
            },
    {
        let ghost ps = plugin_views(self.plugins@);
        let u = to_chars(url);
        let tpl = to_chars("template");
        if starts_with_chars(&u, &tpl) {
            let mut i: usize = 0;
            while i < self.plugins.len()
                invariant
                    i <= self.plugins.len(),
                    ps == plugin_views(self.plugins@),
                    starts_with(url@, "template"@),
                    forall|j: int| 0 <= j < i ==> #[trigger] ps[j].0 != "template"@,
                decreases self.plugins.len() - i,
            {
                assert(ps[i as int].0 == self.plugins@[i as int].0@);
                if str_eq(self.plugins[i].0.as_str(), "template") {
                    assert(first_template(ps, i as int));
                    assert(template_route(ps, url@));
                    assert(picks(ps, url@, i as int));
                    let found = (self.plugins[i].0.clone(), self.plugins[i].1.clone());
                    assert(ps[i as int] == (found.0@, found.1@));
                    return Ok(found);
                }
                i = i + 1;
            }
            assert(!template_route(ps, url@));
        }
        let host = to_chars(Self::extract_host(url).as_str());
        let mut best: Option<usize> = None;
        let mut best_len: usize = 0;
        let mut i: usize = 0;
        while i < self.plugins.len()
            invariant
                i <= self.plugins.len(),
                ps == plugin_views(self.plugins@),
                host@ == url_host(url@),
                best is None ==> forall|j: int|
                    0 <= j < i ==> !#[trigger] domain_matches(ps[j].0, host@),
                best matches Some(b) ==> {
                    &&& b < i
                    &&& domain_matches(ps[b as int].0, host@)
                    &&& best_len == byte_len(ps[b as int].0)
                    &&& forall|j: int|
                        0 <= j < i && #[trigger] domain_matches(ps[j].0, host@) ==> byte_len(
                            ps[j].0,
                        ) <= best_len
                    &&& forall|j: int|
                        0 <= j < b && #[trigger] domain_matches(ps[j].0, host@) ==> byte_len(
                            ps[j].0,
                        ) < best_len
                },
            decreases self.plugins.len() - i,
        {
            assert(ps[i as int].0 == self.plugins@[i as int].0@);
            if match_domain(self.plugins[i].0.as_str(), &host) {
                let l = self.plugins[i].0.as_str().len();
                assert(l == byte_len(ps[i as int].0));
                let take = match best {
                    None => true,
                    Some(_) => l > best_len,
                };
                if take {
                    best = Some(i);
                    best_len = l;
                }
            }
            i = i + 1;
        }
        match best {
            Some(b) => {
                assert(best_match(ps, host@, b as int));
                proof {
                    if template_route(ps, url@) {
                        let j = choose|j: int| 0 <= j < ps.len() && #[trigger] ps[j].0 == "template"@;
                        assert(ps[j].0 == "template"@);
                    }
                }
                assert(ps[b as int] == (self.plugins@[b as int].0@, self.plugins@[b as int].1@));
                Ok((self.plugins[b].0.clone(), self.plugins[b].1.clone()))
            },
            None => {
                let mut msg = "No plugin found for: ".to_string();
                push_str(&mut msg, url);
                push_str(&mut msg, "\nInstall a plugin to ~/.config/scylla-reader/plugins/");
                proof {
                    if template_route(ps, url@) {
                        let j = choose|j: int| 0 <= j < ps.len() && #[trigger] ps[j].0 == "template"@;
                        assert(ps[j].0 == "template"@);
                    }
                }
                Err(msg)
            },
        }
    }
}

} // verus!
