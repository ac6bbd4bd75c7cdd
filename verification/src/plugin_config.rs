//! Per-site plugin configuration: the values of a plugin's settings, its
//! cookies, how they read in the settings page, and where they are kept.
use vstd::prelude::*;
use crate::paths::{config_local_dir, join_path, path_exists, path_join};
use crate::plugin_api::ConfigField;
use crate::text::{
    char_views, decimal, decimal_string, is_blank, join, join_strings, lines, push_char,
    push_str, split_lines, starts_with, str_eq, str_is_blank, string_of, string_of_range,
    to_chars, trim, trim_bounds, trim_chars, trim_str, views,
};

verus! {

/// The value stored under `key`, if any.
pub open spec fn lookup(s: Seq<(Seq<char>, Seq<char>)>, key: Seq<char>) -> Option<Seq<char>>
    decreases s.len(),
{
    if s.len() == 0 {
        None
    } else if s.last().0 == key {
        Some(s.last().1)
    } else {
        lookup(s.drop_last(), key)
    }
}

/// Whether no key occurs twice.
pub open spec fn distinct_keys(s: Seq<(Seq<char>, Seq<char>)>) -> bool {
    forall|i: int, j: int| 0 <= i < j < s.len() ==> (#[trigger] s[i]).0 != (#[trigger] s[j]).0
}

/// `s` after storing `value` under `key`: the entry for `key` takes the
/// new value, or a new entry is added at the end.
pub open spec fn store(s: Seq<(Seq<char>, Seq<char>)>, key: Seq<char>, value: Seq<char>) -> Seq<
    (Seq<char>, Seq<char>),
> {
    if exists|i: int| 0 <= i < s.len() && (#[trigger] s[i]).0 == key {
        s.update(choose|i: int| 0 <= i < s.len() && (#[trigger] s[i]).0 == key, (key, value))
    } else {
        s.push((key, value))
    }
}

/// A plugin's setting values by key, each key once, in the order the keys
/// were first stored.
#[derive(Debug)]
pub struct ConfigValues {
    entries: Vec<(String, String)>,
}

impl View for ConfigValues {
    type V = Seq<(Seq<char>, Seq<char>)>;

    closed spec fn view(&self) -> Seq<(Seq<char>, Seq<char>)> {
        self.entries@.map_values(|e: (String, String)| (e.0@, e.1@))
    }
}

impl ConfigValues {
    #[verifier::type_invariant]
    closed spec fn wf(self) -> bool {
        distinct_keys(self.entries@.map_values(|e: (String, String)| (e.0@, e.1@)))
    }

    /// No values.
    pub fn new() -> (r: Self)
        ensures
            r@.len() == 0,
    {
        let r = ConfigValues { entries: Vec::new() };
        assert(r@ =~= Seq::<(Seq<char>, Seq<char>)>::empty());
        r
    }

    /// The number of keys.
    pub fn len(&self) -> (r: usize)
        ensures
            r == self@.len(),
    {
        self.entries.len()
    }

    /// The keys and values, in order.
    pub fn to_vec(&self) -> (r: Vec<(String, String)>)
        ensures
            r@.map_values(|e: (String, String)| (e.0@, e.1@)) == self@,
    {
        let mut r: Vec<(String, String)> = Vec::new();
        let mut i: usize = 0;
        while i < self.entries.len()
            invariant
                i <= self.entries.len(),
                r@.map_values(|e: (String, String)| (e.0@, e.1@)) == self@.take(i as int),
            decreases self.entries.len() - i,
        {
            let ghost before = r@.map_values(|e: (String, String)| (e.0@, e.1@));
            r.push((self.entries[i].0.clone(), self.entries[i].1.clone()));
            assert(r@.map_values(|e: (String, String)| (e.0@, e.1@)) =~= before.push(self@[i as int]));
            assert(self@.take(i + 1) =~= self@.take(i as int).push(self@[i as int]));
            i = i + 1;
        }
        assert(self@.take(self.entries.len() as int) =~= self@);
        r
    }

    /// The value under `key`.
    pub fn get(&self, key: &str) -> (r: Option<&String>)
        ensures
            match r {
                Some(v) => lookup(self@, key@) == Some(v@),
                None => lookup(self@, key@) is None,
            },
    {
        let ghost s = self@;
        let mut i: usize = self.entries.len();
        assert(s.take(i as int) =~= s);
        while i > 0
            invariant
                i <= self.entries.len(),
                s == self@,
                lookup(s, key@) == lookup(s.take(i as int), key@),
            decreases i,
        {
            assert(s.take(i as int).last() == (self.entries@[i - 1].0@, self.entries@[i - 1].1@));
            if str_eq(self.entries[i - 1].0.as_str(), key) {
                return Some(&self.entries[i - 1].1);
            }
            assert(s.take(i as int).drop_last() =~= s.take(i - 1));
            i = i - 1;
        }
        assert(s.take(0) =~= Seq::<(Seq<char>, Seq<char>)>::empty());
        None
    }

    /// Stores `value` under `key`, replacing a value stored before.
    pub fn insert(&mut self, key: String, value: String)
        ensures
            final(self)@ == store(old(self)@, key@, value@),
    {
        proof {
            use_type_invariant(&*self);
        }
        let ghost s = self@;
        let mut i: usize = 0;
        while i < self.entries.len()
            invariant
                i <= self.entries.len(),
                s == self@,
                s == old(self)@,
                distinct_keys(s),
                forall|k: int| 0 <= k < i ==> (#[trigger] s[k]).0 != key@,
            decreases self.entries.len() - i,
        {
            if str_eq(self.entries[i].0.as_str(), key.as_str()) {
                proof {
                    lemma_store_at(s, key@, value@, i as int);
                }
                let mut entries: Vec<(String, String)> = Vec::new();
                std::mem::swap(&mut entries, &mut self.entries);
                entries.set(i, (key, value));
                assert(entries@.map_values(|e: (String, String)| (e.0@, e.1@)) =~= s.update(
                    i as int,
                    (key@, value@),
                ));
                self.entries = entries;
                assert(self@ == s.update(i as int, (key@, value@)));
                return;
            }
            i = i + 1;
        }
        proof {
            lemma_store_absent(s, key@, value@);
        }
        let mut entries: Vec<(String, String)> = Vec::new();
        std::mem::swap(&mut entries, &mut self.entries);
        entries.push((key, value));
        assert(entries@.map_values(|e: (String, String)| (e.0@, e.1@)) =~= s.push((key@, value@)));
        self.entries = entries;
    }
}

proof fn lemma_store_at(s: Seq<(Seq<char>, Seq<char>)>, key: Seq<char>, value: Seq<char>, i: int)
    requires
        0 <= i < s.len(),
        s[i].0 == key,
        distinct_keys(s),
    ensures
        store(s, key, value) == s.update(i, (key, value)),
        distinct_keys(s.update(i, (key, value))),
{
    let j = choose|j: int| 0 <= j < s.len() && (#[trigger] s[j]).0 == key;
    assert(s[j].0 == key);
    if j != i {
        if j < i {
            assert(s[j].0 != s[i].0);
        } else {
            assert(s[i].0 != s[j].0);
        }
    }
    let u = s.update(i, (key, value));
    assert forall|a: int, b: int| 0 <= a < b < u.len() implies (#[trigger] u[a]).0 != (
    #[trigger] u[b]).0 by {
        if a != i && b != i {
            assert(u[a] == s[a] && u[b] == s[b]);
        } else if a == i {
            assert(u[b] == s[b]);
        } else {
            assert(u[a] == s[a]);
        }
    }
}

proof fn lemma_store_absent(s: Seq<(Seq<char>, Seq<char>)>, key: Seq<char>, value: Seq<char>)
    requires
        forall|k: int| 0 <= k < s.len() ==> (#[trigger] s[k]).0 != key,
        distinct_keys(s),
    ensures
        store(s, key, value) == s.push((key, value)),
        distinct_keys(s.push((key, value))),
{
    let u = s.push((key, value));
    assert forall|a: int, b: int| 0 <= a < b < u.len() implies (#[trigger] u[a]).0 != (
    #[trigger] u[b]).0 by {
        assert(u[a] == s[a]);
        if b < s.len() {
            assert(u[b] == s[b]);
        }
    }
}

/// The values a schema starts with: each field's default under its key
/// (a later field with the same key wins).
pub open spec fn default_entries(schema: Seq<ConfigField>) -> Seq<(Seq<char>, Seq<char>)>
    decreases schema.len(),
{
    if schema.len() == 0 {
        seq![]
    } else {
        store(default_entries(schema.drop_last()), schema.last().key@, schema.last().default@)
    }
}

/// The name of what parsing a text as a JSON object gives: its members in
/// the parser's order, each with its value's text when the value is a
/// string; nothing when the text is not a JSON object.
pub uninterp spec fn json_object_entries(text: Seq<char>) -> Option<
    Seq<(Seq<char>, Option<Seq<char>>)>,
>;

/// The texts of parsed members.
pub open spec fn member_views(v: Seq<(String, Option<String>)>) -> Seq<
    (Seq<char>, Option<Seq<char>>),
> {
    v.map_values(
        |m: (String, Option<String>)|
            (
                m.0@,
                match m.1 {
                    Some(s) => Some(s@),
                    None => None,
                },
            ),
    )
}

/// `serde_json::from_str` to a `Value`, kept when it is an object: its
/// members, each with its text when it is a string.
#[verifier::external_body]
pub(crate) fn parse_json_object(text: &str) -> (r: Option<Vec<(String, Option<String>)>>)
    ensures
        match r {
            Some(v) => json_object_entries(text@) == Some(member_views(v@)),
            None => json_object_entries(text@) is None,
        },
{
    match serde_json::from_str::<serde_json::Value>(text) {
        Ok(serde_json::Value::Object(map)) => Some(
            map.into_iter().map(|(k, v)| (k, v.as_str().map(|s| s.to_string()))).collect(),
        ),
        _ => None,
    }
}

/// The values after reading stored members over `start`: every member
/// with a string value but `_schema` and `_cookies` is stored.
pub open spec fn stored_entries(
    start: Seq<(Seq<char>, Seq<char>)>,
    members: Seq<(Seq<char>, Option<Seq<char>>)>,
) -> Seq<(Seq<char>, Seq<char>)>
    decreases members.len(),
{
    if members.len() == 0 {
        start
    } else {
        let acc = stored_entries(start, members.drop_last());
        let m = members.last();
        if m.0 != "_schema"@ && m.0 != "_cookies"@ && m.1 is Some {
            store(acc, m.0, m.1->0)
        } else {
            acc
        }
    }
}

/// The cookies among stored members: the text of `_cookies`, or nothing.
pub open spec fn stored_cookies(members: Seq<(Seq<char>, Option<Seq<char>>)>) -> Seq<char>
    decreases members.len(),
{
    if members.len() == 0 {
        seq![]
    } else if members.last().0 == "_cookies"@ {
        match members.last().1 {
            Some(c) => c,
            None => seq![],
        }
    } else {
        stored_cookies(members.drop_last())
    }
}

/// The values and cookies read from a stored configuration file's text: the
/// schema's defaults overridden by the stored values; the defaults and no
/// cookies when the text is not a JSON object.
pub open spec fn loaded_config(text: Seq<char>, schema: Seq<ConfigField>) -> (
    Seq<(Seq<char>, Seq<char>)>,
    Seq<char>,
) {
    match json_object_entries(text) {
        Some(members) => (stored_entries(default_entries(schema), members), stored_cookies(members)),
        None => (default_entries(schema), seq![]),
    }
}

/// The cookie lines that count: trimmed, neither blank nor a `#` comment.
pub open spec fn cookie_lines(ls: Seq<Seq<char>>) -> Seq<Seq<char>>
    decreases ls.len(),
{
    if ls.len() == 0 {
        seq![]
    } else {
        let rest = cookie_lines(ls.drop_last());
        let t = trim(ls.last());
        if t.len() > 0 && !starts_with(t, seq!['#']) {
            rest.push(t)
        } else {
            rest
        }
    }
}

/// A line with the whitespace at its ends removed.
pub open spec fn trimmed() -> spec_fn(Seq<char>) -> Seq<char> {
    |l: Seq<char>| trim(l)
}

/// Whether a trimmed line is a cookie: not empty and not starting with `#`.
pub open spec fn cookie_like() -> spec_fn(Seq<char>) -> bool {
    |t: Seq<char>| t.len() > 0 && t[0] != '#'
}

/// The cookie lines that count are exactly the lines, each trimmed, that
/// are neither empty nor start with `#`, in their order.
pub proof fn lemma_cookie_lines_are_kept_lines(ls: Seq<Seq<char>>)
    ensures
        cookie_lines(ls) == ls.map_values(trimmed()).filter(cookie_like()),
    decreases ls.len(),
{
    reveal(Seq::filter);
    let tr = ls.map_values(trimmed());
    if ls.len() > 0 {
        lemma_cookie_lines_are_kept_lines(ls.drop_last());
        assert(tr.drop_last() =~= ls.drop_last().map_values(trimmed()));
        let t = trim(ls.last());
        assert(tr.last() == t);
        if t.len() > 0 {
            assert(starts_with(t, seq!['#']) <==> t[0] == '#') by {
                if t[0] == '#' {
                    assert(t.subrange(0, 1) =~= seq!['#']);
                }
                if starts_with(t, seq!['#']) {
                    assert(t.subrange(0, 1)[0] == t[0]);
                }
            }
        }
        assert(cookie_like()(t) == (t.len() > 0 && !starts_with(t, seq!['#'])));
        assert(tr.filter(cookie_like()) == if cookie_like()(tr.last()) {
            tr.drop_last().filter(cookie_like()).push(tr.last())
        } else {
            tr.drop_last().filter(cookie_like())
        });
    } else {
        assert(tr =~= Seq::<Seq<char>>::empty());
    }
}

/// The cookie header holds every line of the cookie text, trimmed, that is
/// neither empty nor a `#` comment, in order and joined by `"; "`.
pub proof fn lemma_cookie_header_lines(cookies: Seq<char>)
    ensures
        cookie_header(cookies) == join(lines(cookies).map_values(trimmed()).filter(cookie_like()), "; "@),
{
    lemma_cookie_lines_are_kept_lines(lines(cookies));
}

/// The cookie header made of cookie text: its lines that count, joined by
/// `"; "`.
pub open spec fn cookie_header(cookies: Seq<char>) -> Seq<char> {
    join(cookie_lines(lines(cookies)), "; "@)
}

/// How a plugin's configuration reads in the list.
pub open spec fn preview_text(pending: bool, fields: nat, has_cookies: bool) -> Seq<char> {
    if pending {
        "loading..."@
    } else if fields == 0 {
        if has_cookies {
            "Cookies only"@
        } else {
            "No configurable fields"@
        }
    } else if has_cookies {
        decimal(fields) + " field(s) + cookies"@
    } else {
        decimal(fields) + " field(s)"@
    }
}

/// How cookie text reads in the list: trimmed, cut to 40 characters and
/// `...` when longer, `<empty>` when blank.
pub open spec fn cookie_preview_text(cookies: Seq<char>) -> Seq<char> {
    let t = trim(cookies);
    if t.len() == 0 {
        "<empty>"@
    } else if t.len() > 40 {
        t.take(40) + "..."@
    } else {
        t
    }
}

/// The directory of the reader's configuration under `base` (the current
/// directory when there is none).
pub open spec fn config_dir_under(base: Option<String>) -> Seq<char> {
    match base {
        Some(b) => path_join(b@, "scylla-reader"@),
        None => path_join("."@, "scylla-reader"@),
    }
}

/// The reader's configuration directory for a given local configuration
/// directory.
pub fn config_dir_in(base: Option<String>) -> (r: String)
    ensures
        r@ == config_dir_under(base),
{
    match base {
        Some(b) => join_path(b.as_str(), "scylla-reader"),
        None => join_path(".", "scylla-reader"),
    }
}

/// The reader's configuration directory: `scylla-reader` in the local
/// configuration directory.
pub fn config_dir() -> (r: String)
    ensures
        exists|base: Option<String>| r@ == config_dir_under(base),
{
    let base = config_local_dir();
    let r = config_dir_in(base);
    assert(r@ == config_dir_under(base));
    r
}

/// Where plugins are installed: `plugins` in the configuration directory.
pub fn plugins_dir() -> (r: String)
    ensures
        exists|base: Option<String>| r@ == path_join(config_dir_under(base), "plugins"@),
{
    let d = config_dir();
    join_path(d.as_str(), "plugins")
}

/// The configuration file of a site in a configuration directory:
/// `plugin-<domain>.json`, so that no site's file is taken for the
/// reader's own `settings.json` or `libraries.json`.
pub fn config_file_in(dir: &str, domain: &str) -> (r: String)
    ensures
        r@ == path_join(dir@, "plugin-"@ + domain@ + ".json"@),
{
    let mut name = String::new();
    push_str(&mut name, "plugin-");
    push_str(&mut name, domain);
    push_str(&mut name, ".json");
    join_path(dir, name.as_str())
}

/// A site's plugin configuration.
#[derive(Debug)]
pub struct PluginConfig {
    pub domain: String,
    pub schema: Vec<ConfigField>,
    pub accepts_cookies: bool,
    pub values: ConfigValues,
    /// Cookie text, one cookie per line; blank lines and `#` lines are
    /// ignored.
    pub cookies: String,
    /// Where the configuration is stored; empty for none.
    pub path: String,
}

impl PluginConfig {
    /// The values a schema starts with.
    pub fn default_values(schema: &[ConfigField]) -> (r: ConfigValues)
        ensures
            r@ == default_entries(schema@),
    {
        let mut r = ConfigValues::new();
        let mut i: usize = 0;
        while i < schema.len()
            invariant
                i <= schema.len(),
                r@ == default_entries(schema@.take(i as int)),
            decreases schema.len() - i,
        {
            assert(schema@.take(i + 1).drop_last() =~= schema@.take(i as int));
            assert(schema@.take(i + 1).last() == schema@[i as int]);
            r.insert(schema[i].key.clone(), schema[i].default.clone());
            i = i + 1;
        }
        assert(schema@.take(schema.len() as int) =~= schema@);
        r
    }

    /// The values and cookies read from a stored configuration's text.
    pub fn load_values(text: &str, schema: &[ConfigField]) -> (r: (ConfigValues, String))
        ensures
            (r.0@, r.1@) == loaded_config(text@, schema@),
    {
        let mut values = Self::default_values(schema);
        match parse_json_object(text) {
            None => (values, String::new()),
            Some(members) => {
                let ghost ms = member_views(members@);
                let mut cookies = String::new();
                let mut i: usize = 0;
                while i < members.len()
                    invariant
                        i <= members.len(),
                        ms == member_views(members@),
                        values@ == stored_entries(default_entries(schema@), ms.take(i as int)),
                        cookies@ == stored_cookies(ms.take(i as int)),
                    decreases members.len() - i,
                {
                    assert(ms.take(i + 1).drop_last() =~= ms.take(i as int));
                    let ghost m = ms[i as int];
                    assert(ms.take(i + 1).last() == m);
                    let k = &members[i].0;
                    let is_schema = str_eq(k.as_str(), "_schema");
                    let is_cookies = str_eq(k.as_str(), "_cookies");
                    if is_cookies {
                        cookies = match &members[i].1 {
                            Some(c) => c.clone(),
                            None => String::new(),
                        };
                    }
                    if !is_schema && !is_cookies {
                        match &members[i].1 {
                            Some(v) => values.insert(k.clone(), v.clone()),
                            None => {},
                        }
                    }
                    i = i + 1;
                }
                assert(ms.take(members.len() as int) =~= ms);
                (values, cookies)
            },
        }
    }

    /// The configuration of `domain`, read from the stored file's text
    /// `stored` when there is one, else the schema's defaults and no
    /// cookies. It is stored in the configuration directory.
    pub fn for_domain(
        domain: &str,
        schema: Vec<ConfigField>,
        accepts_cookies: bool,
        stored: Option<String>,
    ) -> (r: Self)
        ensures
            r.domain@ == domain@,
            r.schema == schema,
            r.accepts_cookies == accepts_cookies,
            match stored {
                Some(t) => (r.values@, r.cookies@) == loaded_config(t@, schema@),
                None => r.values@ == default_entries(schema@) && r.cookies@.len() == 0,
            },
            exists|base: Option<String>|
                r.path@ == path_join(config_dir_under(base), "plugin-"@ + domain@ + ".json"@),
    {
        let dir = config_dir();
        let path = config_file_in(dir.as_str(), domain);
        let (values, cookies) = match &stored {
            Some(t) => Self::load_values(t.as_str(), schema.as_slice()),
            None => (Self::default_values(schema.as_slice()), String::new()),
        };
        PluginConfig { domain: domain.to_owned(), schema, accepts_cookies, values, cookies, path }
    }

    /// Whether the configuration is still being written: it has a place
    /// but nothing is there yet, given whether something is there.
    pub fn pending_given(&self, exists: bool) -> (r: bool)
        ensures
            r == (self.path@.len() > 0 && !exists),
    {
        !str_is_blank_or_empty(self.path.as_str()) && !exists
    }

    /// Whether the configuration is still being written (its file does not
    /// exist yet). A configuration with no place is never pending.
    pub fn is_pending(&self) -> (r: bool)
        ensures
            self.path@.len() == 0 ==> !r,
    {
        if self.path.as_str().is_empty() {
            return false;
        }
        self.pending_given(path_exists(self.path.as_str()))
    }

    /// Stores a setting's value.
    pub fn update_value(&mut self, key: &str, value: String)
        ensures
            final(self).values@ == store(old(self).values@, key@, value@),
            final(self).domain == old(self).domain,
            final(self).schema == old(self).schema,
            final(self).accepts_cookies == old(self).accepts_cookies,
            final(self).cookies == old(self).cookies,
            final(self).path == old(self).path,
    {
        self.values.insert(key.to_owned(), value);
    }

    /// Whether the cookie text has a line that counts.
    pub fn has_cookies(&self) -> (r: bool)
        ensures
            r == (self.cookies@.len() > 0 && cookie_lines(lines(self.cookies@)).len() > 0),
    {
        let kept = cookie_line_list(self.cookies.as_str());
        !self.cookies.as_str().is_empty() && kept.len() > 0
    }

    /// How the configuration reads in the list, given whether it is
    /// pending.
    pub fn preview_given(&self, pending: bool) -> (r: String)
        ensures
            r@ == preview_text(
                pending,
                self.schema@.len(),
                self.cookies@.len() > 0 && cookie_lines(lines(self.cookies@)).len() > 0,
            ),
    {
        if pending {
            return "loading...".to_string();
        }
        let count = self.schema.len();
        let has = self.has_cookies();
        if count == 0 {
            if has {
                "Cookies only".to_string()
            } else {
                "No configurable fields".to_string()
            }
        } else {
            let mut s = decimal_string(count as u64);
            if has {
                push_str(&mut s, " field(s) + cookies");
            } else {
                push_str(&mut s, " field(s)");
            }
            s
        }
    }

    /// How the configuration reads in the list: `loading...` while
    /// pending, else the number of fields and whether there are cookies.
    pub fn preview(&self) -> (r: String)
        ensures
            r@ == preview_text(
                true,
                self.schema@.len(),
                self.cookies@.len() > 0 && cookie_lines(lines(self.cookies@)).len() > 0,
            ) || r@ == preview_text(
                false,
                self.schema@.len(),
                self.cookies@.len() > 0 && cookie_lines(lines(self.cookies@)).len() > 0,
            ),
            self.path@.len() == 0 ==> r@ == preview_text(
                false,
                self.schema@.len(),
                self.cookies@.len() > 0 && cookie_lines(lines(self.cookies@)).len() > 0,
            ),
    {
        let pending = self.is_pending();
        self.preview_given(pending)
    }

    /// How the cookies read in the list.
    pub fn cookies_preview(&self) -> (r: String)
        ensures
            r@ == cookie_preview_text(self.cookies@),
    {
        let t = to_chars(trim_str(self.cookies.as_str()).as_str());
        if t.len() == 0 {
            "<empty>".to_string()
        } else if t.len() > 40 {
            let mut s = string_of_range(&t, 0, 40);
            push_str(&mut s, "...");
            assert(t@.subrange(0, 40) =~= t@.take(40));
            s
        } else {
            string_of(&t)
        }
    }

    /// The cookie header: the lines that count, joined by `"; "`.
    pub fn parse_cookies(&self) -> (r: String)
        ensures
            r@ == cookie_header(self.cookies@),
    {
        let kept = cookie_line_list(self.cookies.as_str());
        join_strings(&kept, "; ")
    }
}

/// Whether a text is empty.
fn str_is_blank_or_empty(s: &str) -> (r: bool)
    ensures
        r == (s@.len() == 0),
{
    s.is_empty()
}

/// The cookie lines that count, in order.
pub fn cookie_line_list(text: &str) -> (r: Vec<String>)
    ensures
        views(r@) == cookie_lines(lines(text@)),
{
    let v = to_chars(text);
    let ls = split_lines(&v);
    let ghost lv = char_views(ls@);
    let mut hash: Vec<char> = Vec::new();
    hash.push('#');
    assert(hash@ =~= seq!['#']);
    let mut r: Vec<String> = Vec::new();
    let mut i: usize = 0;
    while i < ls.len()
        invariant
            i <= ls.len(),
            lv == char_views(ls@),
            lv == lines(v@),
            hash@ == seq!['#'],
            views(r@) == cookie_lines(lv.take(i as int)),
        decreases ls.len() - i,
    {
        assert(lv.take(i + 1).drop_last() =~= lv.take(i as int));
        assert(lv.take(i + 1).last() == ls@[i as int]@);
        let t = trim_chars(&ls[i]);
        if t.len() > 0 && !crate::text::starts_with_chars(&t, &hash) {
            let ghost before = views(r@);
            r.push(string_of(&t));
            assert(views(r@) =~= before.push(t@));
        }
        i = i + 1;
    }
    assert(lv.take(ls.len() as int) =~= lv);
    r
}

} // verus!
