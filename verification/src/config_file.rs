//! The text of a plugin's configuration file: a JSON object holding the
//! plugin's schema under `_schema`, whether it takes cookies under
//! `_accepts_cookies`, its cookies under `_cookies`, and one string member
//! per setting. Members are handled as their compact JSON texts.
use vstd::prelude::*;
use crate::plugin_api::ConfigField;
use crate::library::{lemma_position_of_bound, lemma_position_prefix, position_of};
use crate::plugin_config::{config_file_in, lookup, store, ConfigValues, PluginConfig};
use crate::paths::path_join;
use crate::text::{
    ends_with, ends_with_chars, join, join_strings, push_char, push_str, slice_chars, starts_with,
    starts_with_chars, str_eq, str_is_blank, string_of_range, to_chars, trim, views,
};

verus! {

/// The name of what parsing a text as JSON gives: nothing when it is not
/// JSON; `Some(None)` for JSON other than an object; for an object, its
/// members, each with its value's compact JSON text.
pub uninterp spec fn json_object_members(text: Seq<char>) -> Option<
    Option<Seq<(Seq<char>, Seq<char>)>>,
>;

/// The name of the pretty JSON text of the object made of these members,
/// each given by its value's JSON text; nothing when a value's text is not
/// JSON or the object cannot be written.
pub uninterp spec fn json_pretty(members: Seq<(Seq<char>, Seq<char>)>) -> Option<Seq<char>>;

/// The texts of members.
pub open spec fn pair_views(v: Seq<(String, String)>) -> Seq<(Seq<char>, Seq<char>)> {
    v.map_values(|m: (String, String)| (m.0@, m.1@))
}

/// `serde_json::from_str` to a `Value`: for an object, its members with
/// their values written back compactly (`Value::to_string`).
#[verifier::external_body]
fn parse_json_members(text: &str) -> (r: Option<Option<Vec<(String, String)>>>)
    ensures
        match r {
            None => json_object_members(text@) is None,
            Some(None) => json_object_members(text@) == Some(
                None::<Seq<(Seq<char>, Seq<char>)>>,
            ),
            Some(Some(v)) => json_object_members(text@) == Some(Some(pair_views(v@))),
        },
{
    match serde_json::from_str::<serde_json::Value>(text) {
        Ok(serde_json::Value::Object(map)) => Some(Some(map.into_iter().map(|(k, v)| (k, v.to_string())).collect())),
        Ok(_) => Some(None),
        Err(_) => None,
    }
}

/// `serde_json::to_string_pretty` of the object whose members' values are
/// parsed (`serde_json::from_str`) from the given texts.
#[verifier::external_body]
fn pretty_object(members: &Vec<(String, String)>) -> (r: Option<String>)
    ensures
        match r {
            Some(t) => json_pretty(pair_views(members@)) == Some(t@),
            None => json_pretty(pair_views(members@)) is None,
        },
{
    let mut map = serde_json::Map::new();
    for (k, v) in members {
        let value: serde_json::Value = serde_json::from_str(v).ok()?;
        map.insert(k.clone(), value);
    }
    serde_json::to_string_pretty(&serde_json::Value::Object(map)).ok()
}

/// The name of a text written as a JSON string by `serde_json::to_string`
/// (quoted, with quotes, backslashes and control characters escaped).
pub uninterp spec fn json_string(s: Seq<char>) -> Seq<char>;

/// A flag as JSON.
pub open spec fn json_bool(b: bool) -> Seq<char> {
    if b {
        "true"@
    } else {
        "false"@
    }
}

/// The flag a member's JSON text holds, if it is one.
pub open spec fn bool_of(t: Seq<char>) -> Option<bool> {
    if t == "true"@ {
        Some(true)
    } else if t == "false"@ {
        Some(false)
    } else {
        None
    }
}

/// A schema field as a JSON object, its members in key order.
pub open spec fn field_json(f: ConfigField) -> Seq<char> {
    "{\"default\":"@ + json_string(f.default@) + ",\"field_type\":"@ + json_string(f.field_type@)
        + ",\"key\":"@ + json_string(f.key@) + ",\"label\":"@ + json_string(f.label@) + "}"@
}

/// A schema as a JSON array of its fields.
pub open spec fn schema_json(fs: Seq<ConfigField>) -> Seq<char> {
    "["@ + join(fs.map_values(|f: ConfigField| field_json(f)), ","@) + "]"@
}

/// The members after storing each of `ms` in turn.
pub open spec fn store_all(acc: Seq<(Seq<char>, Seq<char>)>, ms: Seq<(Seq<char>, Seq<char>)>) -> Seq<
    (Seq<char>, Seq<char>),
>
    decreases ms.len(),
{
    if ms.len() == 0 {
        acc
    } else {
        store(store_all(acc, ms.drop_last()), ms.last().0, ms.last().1)
    }
}

/// The members after giving each field without a member its default, and
/// whether any was added.
pub open spec fn with_defaults(m: Seq<(Seq<char>, Seq<char>)>, fs: Seq<ConfigField>) -> (
    Seq<(Seq<char>, Seq<char>)>,
    bool,
)
    decreases fs.len(),
{
    if fs.len() == 0 {
        (m, false)
    } else {
        let (a, c) = with_defaults(m, fs.drop_last());
        let f = fs.last();
        if lookup(a, f.key@) is None {
            (store(a, f.key@, json_string(f.default@)), true)
        } else {
            (a, c)
        }
    }
}

/// The members after storing every field's default, later fields winning.
pub open spec fn all_defaults(m: Seq<(Seq<char>, Seq<char>)>, fs: Seq<ConfigField>) -> Seq<
    (Seq<char>, Seq<char>),
>
    decreases fs.len(),
{
    if fs.len() == 0 {
        m
    } else {
        store(all_defaults(m, fs.drop_last()), fs.last().key@, json_string(fs.last().default@))
    }
}

/// The cookies an old text file gives: its text, unless it is blank.
pub open spec fn adopted_cookies(txt: Option<Seq<char>>) -> Option<Seq<char>> {
    match txt {
        Some(t) => if trim(t).len() > 0 {
            Some(t)
        } else {
            None
        },
        None => None,
    }
}

/// An existing file's members brought up to date: the schema and the
/// cookie flag set where they differ, the old file's cookies taken in when
/// there are none, missing defaults added; and whether anything changed.
pub open spec fn refreshed(
    ms: Seq<(Seq<char>, Seq<char>)>,
    fs: Seq<ConfigField>,
    accepts: bool,
    txt: Option<Seq<char>>,
) -> (Seq<(Seq<char>, Seq<char>)>, bool) {
    let m0 = store_all(seq![], ms);
    let sj = schema_json(fs);
    let c1 = lookup(m0, "_schema"@) != Some(sj);
    let m1 = if c1 {
        store(m0, "_schema"@, sj)
    } else {
        m0
    };
    let c2 = match lookup(m1, "_accepts_cookies"@) {
        Some(t) => bool_of(t) != Some(accepts),
        None => true,
    };
    let m2 = if c2 {
        store(m1, "_accepts_cookies"@, json_bool(accepts))
    } else {
        m1
    };
    let c3 = lookup(m2, "_cookies"@) is None && adopted_cookies(txt) is Some;
    let m3 = if c3 {
        store(m2, "_cookies"@, json_string(adopted_cookies(txt)->0))
    } else {
        m2
    };
    let (m4, c4) = with_defaults(m3, fs);
    (m4, c1 || c2 || c3 || c4)
}

/// A new file's members: the schema, the cookie flag, every default, and
/// the old file's cookies when they are not blank.
pub open spec fn created(fs: Seq<ConfigField>, accepts: bool, txt: Option<Seq<char>>) -> Seq<
    (Seq<char>, Seq<char>),
> {
    let m = store(store(seq![], "_schema"@, schema_json(fs)), "_accepts_cookies"@, json_bool(accepts));
    let m2 = all_defaults(m, fs);
    match adopted_cookies(txt) {
        Some(t) => store(m2, "_cookies"@, json_string(t)),
        None => m2,
    }
}

/// The members to write when a plugin's configuration is set up, from the
/// stored file's text (none when there is no file); nothing when the file
/// stays as it is. A file that is not JSON counts as an empty object; JSON
/// that is not an object is left alone.
pub open spec fn init_members(
    stored: Option<Seq<char>>,
    fs: Seq<ConfigField>,
    accepts: bool,
    txt: Option<Seq<char>>,
) -> Option<Seq<(Seq<char>, Seq<char>)>> {
    match stored {
        None => Some(created(fs, accepts, txt)),
        Some(t) => {
            let ms = match json_object_members(t) {
                None => Some(seq![]),
                Some(o) => o,
            };
            match ms {
                Some(ms) => {
                    let (m, changed) = refreshed(ms, fs, accepts, txt);
                    if changed {
                        Some(m)
                    } else {
                        None
                    }
                },
                None => None,
            }
        },
    }
}

/// Whether setting up a configuration reads (and so uses up) the plugin's
/// old cookie text file: for a new file, and for a stored one without
/// `_cookies`.
pub open spec fn reads_old_cookies(stored: Option<Seq<char>>) -> bool {
    match stored {
        None => true,
        Some(t) => match json_object_members(t) {
            Some(Some(ms)) => lookup(store_all(seq![], ms), "_cookies"@) is None,
            _ => true,
        },
    }
}

/// `serde_json::to_string` of a text: the text as a JSON string. Writing
/// a string cannot fail.
#[verifier::external_body]
pub(crate) fn json_string_text(s: &str) -> (r: String)
    ensures
        r@ == json_string(s@),
{
    serde_json::to_string(s).unwrap_or_default()
}

/// A flag as JSON.
fn json_bool_text(b: bool) -> (r: String)
    ensures
        r@ == json_bool(b),
{
    if b {
        "true".to_owned()
    } else {
        "false".to_owned()
    }
}

/// A schema field as a JSON object.
pub fn field_json_text(f: &ConfigField) -> (r: String)
    ensures
        r@ == field_json(*f),
{
    let mut out = "{\"default\":".to_owned();
    push_str(&mut out, json_string_text(f.default.as_str()).as_str());
    push_str(&mut out, ",\"field_type\":");
    push_str(&mut out, json_string_text(f.field_type.as_str()).as_str());
    push_str(&mut out, ",\"key\":");
    push_str(&mut out, json_string_text(f.key.as_str()).as_str());
    push_str(&mut out, ",\"label\":");
    push_str(&mut out, json_string_text(f.label.as_str()).as_str());
    push_str(&mut out, "}");
    out
}

/// A schema as a JSON array, written as `serde_json` writes it compactly.
pub fn schema_json_text(schema: &[ConfigField]) -> (r: String)
    ensures
        r@ == schema_json(schema@),
{
    let mut items: Vec<String> = Vec::new();
    let mut i: usize = 0;
    while i < schema.len()
        invariant
            i <= schema@.len(),
            views(items@) == schema@.take(i as int).map_values(|f: ConfigField| field_json(f)),
        decreases schema.len() - i,
    {
        let ghost before = views(items@);
        items.push(field_json_text(&schema[i]));
        assert(views(items@) =~= before.push(field_json(schema@[i as int])));
        assert(schema@.take(i + 1).map_values(|f: ConfigField| field_json(f)) =~= schema@.take(
            i as int,
        ).map_values(|f: ConfigField| field_json(f)).push(field_json(schema@[i as int])));
        i = i + 1;
    }
    assert(schema@.take(schema@.len() as int) =~= schema@);
    let mut out = "[".to_owned();
    push_str(&mut out, join_strings(&items, ",").as_str());
    push_str(&mut out, "]");
    out
}

/// A text that may be absent, by its characters.
pub open spec fn opt_text(o: Option<&str>) -> Option<Seq<char>> {
    match o {
        Some(s) => Some(s@),
        None => None,
    }
}

/// The members parsed from a stored object, stored in turn.
fn members_of(ms: &Vec<(String, String)>) -> (r: ConfigValues)
    ensures
        r@ == store_all(seq![], pair_views(ms@)),
{
    let ghost pv = pair_views(ms@);
    let mut vals = ConfigValues::new();
    assert(vals@ =~= store_all(seq![], pv.take(0)));
    let mut i: usize = 0;
    while i < ms.len()
        invariant
            i <= ms@.len(),
            pv == pair_views(ms@),
            vals@ == store_all(seq![], pv.take(i as int)),
        decreases ms.len() - i,
    {
        assert(pv.take(i + 1).drop_last() =~= pv.take(i as int));
        assert(pv.take(i + 1).last() == (ms@[i as int].0@, ms@[i as int].1@));
        vals.insert(ms[i].0.clone(), ms[i].1.clone());
        i = i + 1;
    }
    assert(pv.take(ms@.len() as int) =~= pv);
    vals
}

/// Stores each field without a member under its default; answers whether
/// any was added.
fn add_missing_defaults(vals: &mut ConfigValues, schema: &[ConfigField]) -> (changed: bool)
    ensures
        (final(vals)@, changed) == with_defaults(old(vals)@, schema@),
{
    let ghost m = vals@;
    let mut changed = false;
    let mut i: usize = 0;
    assert(schema@.take(0) =~= Seq::<ConfigField>::empty());
    while i < schema.len()
        invariant
            i <= schema@.len(),
            (vals@, changed) == with_defaults(m, schema@.take(i as int)),
        decreases schema.len() - i,
    {
        assert(schema@.take(i + 1).drop_last() =~= schema@.take(i as int));
        assert(schema@.take(i + 1).last() == schema@[i as int]);
        let f = &schema[i];
        if vals.get(f.key.as_str()).is_none() {
            vals.insert(f.key.clone(), json_string_text(f.default.as_str()));
            changed = true;
        }
        i = i + 1;
    }
    assert(schema@.take(schema@.len() as int) =~= schema@);
    changed
}

/// Stores every field's default, later fields winning.
fn store_defaults(vals: &mut ConfigValues, schema: &[ConfigField])
    ensures
        final(vals)@ == all_defaults(old(vals)@, schema@),
{
    let ghost m = vals@;
    let mut i: usize = 0;
    assert(schema@.take(0) =~= Seq::<ConfigField>::empty());
    while i < schema.len()
        invariant
            i <= schema@.len(),
            vals@ == all_defaults(m, schema@.take(i as int)),
        decreases schema.len() - i,
    {
        assert(schema@.take(i + 1).drop_last() =~= schema@.take(i as int));
        assert(schema@.take(i + 1).last() == schema@[i as int]);
        vals.insert(schema[i].key.clone(), json_string_text(schema[i].default.as_str()));
        i = i + 1;
    }
    assert(schema@.take(schema@.len() as int) =~= schema@);
}

/// The pretty text of an object with these members.
fn write_members(vals: &ConfigValues) -> (r: Option<String>)
    ensures
        match r {
            Some(t) => json_pretty(vals@) == Some(t@),
            None => json_pretty(vals@) is None,
        },
{
    let v = vals.to_vec();
    assert(pair_views(v@) =~= vals@);
    pretty_object(&v)
}

/// Whether setting up a configuration from the stored text (none when
/// there is no file) reads the plugin's old cookie text file.
pub fn reads_old_cookie_file(stored: Option<&str>) -> (r: bool)
    ensures
        r == reads_old_cookies(opt_text(stored)),
{
    match stored {
        None => true,
        Some(t) => match parse_json_members(t) {
            Some(Some(ms)) => {
                let vals = members_of(&ms);
                vals.get("_cookies").is_none()
            },
            _ => true,
        },
    }
}

/// The text to write when a plugin's configuration is set up, given the
/// stored file's text (none when there is no file) and the old cookie
/// text file's contents when it was read; nothing when the file stays as
/// it is. A new file gets the schema, the cookie flag, every default and
/// the old cookies unless blank. A stored object gets the schema and the
/// flag where they differ, the old cookies when it has none, and the
/// defaults it lacks; it is written only when something changed. A file
/// that is not JSON counts as an empty object; other JSON is left alone.
pub fn init_config_text(
    stored: Option<&str>,
    schema: &[ConfigField],
    accepts_cookies: bool,
    txt_cookies: Option<&str>,
) -> (r: Option<String>)
    ensures
        match init_members(opt_text(stored), schema@, accepts_cookies, opt_text(txt_cookies)) {
            Some(m) => match r {
                Some(t) => json_pretty(m) == Some(t@),
                None => json_pretty(m) is None,
            },
            None => r is None,
        },
{
    let adopted: Option<&str> = match txt_cookies {
        Some(t) => if str_is_blank(t) {
            None
        } else {
            Some(t)
        },
        None => None,
    };
    assert(opt_text(adopted) == adopted_cookies(opt_text(txt_cookies)));
    let sj = schema_json_text(schema);
    match stored {
        None => {
            let mut vals = ConfigValues::new();
            assert(vals@ =~= Seq::<(Seq<char>, Seq<char>)>::empty());
            vals.insert("_schema".to_owned(), sj);
            vals.insert("_accepts_cookies".to_owned(), json_bool_text(accepts_cookies));
            assert(vals@ == store(store(seq![], "_schema"@, schema_json(schema@)), "_accepts_cookies"@, json_bool(accepts_cookies)));
            store_defaults(&mut vals, schema);
            match adopted {
                Some(t) => vals.insert("_cookies".to_owned(), json_string_text(t)),
                None => {},
            }
            proof {
                reveal_strlit("_schema");
                reveal_strlit("_accepts_cookies");
                reveal_strlit("_cookies");
            }
            assert(vals@ == created(schema@, accepts_cookies, opt_text(txt_cookies)));
            write_members(&vals)
        },
        Some(text) => {
            let parsed = parse_json_members(text);
            let mut vals = match parsed {
                None => ConfigValues::new(),
                Some(None) => {
                    return None;
                },
                Some(Some(ms)) => members_of(&ms),
            };
            assert(vals@ =~= store_all(seq![], match json_object_members(text@) {
                None => seq![],
                Some(o) => o->0,
            }));
            let ghost m0 = vals@;
            let ghost sjv = schema_json(schema@);
            proof {
                reveal_strlit("_schema");
                reveal_strlit("_accepts_cookies");
                reveal_strlit("_cookies");
                reveal_strlit("true");
                reveal_strlit("false");
            }
            let mut changed = false;
            let same_schema = match vals.get("_schema") {
                Some(t) => crate::text::str_eq(t.as_str(), sj.as_str()),
                None => false,
            };
            assert(same_schema == (lookup(m0, "_schema"@) == Some(sjv)));
            if !same_schema {
                vals.insert("_schema".to_owned(), sj);
                changed = true;
            }
            let ghost m1 = vals@;
            assert(m1 == (if !same_schema { store(m0, "_schema"@, sjv) } else { m0 }));
            let same_flag = match vals.get("_accepts_cookies") {
                Some(t) => {
                    if accepts_cookies {
                        crate::text::str_eq(t.as_str(), "true")
                    } else {
                        crate::text::str_eq(t.as_str(), "false")
                    }
                },
                None => false,
            };
            assert("true"@.len() == 4 && "false"@.len() == 5);
            assert("true"@ != "false"@);
            assert(same_flag == match lookup(m1, "_accepts_cookies"@) {
                Some(t) => bool_of(t) == Some(accepts_cookies),
                None => false,
            });
            if !same_flag {
                vals.insert("_accepts_cookies".to_owned(), json_bool_text(accepts_cookies));
                changed = true;
            }
            let ghost m2 = vals@;
            let no_cookies = vals.get("_cookies").is_none();
            assert(no_cookies == (lookup(m2, "_cookies"@) is None));
            let mut took = false;
            if no_cookies {
                match adopted {
                    Some(t) => {
                        vals.insert("_cookies".to_owned(), json_string_text(t));
                        changed = true;
                        took = true;
                    },
                    None => {},
                }
            }
            let ghost m3 = vals@;
            assert(took == (lookup(m2, "_cookies"@) is None && adopted_cookies(opt_text(txt_cookies)) is Some));
            let added = add_missing_defaults(&mut vals, schema);
            let ghost ms0 = match json_object_members(text@) {
                None => seq![],
                Some(o) => o->0,
            };
            assert(vals@ == refreshed(ms0, schema@, accepts_cookies, opt_text(txt_cookies)).0);
            assert((changed || added) == refreshed(ms0, schema@, accepts_cookies, opt_text(txt_cookies)).1);
            if changed || added {
                write_members(&vals)
            } else {
                None
            }
        },
    }
}

/// Whether a member's JSON text is a string that is not empty.
pub open spec fn nonempty_string_json(t: Option<Seq<char>>) -> bool {
    match t {
        Some(t) => t.len() > 2 && t[0] == '"',
        None => false,
    }
}

/// The members to write when an old cookie text file `txt` is moved into
/// the stored configuration: the cookies go under `_cookies` unless a
/// non-empty text is there already; nothing when the stored text is not a
/// JSON object.
pub open spec fn migrated_members(stored: Seq<char>, txt: Seq<char>) -> Option<
    Seq<(Seq<char>, Seq<char>)>,
> {
    match json_object_members(stored) {
        Some(Some(ms)) => {
            let m = store_all(seq![], ms);
            if nonempty_string_json(lookup(m, "_cookies"@)) {
                None
            } else {
                Some(store(m, "_cookies"@, json_string(txt)))
            }
        },
        _ => None,
    }
}

/// The text to write when an old cookie text file with the contents `txt`
/// is moved into the stored configuration `stored`; nothing when the file
/// stays as it is.
pub fn migrated_config_text(stored: &str, txt: &str) -> (r: Option<String>)
    ensures
        match migrated_members(stored@, txt@) {
            Some(m) => match r {
                Some(t) => json_pretty(m) == Some(t@),
                None => json_pretty(m) is None,
            },
            None => r is None,
        },
{
    proof {
        reveal_strlit("_cookies");
    }
    match parse_json_members(stored) {
        Some(Some(ms)) => {
            let mut vals = members_of(&ms);
            let has = match vals.get("_cookies") {
                Some(t) => {
                    let v = crate::text::to_chars(t.as_str());
                    v.len() > 2 && v[0] == '"'
                },
                None => false,
            };
            if has {
                return None;
            }
            vals.insert("_cookies".to_owned(), json_string_text(txt));
            write_members(&vals)
        },
        _ => None,
    }
}

/// Whether a stored configuration takes cookies: its `_accepts_cookies`
/// flag, `true` when it has none; nothing when the text is not JSON.
pub open spec fn stored_accepts(text: Seq<char>) -> Option<bool> {
    match json_object_members(text) {
        None => None,
        Some(None) => Some(true),
        Some(Some(ms)) => Some(
            match lookup(store_all(seq![], ms), "_accepts_cookies"@) {
                Some(t) => match bool_of(t) {
                    Some(b) => b,
                    None => true,
                },
                None => true,
            },
        ),
    }
}

/// Whether a stored configuration takes cookies (see `stored_accepts`).
pub fn stored_accepts_cookies(text: &str) -> (r: Option<bool>)
    ensures
        r == stored_accepts(text@),
{
    proof {
        reveal_strlit("_accepts_cookies");
        reveal_strlit("true");
        reveal_strlit("false");
    }
    match parse_json_members(text) {
        None => None,
        Some(None) => Some(true),
        Some(Some(ms)) => {
            let vals = members_of(&ms);
            match vals.get("_accepts_cookies") {
                Some(t) => {
                    if crate::text::str_eq(t.as_str(), "false") {
                        assert("true"@.len() == 4 && "false"@.len() == 5);
                        assert(t@ != "true"@);
                        Some(false)
                    } else {
                        Some(true)
                    }
                },
                None => Some(true),
            }
        },
    }
}

/// A configuration's settings as members with string values.
pub open spec fn string_members(vs: Seq<(Seq<char>, Seq<char>)>) -> Seq<(Seq<char>, Seq<char>)> {
    vs.map_values(|e: (Seq<char>, Seq<char>)| (e.0, json_string(e.1)))
}

/// The members a configuration is saved as: its schema, its cookie flag,
/// its cookies, then each setting as a string (a setting named like one
/// of those wins).
pub open spec fn saved_members(c: PluginConfig) -> Seq<(Seq<char>, Seq<char>)> {
    let m = store(
        store(store(seq![], "_schema"@, schema_json(c.schema@)), "_accepts_cookies"@, json_bool(c.accepts_cookies)),
        "_cookies"@,
        json_string(c.cookies@),
    );
    store_all(m, string_members(c.values@))
}

/// The text a configuration is saved as; nothing when it cannot be
/// written.
pub fn config_text(c: &PluginConfig) -> (r: Option<String>)
    ensures
        match r {
            Some(t) => json_pretty(saved_members(*c)) == Some(t@),
            None => json_pretty(saved_members(*c)) is None,
        },
{
    let mut vals = ConfigValues::new();
    assert(vals@ =~= Seq::<(Seq<char>, Seq<char>)>::empty());
    vals.insert("_schema".to_owned(), schema_json_text(c.schema.as_slice()));
    vals.insert("_accepts_cookies".to_owned(), json_bool_text(c.accepts_cookies));
    vals.insert("_cookies".to_owned(), json_string_text(c.cookies.as_str()));
    proof {
        reveal_strlit("_schema");
        reveal_strlit("_accepts_cookies");
        reveal_strlit("_cookies");
    }
    let ghost m = vals@;
    let entries = c.values.to_vec();
    let ghost sv = string_members(c.values@);
    let mut i: usize = 0;
    assert(sv.take(0) =~= Seq::<(Seq<char>, Seq<char>)>::empty());
    while i < entries.len()
        invariant
            i <= entries@.len(),
            entries@.map_values(|e: (String, String)| (e.0@, e.1@)) == c.values@,
            sv == string_members(c.values@),
            vals@ == store_all(m, sv.take(i as int)),
        decreases entries.len() - i,
    {
        assert(sv.take(i + 1).drop_last() =~= sv.take(i as int));
        assert(sv.take(i + 1).last() == (entries@[i as int].0@, json_string(entries@[i as int].1@)));
        vals.insert(entries[i].0.clone(), json_string_text(entries[i].1.as_str()));
        i = i + 1;
    }
    assert(sv.take(entries@.len() as int) =~= sv);
    write_members(&vals)
}

/// The name of the compact JSON text of what a text parses to
/// (`serde_json::from_str`, then `to_string`); nothing when it is not JSON.
pub uninterp spec fn json_compact(text: Seq<char>) -> Option<Seq<char>>;

/// The name of the compact JSON text of the object made of these members,
/// each given by its value's JSON text; nothing when a value's text is not
/// JSON.
pub uninterp spec fn json_compact_object(members: Seq<(Seq<char>, Seq<char>)>) -> Option<
    Seq<char>,
>;

/// `serde_json::from_str` to a `Value`, written back with `to_string`.
#[verifier::external_body]
fn compact_json(text: &str) -> (r: Option<String>)
    ensures
        match r {
            Some(t) => json_compact(text@) == Some(t@),
            None => json_compact(text@) is None,
        },
{
    serde_json::from_str::<serde_json::Value>(text).ok().map(|v| v.to_string())
}

/// `serde_json::to_string` of the object whose members' values are parsed
/// (`serde_json::from_str`) from the given texts.
#[verifier::external_body]
fn compact_object(members: &Vec<(String, String)>) -> (r: Option<String>)
    ensures
        match r {
            Some(t) => json_compact_object(pair_views(members@)) == Some(t@),
            None => json_compact_object(pair_views(members@)) is None,
        },
{
    let mut map = serde_json::Map::new();
    for (k, v) in members {
        let value: serde_json::Value = serde_json::from_str(v).ok()?;
        map.insert(k.clone(), value);
    }
    serde_json::to_string(&serde_json::Value::Object(map)).ok()
}

/// Whether a member is one of the reader's own: `_schema`, `_cookies` or
/// `_accepts_cookies`.
pub open spec fn reader_key(k: Seq<char>) -> bool {
    k == "_schema"@ || k == "_cookies"@ || k == "_accepts_cookies"@
}

/// The members that are not the reader's own, in order.
pub open spec fn plugin_members(m: Seq<(Seq<char>, Seq<char>)>) -> Seq<(Seq<char>, Seq<char>)>
    decreases m.len(),
{
    if m.len() == 0 {
        seq![]
    } else if reader_key(m.last().0) {
        plugin_members(m.drop_last())
    } else {
        plugin_members(m.drop_last()).push(m.last())
    }
}

/// The configuration a plugin is handed, from its stored file's text: the
/// object without the reader's own members, written compactly; JSON that
/// is not an object as it is; nothing when the text is not JSON.
pub open spec fn plugin_view(stored: Seq<char>) -> Option<Seq<char>> {
    match json_object_members(stored) {
        None => None,
        Some(None) => json_compact(stored),
        Some(Some(ms)) => json_compact_object(plugin_members(store_all(seq![], ms))),
    }
}

/// The members that are not the reader's own, in order (see
/// `plugin_members`).
pub fn plugin_members_of(ms: &Vec<(String, String)>) -> (r: Vec<(String, String)>)
    ensures
        pair_views(r@) == plugin_members(pair_views(ms@)),
{
    proof {
        reveal_strlit("_schema");
        reveal_strlit("_cookies");
        reveal_strlit("_accepts_cookies");
    }
    let ghost av = pair_views(ms@);
    let mut kept: Vec<(String, String)> = Vec::new();
    let mut i: usize = 0;
    assert(av.take(0) =~= Seq::<(Seq<char>, Seq<char>)>::empty());
    while i < ms.len()
        invariant
            i <= ms@.len(),
            av == pair_views(ms@),
            pair_views(kept@) == plugin_members(av.take(i as int)),
        decreases ms.len() - i,
    {
        assert(av.take(i + 1).drop_last() =~= av.take(i as int));
        assert(av.take(i + 1).last() == (ms@[i as int].0@, ms@[i as int].1@));
        let k = &ms[i].0;
        let own = crate::text::str_eq(k.as_str(), "_schema") || crate::text::str_eq(
            k.as_str(),
            "_cookies",
        ) || crate::text::str_eq(k.as_str(), "_accepts_cookies");
        if !own {
            let ghost before = pair_views(kept@);
            kept.push((ms[i].0.clone(), ms[i].1.clone()));
            assert(pair_views(kept@) =~= before.push((ms@[i as int].0@, ms@[i as int].1@)));
        }
        i = i + 1;
    }
    assert(av.take(ms@.len() as int) =~= av);
    kept
}

/// The configuration a plugin is handed (see `plugin_view`).
pub fn plugin_config_text(stored: &str) -> (r: Option<String>)
    ensures
        match r {
            Some(t) => plugin_view(stored@) == Some(t@),
            None => plugin_view(stored@) is None,
        },
{
    match parse_json_members(stored) {
        None => None,
        Some(None) => compact_json(stored),
        Some(Some(ms)) => {
            let vals = members_of(&ms);
            let all = vals.to_vec();
            assert(pair_views(all@) =~= vals@);
            let kept = plugin_members_of(&all);
            compact_object(&kept)
        },
    }
}

/// The domain a configuration file's name belongs to: the text between
/// `plugin-` and `.json`; nothing for other files (such as the reader's
/// own `settings.json` and `libraries.json`).
pub open spec fn config_domain_of(name: Seq<char>) -> Option<Seq<char>> {
    if ends_with(name, ".json"@) && name.len() >= 12 && starts_with(name, "plugin-"@) {
        Some(name.subrange(7, name.len() - 5))
    } else {
        None
    }
}

/// The domain a configuration file's name belongs to (see
/// `config_domain_of`).
pub fn config_file_domain(file_name: &str) -> (r: Option<String>)
    ensures
        match r {
            Some(d) => config_domain_of(file_name@) == Some(d@),
            None => config_domain_of(file_name@) is None,
        },
{
    proof {
        reveal_strlit(".json");
        reveal_strlit("plugin-");
    }
    let v = to_chars(file_name);
    if v.len() < 12 || !ends_with_chars(&v, &to_chars(".json")) || !starts_with_chars(&v, &to_chars("plugin-")) {
        return None;
    }
    Some(string_of_range(&v, 7, v.len() - 5))
}

/// The domains of configurations, in order.
pub open spec fn config_domains(cs: Seq<PluginConfig>) -> Seq<Seq<char>> {
    cs.map_values(|c: PluginConfig| c.domain@)
}

/// The configurations found, one per domain: a later one for a domain
/// takes the place of the earlier.
pub open spec fn merged_configs(found: Seq<PluginConfig>) -> Seq<PluginConfig>
    decreases found.len(),
{
    if found.len() == 0 {
        seq![]
    } else {
        let acc = merged_configs(found.drop_last());
        let c = found.last();
        match position_of(config_domains(acc), c.domain@) {
            Some(k) => acc.update(k, c),
            None => acc.push(c),
        }
    }
}

/// The installed domains that have no configuration among `have`, each
/// once, in order.
pub open spec fn missing_domains(have: Seq<Seq<char>>, ds: Seq<Seq<char>>) -> Seq<Seq<char>>
    decreases ds.len(),
{
    if ds.len() == 0 {
        seq![]
    } else {
        let rest = missing_domains(have, ds.drop_last());
        let d = ds.last();
        if have.contains(d) || rest.contains(d) {
            rest
        } else {
            rest.push(d)
        }
    }
}

/// The configuration an installed plugin gets before it has a file: no
/// schema, cookies taken, no values or cookies, its file in `dir`.
pub open spec fn pending_config(c: PluginConfig, dir: Seq<char>, d: Seq<char>) -> bool {
    &&& c.domain@ == d
    &&& c.schema@.len() == 0
    &&& c.accepts_cookies
    &&& c.values@.len() == 0
    &&& c.cookies@.len() == 0
    &&& c.path@ == path_join(dir, "plugin-"@ + d + ".json"@)
}

/// Where the first configuration of domain `d` stands.
fn find_domain(cs: &Vec<PluginConfig>, d: &str) -> (r: Option<usize>)
    ensures
        match r {
            Some(k) => position_of(config_domains(cs@), d@) == Some(k as int) && k < cs@.len(),
            None => position_of(config_domains(cs@), d@) is None,
        },
{
    let ghost us = config_domains(cs@);
    let mut i: usize = 0;
    while i < cs.len()
        invariant
            i <= cs.len(),
            us == config_domains(cs@),
            position_of(us.take(i as int), d@) is None,
        decreases cs.len() - i,
    {
        assert(us.take(i + 1).drop_last() =~= us.take(i as int));
        assert(us.take(i + 1).last() == cs@[i as int].domain@);
        if str_eq(cs[i].domain.as_str(), d) {
            proof {
                lemma_position_prefix(us, d@, i as int + 1);
            }
            return Some(i);
        }
        i = i + 1;
    }
    assert(us.take(cs.len() as int) =~= us);
    None
}

/// The plugin configurations: those found in the configuration files, in
/// the order found, one per domain with a later file for a domain taking
/// the place of the earlier; then a pending one, stored in `dir`, for
/// each installed plugin domain that has none.
pub fn discovered_configs(found: Vec<PluginConfig>, installed: &[String], dir: &str) -> (r: Vec<
    PluginConfig,
>)
    ensures
        ({
            let m = merged_configs(found@);
            let miss = missing_domains(config_domains(m), views(installed@));
            &&& r@.len() == m.len() + miss.len()
            &&& r@.take(m.len() as int) == m
            &&& forall|j: int|
                0 <= j < miss.len() ==> pending_config(#[trigger] r@[m.len() + j], dir@, miss[j])
        }),
{
    let ghost orig = found@;
    let mut found = found;
    let mut acc: Vec<PluginConfig> = Vec::new();
    let mut i: usize = 0;
    let n = found.len();
    assert(orig.take(0) =~= Seq::<PluginConfig>::empty());
    while found.len() > 0
        invariant
            n == orig.len(),
            i <= n,
            found@ == orig.skip(i as int),
            acc@ == merged_configs(orig.take(i as int)),
        decreases found.len(),
    {
        assert(orig.take(i + 1).drop_last() =~= orig.take(i as int));
        let c = found.remove(0);
        assert(c == orig[i as int]);
        assert(found@ =~= orig.skip(i + 1));
        match find_domain(&acc, c.domain.as_str()) {
            Some(k) => {
                acc.set(k, c);
            },
            None => {
                acc.push(c);
            },
        }
        i = i + 1;
    }
    assert(orig.take(n as int) =~= orig);
    let ghost m = acc@;
    let ghost have = config_domains(m);
    let ghost ds = views(installed@);
    let mut j: usize = 0;
    assert(ds.take(0) =~= Seq::<Seq<char>>::empty());
    while j < installed.len()
        invariant
            j <= installed@.len(),
            ds == views(installed@),
            have == config_domains(m),
            acc@.len() == m.len() + missing_domains(have, ds.take(j as int)).len(),
            acc@.take(m.len() as int) == m,
            config_domains(acc@) == have + missing_domains(have, ds.take(j as int)),
            forall|q: int|
                0 <= q < missing_domains(have, ds.take(j as int)).len() ==> pending_config(
                    #[trigger] acc@[m.len() + q],
                    dir@,
                    missing_domains(have, ds.take(j as int))[q],
                ),
        decreases installed.len() - j,
    {
        let ghost miss = missing_domains(have, ds.take(j as int));
        assert(ds.take(j + 1).drop_last() =~= ds.take(j as int));
        assert(ds.take(j + 1).last() == installed@[j as int]@);
        let d = &installed[j];
        let found_at = find_domain(&acc, d.as_str());
        proof {
            lemma_position_of_bound(config_domains(acc@), d@);
            assert(config_domains(acc@).contains(d@) <==> (have.contains(d@) || miss.contains(d@))) by {
                if config_domains(acc@).contains(d@) {
                    let x = choose|x: int| 0 <= x < config_domains(acc@).len() && config_domains(acc@)[x] == d@;
                    if x < have.len() {
                        assert((have + miss)[x] == have[x]);
                    } else {
                        assert((have + miss)[x] == miss[x - have.len()]);
                    }
                }
                if have.contains(d@) {
                    let x = choose|x: int| 0 <= x < have.len() && have[x] == d@;
                    assert((have + miss)[x] == d@);
                }
                if miss.contains(d@) {
                    let x = choose|x: int| 0 <= x < miss.len() && miss[x] == d@;
                    assert((have + miss)[have.len() + x] == d@);
                }
            }
        }
        if found_at.is_none() {
            let c = PluginConfig {
                domain: d.clone(),
                schema: Vec::new(),
                accepts_cookies: true,
                values: ConfigValues::new(),
                cookies: String::new(),
                path: config_file_in(dir, d.as_str()),
            };
            let ghost before = acc@;
            acc.push(c);
            assert(config_domains(acc@) =~= config_domains(before).push(d@));
            assert(missing_domains(have, ds.take(j + 1)) =~= miss.push(d@));
            assert(acc@.take(m.len() as int) =~= before.take(m.len() as int));
            assert(config_domains(acc@) =~= have + miss.push(d@));
        } else {
            assert(missing_domains(have, ds.take(j + 1)) =~= miss);
        }
        j = j + 1;
    }
    assert(ds.take(installed@.len() as int) =~= ds);
    acc
}

} // verus!
