//! Runtime settings: rate limit, debug logging, reader mode, workers and
//! the plugin configurations, with how they read and how they are edited.
pub mod cookies;
pub mod fields;

use vstd::prelude::*;
use crate::paths::{join_path, path_join, state_dir};
use crate::plugin_config::{config_dir, config_dir_under, store, PluginConfig};
use crate::text::{decimal, decimal_string, push_char, push_str, str_eq, to_chars};
use self::fields::SettingsField;

verus! {

/// How bad a logged event is.
#[derive(Debug, PartialEq, Eq, Structural, Clone, Copy)]
pub enum LogLevel {
    Error,
    Debug,
}

impl LogLevel {
    /// The level's name in the log.
    pub fn to_string(&self) -> (r: String)
        ensures
            r@ == match *self {
                LogLevel::Error => "ERROR"@,
                LogLevel::Debug => "DEBUG"@,
            },
    {
        match self {
            LogLevel::Error => "ERROR".to_string(),
            LogLevel::Debug => "DEBUG".to_string(),
        }
    }
}

/// The name of a level in the log.
pub open spec fn level_name(l: LogLevel) -> Seq<char> {
    match l {
        LogLevel::Error => "ERROR"@,
        LogLevel::Debug => "DEBUG"@,
    }
}

/// Whether a message is logged: errors always, debug messages only while
/// debug logging is on.
pub fn log_enabled(level: &LogLevel, debug_on: bool) -> (r: bool)
    ensures
        r == (*level == LogLevel::Error || debug_on),
{
    match level {
        LogLevel::Error => true,
        LogLevel::Debug => debug_on,
    }
}

/// A line of the log: `[time] [LEVEL] [module] message`.
pub fn log_line(ts: &str, level: &LogLevel, module: &str, msg: &str) -> (r: String)
    ensures
        r@ == "["@ + ts@ + "] ["@ + level_name(*level) + "] ["@ + module@ + "] "@ + msg@,
{
    let mut out = "[".to_string();
    push_str(&mut out, ts);
    push_str(&mut out, "] [");
    let name = level.to_string();
    push_str(&mut out, name.as_str());
    push_str(&mut out, "] [");
    push_str(&mut out, module);
    push_str(&mut out, "] ");
    push_str(&mut out, msg);
    out
}

/// The log file under a state directory (`/tmp` when there is none).
pub open spec fn log_file_under(base: Option<String>) -> Seq<char> {
    let b = match base {
        Some(d) => d@,
        None => "/tmp"@,
    };
    path_join(path_join(b, "scylla-reader"@), "scylla-reader.log"@)
}

/// The log file: `scylla-reader/scylla-reader.log` in the user's state
/// directory.
pub fn log_file() -> (r: String)
    ensures
        exists|base: Option<String>| r@ == log_file_under(base),
{
    let base = state_dir();
    let dir = match &base {
        Some(d) => join_path(d.as_str(), "scylla-reader"),
        None => join_path("/tmp", "scylla-reader"),
    };
    let r = join_path(dir.as_str(), "scylla-reader.log");
    assert(r@ == log_file_under(base));
    r
}

/// The pages of the settings screen.
#[derive(Debug, PartialEq, Eq, Structural, Clone, Copy)]
pub enum SettingsPage {
    Main,
    DebugLog,
    PluginList,
    PluginFields,
    PluginFieldEdit,
    Server,
}

/// How chapters are shown: page by page, or as one scrolling text.
#[derive(Debug, PartialEq, Eq, Structural, Clone, Copy)]
pub enum ReaderMode {
    Paged,
    Scrollable,
}

/// A reader mode's name.
pub open spec fn mode_name(m: ReaderMode) -> Seq<char> {
    match m {
        ReaderMode::Paged => "Paged"@,
        ReaderMode::Scrollable => "Scrollable"@,
    }
}

impl ReaderMode {
    /// The other mode.
    pub fn toggle(&self) -> (r: ReaderMode)
        ensures
            r != *self,
    {
        match self {
            ReaderMode::Paged => ReaderMode::Scrollable,
            ReaderMode::Scrollable => ReaderMode::Paged,
        }
    }

    /// The mode's name.
    pub fn to_string(&self) -> (r: String)
        ensures
            r@ == mode_name(*self),
    {
        match self {
            ReaderMode::Paged => "Paged".to_string(),
            ReaderMode::Scrollable => "Scrollable".to_string(),
        }
    }
}

/// Toggling twice gives the mode back.
pub proof fn lemma_toggle_twice(m: ReaderMode)
    ensures
        (match m {
            ReaderMode::Paged => ReaderMode::Scrollable,
            ReaderMode::Scrollable => ReaderMode::Paged,
        }) != m,
{
}

/// The settings as they are saved.
#[derive(Debug, PartialEq)]
pub struct PersistedSettings {
    pub rate_limit_secs: u64,
    pub debug_log: bool,
    pub reader_mode: ReaderMode,
    pub max_workers: u8,
    pub config_dir: Option<String>,
    pub data_dir: Option<String>,
}

impl Default for PersistedSettings {
    fn default() -> (r: Self)
        ensures
            r.rate_limit_secs == 2,
            !r.debug_log,
            r.reader_mode == ReaderMode::Paged,
            r.max_workers == 4,
            r.config_dir is None,
            r.data_dir is None,
    {
        PersistedSettings {
            rate_limit_secs: 2,
            debug_log: false,
            reader_mode: ReaderMode::Paged,
            max_workers: 4,
            config_dir: None,
            data_dir: None,
        }
    }
}

/// Whether `c` is an ASCII digit.
pub open spec fn is_digit(c: char) -> bool {
    ('0' as int) <= (c as int) <= ('9' as int)
}

/// The value of a digit.
fn digit_value(c: char) -> (d: u64)
    requires
        is_digit(c),
    ensures
        d == (c as int) - ('0' as int),
{
    match c {
        '0' => 0,
        '1' => 1,
        '2' => 2,
        '3' => 3,
        '4' => 4,
        '5' => 5,
        '6' => 6,
        '7' => 7,
        '8' => 8,
        _ => 9,
    }
}

/// The number of digits `s` starts with.
pub open spec fn lead_digits(s: Seq<char>) -> nat
    decreases s.len(),
{
    if s.len() > 0 && is_digit(s[0]) {
        1 + lead_digits(s.drop_first())
    } else {
        0
    }
}

/// The value of a run of decimal digits.
pub open spec fn digits_value(s: Seq<char>) -> nat
    decreases s.len(),
{
    if s.len() == 0 {
        0
    } else {
        digits_value(s.drop_last()) * 10 + ((s.last() as int) - ('0' as int)) as nat
    }
}

/// The number an unsigned integer's text denotes (`str::parse` on an
/// unsigned type, before the range check): an optional `+`, then one or
/// more digits and nothing else.
pub open spec fn unsigned_text(s: Seq<char>) -> Option<nat> {
    let t = if s.len() > 0 && s[0] == '+' {
        s.drop_first()
    } else {
        s
    };
    if t.len() > 0 && lead_digits(t) == t.len() {
        Some(digits_value(t))
    } else {
        None
    }
}

proof fn lemma_lead_digits(s: Seq<char>)
    ensures
        lead_digits(s) <= s.len(),
        forall|i: int| 0 <= i < lead_digits(s) ==> is_digit(#[trigger] s[i]),
        lead_digits(s) < s.len() ==> !is_digit(s[lead_digits(s) as int]),
    decreases s.len(),
{
    if s.len() > 0 && is_digit(s[0]) {
        lemma_lead_digits(s.drop_first());
        assert forall|i: int| 0 <= i < lead_digits(s) implies is_digit(#[trigger] s[i]) by {
            if i > 0 {
                assert(s[i] == s.drop_first()[i - 1]);
            }
        }
    }
}

proof fn lemma_lead_digits_is(s: Seq<char>, k: int)
    requires
        0 <= k <= s.len(),
        forall|i: int| 0 <= i < k ==> is_digit(#[trigger] s[i]),
        k < s.len() ==> !is_digit(s[k]),
    ensures
        lead_digits(s) == k,
    decreases s.len(),
{
    if k > 0 {
        assert(is_digit(s[0]));
        assert forall|i: int| 0 <= i < k - 1 implies is_digit(#[trigger] s.drop_first()[i]) by {
            assert(s.drop_first()[i] == s[i + 1]);
        }
        lemma_lead_digits_is(s.drop_first(), k - 1);
    }
}

proof fn lemma_digits_value_grows(s: Seq<char>, n: int)
    requires
        0 <= n <= s.len(),
        forall|i: int| 0 <= i < s.len() ==> is_digit(#[trigger] s[i]),
    ensures
        digits_value(s.take(n)) <= digits_value(s),
    decreases s.len() - n,
{
    if n < s.len() {
        lemma_digits_value_grows(s, n + 1);
        assert(s.take(n + 1).drop_last() =~= s.take(n));
    } else {
        assert(s.take(n) =~= s);
    }
}

/// `str::parse::<u64>`: the number, or nothing when the text is not an
/// unsigned integer or too large.
pub fn parse_u64(s: &str) -> (r: Option<u64>)
    ensures
        r == match unsigned_text(s@) {
            Some(v) => if v <= u64::MAX {
                Some(v as u64)
            } else {
                None
            },
            None => None,
        },
{
    let v = to_chars(s);
    let start: usize = if v.len() > 0 && v[0] == '+' {
        1
    } else {
        0
    };
    let ghost t = v@.skip(start as int);
    assert(t =~= (if s@.len() > 0 && s@[0] == '+' {
        s@.drop_first()
    } else {
        s@
    }));
    if start == v.len() {
        return None;
    }
    let mut acc: u64 = 0;
    let mut over = false;
    let mut i: usize = start;
    assert(t.take(0) =~= Seq::<char>::empty());
    while i < v.len()
        invariant
            start <= i <= v.len(),
            t == v@.skip(start as int),
            t == (if s@.len() > 0 && s@[0] == '+' {
                s@.drop_first()
            } else {
                s@
            }),
            forall|k: int| 0 <= k < i - start ==> is_digit(#[trigger] t[k]),
            !over ==> acc == digits_value(t.take(i - start)),
            over ==> digits_value(t.take(i - start)) > u64::MAX,
        decreases v.len() - i,
    {
        let c = v[i];
        assert(t[i - start] == c);
        if !('0' <= c && c <= '9') {
            assert(!is_digit(c));
            proof {
                lemma_lead_digits_is(t, i - start);
            }
            assert(lead_digits(t) < t.len());
            return None;
        }
        let d = digit_value(c);
        assert(t.take(i - start + 1).drop_last() =~= t.take(i - start));
        assert(t.take(i - start + 1).last() == c);
        if !over {
            match acc.checked_mul(10) {
                Some(m) => match m.checked_add(d) {
                    Some(n) => {
                        acc = n;
                    },
                    None => {
                        over = true;
                    },
                },
                None => {
                    over = true;
                    assert(digits_value(t.take(i - start + 1)) >= acc * 10);
                },
            }
        }
        i = i + 1;
    }
    proof {
        lemma_lead_digits_is(t, t.len() as int);
        assert(t.take(t.len() as int) =~= t);
    }
    if over {
        None
    } else {
        Some(acc)
    }
}

/// `str::parse::<u8>`: the number, or nothing when the text is not an
/// unsigned integer or is above 255.
pub fn parse_u8(s: &str) -> (r: Option<u8>)
    ensures
        r == match unsigned_text(s@) {
            Some(v) => if v <= u8::MAX {
                Some(v as u8)
            } else {
                None
            },
            None => None,
        },
{
    match parse_u64(s) {
        Some(n) => if n <= 255 {
            Some(n as u8)
        } else {
            None
        },
        None => None,
    }
}

/// The saved settings a build starts from, given the values its build
/// environment set (`SCYLLA_RATE_LIMIT`, `SCYLLA_DEBUG_LOG`,
/// `SCYLLA_READER_MODE`, `SCYLLA_MAX_WORKERS`): each set and valid value
/// wins over the default (2 seconds, no debug log, paged, 4 workers).
pub fn compiled_defaults_from(
    rate_limit: Option<&str>,
    debug_log: Option<&str>,
    reader_mode: Option<&str>,
    max_workers: Option<&str>,
) -> (r: PersistedSettings)
    ensures
        r.rate_limit_secs == match rate_limit {
            Some(t) => match unsigned_text(t@) {
                Some(v) => if v <= u64::MAX {
                    v as u64
                } else {
                    2
                },
                None => 2,
            },
            None => 2,
        },
        r.debug_log == match debug_log {
            Some(t) => t@ == "true"@,
            None => false,
        },
        r.reader_mode == match reader_mode {
            Some(t) => if t@ == "Scrollable"@ {
                ReaderMode::Scrollable
            } else {
                ReaderMode::Paged
            },
            None => ReaderMode::Paged,
        },
        r.max_workers == match max_workers {
            Some(t) => match unsigned_text(t@) {
                Some(v) => if v <= u8::MAX {
                    v as u8
                } else {
                    4
                },
                None => 4,
            },
            None => 4,
        },
        r.config_dir is None,
        r.data_dir is None,
{
    let rate_limit_secs = match rate_limit {
        Some(t) => match parse_u64(t) {
            Some(n) => n,
            None => 2,
        },
        None => 2,
    };
    let debug = match debug_log {
        Some(t) => str_eq(t, "true"),
        None => false,
    };
    let mode = match reader_mode {
        Some(t) => if str_eq(t, "Scrollable") {
            ReaderMode::Scrollable
        } else {
            ReaderMode::Paged
        },
        None => ReaderMode::Paged,
    };
    let workers = match max_workers {
        Some(t) => match parse_u8(t) {
            Some(n) => n,
            None => 4,
        },
        None => 4,
    };
    PersistedSettings {
        rate_limit_secs,
        debug_log: debug,
        reader_mode: mode,
        max_workers: workers,
        config_dir: None,
        data_dir: None,
    }
}

/// Where the settings are saved: `settings.json` in the configuration
/// directory.
pub fn settings_path() -> (r: String)
    ensures
        exists|base: Option<String>| r@ == path_join(config_dir_under(base), "settings.json"@),
{
    let d = config_dir();
    join_path(d.as_str(), "settings.json")
}

/// Whether `t` spells the word given in lower case `lo` and upper case
/// `up`, each letter in either case.
pub open spec fn matches_ci(t: Seq<char>, lo: Seq<char>, up: Seq<char>) -> bool {
    &&& t.len() == lo.len()
    &&& lo.len() == up.len()
    &&& forall|i: int| 0 <= i < t.len() ==> #[trigger] t[i] == lo[i] || t[i] == up[i]
}

/// Whether `s` is an exponent: `e` or `E`, an optional sign, one or more
/// digits.
pub open spec fn exponent_ok(s: Seq<char>) -> bool {
    s.len() > 0 && (s[0] == 'e' || s[0] == 'E') && {
        let t = s.drop_first();
        let u = if t.len() > 0 && (t[0] == '+' || t[0] == '-') {
            t.drop_first()
        } else {
            t
        };
        u.len() > 0 && lead_digits(u) == u.len()
    }
}

/// Whether `s` is a decimal number: digits with an optional point and at
/// least one digit, then an optional exponent.
pub open spec fn number_ok(s: Seq<char>) -> bool {
    let a = lead_digits(s);
    let r = s.skip(a as int);
    if r.len() > 0 && r[0] == '.' {
        let r2 = r.drop_first();
        let b = lead_digits(r2);
        let r3 = r2.skip(b as int);
        a + b > 0 && (r3.len() == 0 || exponent_ok(r3))
    } else {
        a > 0 && (r.len() == 0 || exponent_ok(r))
    }
}

/// Whether `s` is the text of a floating-point number as `str::parse`
/// reads one: an optional sign, then `inf`, `infinity` or `nan` in any
/// case, or a decimal number.
pub open spec fn float_text(s: Seq<char>) -> bool {
    let t = if s.len() > 0 && (s[0] == '+' || s[0] == '-') {
        s.drop_first()
    } else {
        s
    };
    matches_ci(t, "inf"@, "INF"@) || matches_ci(t, "infinity"@, "INFINITY"@) || matches_ci(
        t,
        "nan"@,
        "NAN"@,
    ) || number_ok(t)
}

/// The number of digits from position `from` on.
fn digits_from(v: &Vec<char>, from: usize) -> (r: usize)
    requires
        from <= v.len(),
    ensures
        from <= r <= v.len(),
        r - from == lead_digits(v@.skip(from as int)),
{
    let ghost t = v@.skip(from as int);
    let mut i: usize = from;
    while i < v.len() && '0' <= v[i] && v[i] <= '9'
        invariant
            from <= i <= v.len(),
            t == v@.skip(from as int),
            forall|k: int| 0 <= k < i - from ==> is_digit(#[trigger] t[k]),
        decreases v.len() - i,
    {
        assert(t[i - from] == v@[i as int]);
        i = i + 1;
    }
    proof {
        if i < v.len() {
            assert(t[i - from] == v@[i as int]);
        }
        lemma_lead_digits_is(t, i - from);
    }
    i
}

/// Whether the characters from position `from` on spell a word in either
/// case.
fn word_ci_from(v: &Vec<char>, from: usize, lo: &str, up: &str) -> (r: bool)
    requires
        from <= v.len(),
    ensures
        r == matches_ci(v@.skip(from as int), lo@, up@),
{
    let l = to_chars(lo);
    let u = to_chars(up);
    let ghost t = v@.skip(from as int);
    if v.len() - from != l.len() || l.len() != u.len() {
        return false;
    }
    let mut i: usize = 0;
    while i < l.len()
        invariant
            i <= l.len(),
            l.len() == u.len(),
            v.len() - from == l.len(),
            from <= v.len(),
            t == v@.skip(from as int),
            l@ == lo@,
            u@ == up@,
            forall|k: int| 0 <= k < i ==> #[trigger] t[k] == l@[k] || t[k] == u@[k],
        decreases l.len() - i,
    {
        assert(t[i as int] == v@[from + i]);
        if v[from + i] != l[i] && v[from + i] != u[i] {
            return false;
        }
        i = i + 1;
    }
    true
}

/// Whether the characters from position `from` on are an exponent.
fn exponent_from(v: &Vec<char>, from: usize) -> (r: bool)
    requires
        from <= v.len(),
    ensures
        r == exponent_ok(v@.skip(from as int)),
{
    let ghost s = v@.skip(from as int);
    if from >= v.len() || !(v[from] == 'e' || v[from] == 'E') {
        return false;
    }
    assert(s[0] == v@[from as int]);
    let mut j = from + 1;
    assert(s.drop_first() =~= v@.skip(j as int));
    if j < v.len() && (v[j] == '+' || v[j] == '-') {
        assert(s.drop_first()[0] == v@[j as int]);
        assert(s.drop_first().drop_first() =~= v@.skip(j + 1));
        j = j + 1;
    }
    let k = digits_from(v, j);
    j < v.len() && k == v.len()
}

/// Whether the characters from position `from` on are a decimal number.
fn number_from(v: &Vec<char>, from: usize) -> (r: bool)
    requires
        from <= v.len(),
    ensures
        r == number_ok(v@.skip(from as int)),
{
    let ghost s = v@.skip(from as int);
    let a = digits_from(v, from);
    assert(s.skip((a - from) as int) =~= v@.skip(a as int));
    if a < v.len() && v[a] == '.' {
        assert(s.skip((a - from) as int)[0] == v@[a as int]);
        assert(s.skip((a - from) as int).drop_first() =~= v@.skip(a + 1));
        let b = digits_from(v, a + 1);
        assert(v@.skip(a + 1).skip((b - (a + 1)) as int) =~= v@.skip(b as int));
        (a - from) + (b - (a + 1)) > 0 && (b == v.len() || exponent_from(v, b))
    } else {
        a > from && (a == v.len() || exponent_from(v, a))
    }
}

/// Whether a text is a floating-point number's (the test `str::parse::<f64>`
/// passes).
pub fn is_float_text(s: &str) -> (r: bool)
    ensures
        r == float_text(s@),
{
    let v = to_chars(s);
    let start: usize = if v.len() > 0 && (v[0] == '+' || v[0] == '-') {
        1
    } else {
        0
    };
    assert(v@.skip(start as int) =~= (if s@.len() > 0 && (s@[0] == '+' || s@[0] == '-') {
        s@.drop_first()
    } else {
        s@
    }));
    word_ci_from(&v, start, "inf", "INF") || word_ci_from(&v, start, "infinity", "INFINITY")
        || word_ci_from(&v, start, "nan", "NAN") || number_from(&v, start)
}

/// Two digits of a clock, with a leading zero.
fn push_two_digits(out: &mut String, n: u64)
    requires
        n < 100,
    ensures
        final(out)@ == old(out)@ + (if n < 10 {
            seq!['0'] + decimal(n as nat)
        } else {
            decimal(n as nat)
        }),
{
    if n < 10 {
        push_char(out, '0');
    }
    crate::text::push_decimal(out, n);
}

/// The time of day of a count of seconds since the epoch, as `HH:MM:SS
/// UTC` with two digits each.
pub open spec fn clock_text(total: nat) -> Seq<char> {
    let two = |n: nat|
        if n < 10 {
            seq!['0'] + decimal(n)
        } else {
            decimal(n)
        };
    two((total / 3600) % 24) + seq![':'] + two((total / 60) % 60) + seq![':'] + two(total % 60)
        + " UTC"@
}

/// The time of day of a count of seconds since the epoch, as the log
/// shows it.
pub fn clock(total: u64) -> (r: String)
    ensures
        r@ == clock_text(total as nat),
{
    let h = (total / 3600) % 24;
    let m = (total / 60) % 60;
    let sec = total % 60;
    let mut out = String::new();
    push_two_digits(&mut out, h);
    push_char(&mut out, ':');
    push_two_digits(&mut out, m);
    push_char(&mut out, ':');
    push_two_digits(&mut out, sec);
    push_str(&mut out, " UTC");
    out
}

/// The user's saved settings over the build's: the saved rate limit,
/// debug log, reader mode and worker count win; the directories stay.
pub fn merge_saved(merged: PersistedSettings, user: &PersistedSettings) -> (r: PersistedSettings)
    ensures
        r.rate_limit_secs == user.rate_limit_secs,
        r.debug_log == user.debug_log,
        r.reader_mode == user.reader_mode,
        r.max_workers == user.max_workers,
        r.config_dir == merged.config_dir,
        r.data_dir == merged.data_dir,
{
    PersistedSettings {
        rate_limit_secs: user.rate_limit_secs,
        debug_log: user.debug_log,
        reader_mode: user.reader_mode,
        max_workers: user.max_workers,
        config_dir: merged.config_dir,
        data_dir: merged.data_dir,
    }
}

/// The settings in use.
#[derive(Debug)]
pub struct Settings {
    pub rate_limit_secs: u64,
    pub debug_log: bool,
    pub reader_mode: ReaderMode,
    pub max_workers: u8,
    pub plugin_configs: Vec<PluginConfig>,
}

/// What a settings row shows for a setting.
pub open spec fn field_text(s: Settings, f: SettingsField) -> Seq<char> {
    match f {
        SettingsField::RateLimit => decimal(s.rate_limit_secs as nat),
        SettingsField::DebugLog => if s.debug_log {
            "ON"@
        } else {
            "OFF"@
        },
        SettingsField::ReaderMode => mode_name(s.reader_mode),
        SettingsField::Plugins => decimal(s.plugin_configs@.len()) + " domain(s)"@,
        SettingsField::AutoEmbed => seq![],
        SettingsField::Server => seq![],
    }
}

/// Where editing a plugin's field leads: nothing to do, the plugin
/// configuration at a position changed and is to be saved, or the value
/// was refused.
pub open spec fn edit_outcome(
    configs: Seq<PluginConfig>,
    plugin: int,
    field: int,
    buffer: Seq<char>,
) -> Result<Option<usize>, Seq<char>> {
    if plugin >= configs.len() {
        Ok(None)
    } else {
        let c = configs[plugin];
        if field == c.schema@.len() {
            Ok(Some(plugin as usize))
        } else if field > c.schema@.len() {
            Ok(None)
        } else if c.schema@[field].field_type@ == "number"@ && buffer.len() > 0 && !float_text(
            buffer,
        ) {
            Err("Invalid number"@)
        } else {
            Ok(Some(plugin as usize))
        }
    }
}

/// Whether `n` is the settings `o` with a plugin field's edit applied:
/// the cookie row takes the buffer as cookie text, an accepted value is
/// stored under its field's key, and nothing else changes.
pub open spec fn edit_applied(
    o: Settings,
    n: Settings,
    plugin: usize,
    field: usize,
    buffer: Seq<char>,
) -> bool {
    &&& n.plugin_configs@.len() == o.plugin_configs@.len()
    &&& forall|i: int|
        0 <= i < o.plugin_configs@.len() && i != plugin ==> n.plugin_configs@[i]
            == o.plugin_configs@[i]
    &&& plugin < o.plugin_configs@.len() ==> {
        let c = o.plugin_configs@[plugin as int];
        let m = n.plugin_configs@[plugin as int];
        &&& m.domain == c.domain
        &&& m.schema == c.schema
        &&& m.accepts_cookies == c.accepts_cookies
        &&& m.path == c.path
        &&& if field == c.schema@.len() {
            m.cookies@ == buffer && m.values@ == c.values@
        } else if edit_outcome(o.plugin_configs@, plugin as int, field as int, buffer) matches Ok(
            Some(_),
        ) {
            m.cookies == c.cookies && m.values@ == store(
                c.values@,
                c.schema@[field as int].key@,
                buffer,
            )
        } else {
            m.cookies == c.cookies && m.values@ == c.values@
        }
    }
    &&& n.rate_limit_secs == o.rate_limit_secs
    &&& n.debug_log == o.debug_log
    &&& n.reader_mode == o.reader_mode
    &&& n.max_workers == o.max_workers
}

impl Settings {
    /// Settings from saved values and the plugin configurations found.
    pub fn from_persisted(p: PersistedSettings, plugin_configs: Vec<PluginConfig>) -> (r: Self)
        ensures
            r.rate_limit_secs == p.rate_limit_secs,
            r.debug_log == p.debug_log,
            r.reader_mode == p.reader_mode,
            r.max_workers == p.max_workers,
            r.plugin_configs == plugin_configs,
    {
        Settings {
            rate_limit_secs: p.rate_limit_secs,
            debug_log: p.debug_log,
            reader_mode: p.reader_mode,
            max_workers: p.max_workers,
            plugin_configs,
        }
    }

    /// The settings a build starts with when nothing is saved, no build
    /// value is set and no plugin is configured.
    pub fn new() -> (r: Self)
        ensures
            r.rate_limit_secs == 2,
            !r.debug_log,
            r.reader_mode == ReaderMode::Paged,
            r.max_workers == 4,
            r.plugin_configs@.len() == 0,
    {
        Self::from_persisted(compiled_defaults_from(None, None, None, None), Vec::new())
    }

    /// Takes the plugin configurations found anew.
    pub fn reload_plugins(&mut self, configs: Vec<PluginConfig>)
        ensures
            final(self).plugin_configs == configs,
            final(self).rate_limit_secs == old(self).rate_limit_secs,
            final(self).debug_log == old(self).debug_log,
            final(self).reader_mode == old(self).reader_mode,
            final(self).max_workers == old(self).max_workers,
    {
        self.plugin_configs = configs;
    }

    /// What a settings row shows for a setting.
    pub fn field_value(&self, field: &SettingsField) -> (r: String)
        ensures
            r@ == field_text(*self, *field),
    {
        match field {
            SettingsField::RateLimit => decimal_string(self.rate_limit_secs),
            SettingsField::DebugLog => if self.debug_log {
                "ON".to_string()
            } else {
                "OFF".to_string()
            },
            SettingsField::ReaderMode => self.reader_mode.to_string(),
            SettingsField::Plugins => {
                let mut s = decimal_string(self.plugin_configs.len() as u64);
                push_str(&mut s, " domain(s)");
                s
            },
            SettingsField::AutoEmbed => String::new(),
            SettingsField::Server => String::new(),
        }
    }

    /// Saves the edit buffer into the selected plugin's selected field: the
    /// position just past the schema is the cookie text; a number field
    /// refuses text that is not a number. Answers which plugin
    /// configuration changed and is to be written out.
    pub fn save_current_field(
        &mut self,
        selected_plugin: usize,
        selected_plugin_field: usize,
        plugin_field_buffer: &str,
    ) -> (r: Result<Option<usize>, String>)
        ensures
            match r {
                Ok(x) => edit_outcome(
                    old(self).plugin_configs@,
                    selected_plugin as int,
                    selected_plugin_field as int,
                    plugin_field_buffer@,
                ) == Ok::<Option<usize>, Seq<char>>(x),
                Err(e) => edit_outcome(
                    old(self).plugin_configs@,
                    selected_plugin as int,
                    selected_plugin_field as int,
                    plugin_field_buffer@,
                ) == Err::<Option<usize>, Seq<char>>(e@),
            },
            edit_applied(
                *old(self),
                *final(self),
                selected_plugin,
                selected_plugin_field,
                plugin_field_buffer@,
            ),
    {
        if selected_plugin >= self.plugin_configs.len() {
            return Ok(None);
        }
        let mut configs: Vec<PluginConfig> = Vec::new();
        std::mem::swap(&mut configs, &mut self.plugin_configs);
        let ghost before = configs@;
        let mut config = configs.remove(selected_plugin);
        let ghost c = config;
        let n = config.schema.len();
        let result: Result<Option<usize>, String> = if selected_plugin_field == n {
            config.cookies = plugin_field_buffer.to_owned();
            Ok(Some(selected_plugin))
        } else if selected_plugin_field > n {
            Ok(None)
        } else {
            let key = config.schema[selected_plugin_field].key.clone();
            let is_number = str_eq(config.schema[selected_plugin_field].field_type.as_str(), "number");
            if is_number && !plugin_field_buffer.is_empty() && !is_float_text(plugin_field_buffer) {
                Err("Invalid number".to_string())
            } else {
                config.update_value(key.as_str(), plugin_field_buffer.to_owned());
                Ok(Some(selected_plugin))
            }
        };
        configs.insert(selected_plugin, config);
        assert(configs@ =~= before.update(selected_plugin as int, config));
        self.plugin_configs = configs;
        result
    }
}

} // verus!
