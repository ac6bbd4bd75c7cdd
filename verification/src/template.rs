//! The template plugin: a book of endless chapters of generated lorem
//! ipsum, seeded from the chapter's URL and the time it is read.
use vstd::prelude::*;
use vstd::utf8::encode_utf8;
use vstd::arithmetic::div_mod::lemma_add_mod_noop_right;
use crate::plugin_api::{ChapterOutput, ConfigField, PluginChapter, PluginSchema, ScrapeInput, ScrapeOutput};
use crate::plugin_config::{json_object_entries, member_views, parse_json_object};
use crate::settings::{parse_u64, unsigned_text};
use crate::text::{
    decimal, find_from, find_sub_from, join, join_strings, lemma_find_from, occurs_at, push_decimal,
    push_str, str_eq, string_of_range, to_chars, views,
};

verus! {

/// The multiplier of the generator's linear congruential step.
pub const PCG_MULTIPLIER: u64 = 6364136223846793005;

/// The increment of the generator's linear congruential step.
pub const PCG_INCREMENT: u64 = 1442695040888963407;

/// The generator's next state: `state × multiplier + increment` modulo
/// 2⁶⁴.
pub open spec fn pcg_next(state: u64) -> u64 {
    ((state as nat * PCG_MULTIPLIER as nat + PCG_INCREMENT as nat) % 0x1_0000_0000_0000_0000)
        as u64
}

/// `x` rotated right by `r` bits (`r < 32`).
pub open spec fn rotate_right(x: u32, r: u32) -> u32 {
    (x >> r) | (x << (((32 - r) % 32) as u32))
}

/// The number the generator draws from a state (PCG's XSH-RR output): the
/// state's high bits xor-shifted down to 32 bits and rotated right by its
/// top five bits.
pub open spec fn pcg_output(state: u64) -> u32 {
    rotate_right((((state >> 18u64) ^ state) >> 27u64) as u32, (state >> 59u64) as u32)
}

/// The state a seed starts the generator in: the seed, or 42 for 0.
pub open spec fn seeded(seed: u64) -> u64 {
    if seed == 0 {
        42
    } else {
        seed
    }
}

/// A deterministic generator of 32-bit numbers.
#[derive(Debug)]
pub struct SimpleRng {
    pub state: u64,
}

impl SimpleRng {
    /// A generator started from `seed`.
    pub fn new(seed: u64) -> (r: Self)
        ensures
            r.state == seeded(seed),
    {
        SimpleRng { state: if seed == 0 { 42 } else { seed } }
    }

    /// Draws the next number: the output of the current state, which then
    /// steps.
    pub fn next_u32(&mut self) -> (r: u32)
        ensures
            r == pcg_output(old(self).state),
            final(self).state == pcg_next(old(self).state),
    {
        let old_state = self.state;
        let stepped = old_state.wrapping_mul(PCG_MULTIPLIER).wrapping_add(PCG_INCREMENT);
        proof {
            lemma_wrapping_step(old_state, PCG_MULTIPLIER, PCG_INCREMENT, stepped);
        }
        self.state = stepped;
        let xorshifted = (((old_state >> 18u64) ^ old_state) >> 27u64) as u32;
        let rot = (old_state >> 59u64) as u32;
        assert(rot < 32) by (bit_vector)
            requires
                rot == (old_state >> 59u64) as u32,
        ;
        let back: u32 = (32 - rot) % 32;
        (xorshifted >> rot) | (xorshifted << back)
    }

    /// Picks one of `words` with the next draw: the draw modulo their
    /// number.
    pub fn pick<'a>(&mut self, words: &Vec<&'a str>) -> (r: &'a str)
        requires
            words.len() > 0,
        ensures
            r == words@[pcg_output(old(self).state) as int % words.len() as int],
            final(self).state == pcg_next(old(self).state),
    {
        let n = self.next_u32();
        let idx = (n as usize) % words.len();
        words[idx]
    }
}

/// One wrapping step `x × a + c` is the step modulo 2⁶⁴.
proof fn lemma_wrapping_step(x: u64, a: u64, c: u64, r: u64)
    requires
        r == x.wrapping_mul(a).wrapping_add(c),
    ensures
        r == ((x as nat * a as nat + c as nat) % 0x1_0000_0000_0000_0000) as u64,
{
    let m: int = 0x1_0000_0000_0000_0000;
    let p: int = x as int * a as int;
    let w = x.wrapping_mul(a);
    assert(w as int == p % m);
    assert(r as int == (w as int + c as int) % m) by {
        if w as int + c as int >= m {
            assert((w as int + c as int) % m == w as int + c as int - m) by {
                vstd::arithmetic::div_mod::lemma_fundamental_div_mod_converse(
                    w as int + c as int,
                    m,
                    1,
                    w as int + c as int - m,
                );
            }
        } else {
            vstd::arithmetic::div_mod::lemma_small_mod((w as int + c as int) as nat, m as nat);
        }
    }
    lemma_add_mod_noop_right(c as int, p, m);
    assert(c as int + p % m == p % m + c as int);
    assert(c as int + p == p + c as int);
}

/// A wrapping addition is the sum modulo 2⁶⁴.
proof fn lemma_wrapping_add(x: u64, c: u64, r: u64)
    requires
        r == x.wrapping_add(c),
    ensures
        r as int == (x as int + c as int) % 0x1_0000_0000_0000_0000,
{
    let m: int = 0x1_0000_0000_0000_0000;
    if x as int + c as int >= m {
        vstd::arithmetic::div_mod::lemma_fundamental_div_mod_converse(
            x as int + c as int,
            m,
            1,
            x as int + c as int - m,
        );
    } else {
        vstd::arithmetic::div_mod::lemma_small_mod((x as int + c as int) as nat, m as nat);
    }
}

/// The number a string seeds with (djb2 over its UTF-8 bytes): starting
/// from 5381, each byte turns `h` into `h × 33 + byte` modulo 2⁶⁴.
pub open spec fn djb2(bytes: Seq<u8>) -> u64
    decreases bytes.len(),
{
    if bytes.len() == 0 {
        5381
    } else {
        ((djb2(bytes.drop_last()) as nat * 33 + bytes.last() as nat) % 0x1_0000_0000_0000_0000)
            as u64
    }
}

/// The seed of a string.
pub fn seed_from_str(s: &str) -> (r: u64)
    ensures
        r == djb2(encode_utf8(s@)),
{
    let bytes = s.as_bytes();
    let mut hash: u64 = 5381;
    let mut i: usize = 0;
    assert(bytes@.take(0) =~= Seq::<u8>::empty());
    while i < bytes.len()
        invariant
            i <= bytes.len(),
            hash == djb2(bytes@.take(i as int)),
        decreases bytes.len() - i,
    {
        let b = bytes[i];
        let shifted = hash.wrapping_shl(5);
        assert(shifted == hash.wrapping_mul(32)) by (bit_vector)
            requires
                shifted == hash << 5u32,
        ;
        let summed = shifted.wrapping_add(hash);
        let next = summed.wrapping_add(b as u64);
        proof {
            assert(bytes@.take(i + 1).drop_last() =~= bytes@.take(i as int));
            assert(bytes@.take(i + 1).last() == b);
            lemma_wrapping_step(hash, 32, hash, summed);
            lemma_wrapping_add(summed, b as u64, next);
            lemma_add_mod_noop_right(b as int, (hash as nat * 32 + hash as nat) as int, 0x1_0000_0000_0000_0000int);
        }
        hash = next;
        i = i + 1;
    }
    assert(bytes@.take(bytes.len() as int) =~= bytes@);
    hash
}

/// The words sentences are made of.
#[verifier::opaque]
pub open spec fn lorem_words() -> Seq<Seq<char>> {
    seq![
        "lorem"@,
        "ipsum"@,
        "dolor"@,
        "sit"@,
        "amet"@,
        "consectetur"@,
        "adipiscing"@,
        "elit"@,
        "sed"@,
        "do"@,
        "eiusmod"@,
        "tempor"@,
        "incididunt"@,
        "ut"@,
        "labore"@,
        "et"@,
        "dolore"@,
        "magna"@,
        "aliqua"@,
        "ut"@,
        "enim"@,
        "ad"@,
        "minim"@,
        "veniam"@,
        "quis"@,
        "nostrud"@,
        "exercitation"@,
        "ullamco"@,
        "laboris"@,
        "nisi"@,
        "ut"@,
        "aliquip"@,
        "ex"@,
        "ea"@,
        "commodo"@,
        "consequat"@,
        "duis"@,
        "aute"@,
        "irure"@,
        "dolor"@,
        "in"@,
        "reprehenderit"@,
        "in"@,
        "voluptate"@,
        "velit"@,
        "esse"@,
        "cillum"@,
        "dolore"@,
        "eu"@,
        "fugiat"@,
        "nulla"@,
        "pariatur"@,
        "excepteur"@,
        "sint"@,
        "occaecat"@,
        "cupidatat"@,
        "non"@,
        "proident"@,
        "sunt"@,
        "in"@,
        "culpa"@,
        "qui"@,
        "officia"@,
        "deserunt"@,
        "mollit"@,
        "anim"@,
        "id"@,
        "est"@,
        "laborum"@,
    ]
}

/// The words sentences are made of, in order.
pub fn lorem_word_list() -> (r: Vec<&'static str>)
    ensures
        r@.map_values(|w: &str| w@) == lorem_words(),
{
    let r: Vec<&'static str> = vec![
        "lorem",
        "ipsum",
        "dolor",
        "sit",
        "amet",
        "consectetur",
        "adipiscing",
        "elit",
        "sed",
        "do",
        "eiusmod",
        "tempor",
        "incididunt",
        "ut",
        "labore",
        "et",
        "dolore",
        "magna",
        "aliqua",
        "ut",
        "enim",
        "ad",
        "minim",
        "veniam",
        "quis",
        "nostrud",
        "exercitation",
        "ullamco",
        "laboris",
        "nisi",
        "ut",
        "aliquip",
        "ex",
        "ea",
        "commodo",
        "consequat",
        "duis",
        "aute",
        "irure",
        "dolor",
        "in",
        "reprehenderit",
        "in",
        "voluptate",
        "velit",
        "esse",
        "cillum",
        "dolore",
        "eu",
        "fugiat",
        "nulla",
        "pariatur",
        "excepteur",
        "sint",
        "occaecat",
        "cupidatat",
        "non",
        "proident",
        "sunt",
        "in",
        "culpa",
        "qui",
        "officia",
        "deserunt",
        "mollit",
        "anim",
        "id",
        "est",
        "laborum",
    ];
    assert(r@.map_values(|w: &str| w@) =~= lorem_words()) by {
        reveal(lorem_words);
    }
    r
}

/// There are 69 words.
pub proof fn lemma_lorem_len()
    ensures
        lorem_words().len() == 69,
{
    reveal(lorem_words);
}

/// A word with its first character upper-cased.
fn capitalize(word: String) -> (r: String)
    ensures
        r@ == capitalized(word@),
{
    let cs = to_chars(word.as_str());
    if cs.len() > 0 {
        let mut w = char_to_uppercase(cs[0]);
        let rest = string_of_range(&cs, 1, cs.len());
        push_str(&mut w, rest.as_str());
        assert(cs@.subrange(1, cs.len() as int) =~= cs@.drop_first());
        w
    } else {
        word
    }
}

/// The word a number picks: the number modulo the word count.
pub open spec fn word_for(n: u32) -> Seq<char> {
    lorem_words()[n as int % 69]
}

/// The words `count` draws give, starting from `state`, and the state
/// after them.
pub open spec fn draws(state: u64, count: nat) -> (Seq<Seq<char>>, u64)
    decreases count,
{
    if count == 0 {
        (seq![], state)
    } else {
        let (ws, t) = draws(state, (count - 1) as nat);
        (ws.push(word_for(pcg_output(t))), pcg_next(t))
    }
}

/// The name of what `char::to_uppercase` gives a character, collected into
/// a string.
pub uninterp spec fn uppercase_char(c: char) -> Seq<char>;

/// `char::to_uppercase`, collected into a string.
#[verifier::external_body]
fn char_to_uppercase(c: char) -> (r: String)
    ensures
        r@ == uppercase_char(c),
{
    c.to_uppercase().collect::<String>()
}

/// A word with its first character upper-cased.
pub open spec fn capitalized(w: Seq<char>) -> Seq<char> {
    if w.len() == 0 {
        w
    } else {
        uppercase_char(w[0]) + w.drop_first()
    }
}

/// A list of words with its first one capitalized.
pub open spec fn capitalize_first(ws: Seq<Seq<char>>) -> Seq<Seq<char>> {
    if ws.len() == 0 {
        ws
    } else {
        ws.update(0, capitalized(ws[0]))
    }
}

/// The sentence the generator makes from `state`, and the state after it:
/// the first draw gives 5 to 14 words, each of the following draws picks
/// one; the words are joined by spaces, the first capitalized, and a full
/// stop ends it.
pub open spec fn sentence_from(state: u64) -> (Seq<char>, u64) {
    let count = 5 + pcg_output(state) as nat % 10;
    let (ws, t) = draws(pcg_next(state), count);
    (join(capitalize_first(ws), " "@) + "."@, t)
}

/// A sentence of lorem ipsum drawn from the generator.
pub fn generate_sentence(rng: &mut SimpleRng) -> (r: String)
    ensures
        (r@, final(rng).state) == sentence_from(old(rng).state),
{
    let words = lorem_word_list();
    let ghost lw = lorem_words();
    proof {
        lemma_lorem_len();
    }
    let ghost start = rng.state;
    let word_count: usize = 5 + (rng.next_u32() % 10) as usize;
    let ghost after_count = rng.state;
    let mut sentence: Vec<String> = Vec::new();
    let mut i: usize = 0;
    while i < word_count
        invariant
            i <= word_count,
            words@.map_values(|w: &str| w@) == lw,
            lw == lorem_words(),
            words.len() == lw.len(),
            lw.len() == 69,
            after_count == pcg_next(start),
            word_count == 5 + pcg_output(start) as nat % 10,
            views(sentence@) == capitalize_first(draws(after_count, i as nat).0),
            rng.state == draws(after_count, i as nat).1,
        decreases word_count - i,
    {
        let ghost before = rng.state;
        let picked = rng.pick(&words);
        assert(picked@ == lw[pcg_output(before) as int % 69]);
        let word = if i == 0 {
            capitalize(picked.to_owned())
        } else {
            picked.to_owned()
        };
        let ghost prev = views(sentence@);
        sentence.push(word);
        proof {
            assert(views(sentence@) =~= prev.push(word@));
        }
        i = i + 1;
    }
    let mut out = join_strings(&sentence, " ");
    push_str(&mut out, ".");
    out
}

/// A sentence has 5 to 14 words.
pub proof fn lemma_sentence_words(state: u64)
    ensures
        5 <= draws(pcg_next(state), 5 + pcg_output(state) as nat % 10).0.len() <= 14,
{
    lemma_draws_len(pcg_next(state), 5 + pcg_output(state) as nat % 10);
}

/// A paragraph has 3 to 6 sentences.
pub proof fn lemma_paragraph_sentences(state: u64)
    ensures
        3 <= sentences(pcg_next(state), 3 + pcg_output(state) as nat % 4).0.len() <= 6,
{
    lemma_sentences_len(pcg_next(state), 3 + pcg_output(state) as nat % 4);
}

proof fn lemma_sentences_len(state: u64, count: nat)
    ensures
        sentences(state, count).0.len() == count,
    decreases count,
{
    if count > 0 {
        lemma_sentences_len(state, (count - 1) as nat);
    }
}

proof fn lemma_draws_len(state: u64, count: nat)
    ensures
        draws(state, count).0.len() == count,
    decreases count,
{
    if count > 0 {
        lemma_draws_len(state, (count - 1) as nat);
    }
}

/// The sentences `count` calls make, starting from `state`, and the state
/// after them.
pub open spec fn sentences(state: u64, count: nat) -> (Seq<Seq<char>>, u64)
    decreases count,
{
    if count == 0 {
        (seq![], state)
    } else {
        let (ss, t) = sentences(state, (count - 1) as nat);
        (ss.push(sentence_from(t).0), sentence_from(t).1)
    }
}

/// The paragraph the generator makes from `state`, and the state after
/// it: the first draw gives 3 to 6 sentences, joined by spaces.
pub open spec fn paragraph_from(state: u64) -> (Seq<char>, u64) {
    let count = 3 + pcg_output(state) as nat % 4;
    let (ss, t) = sentences(pcg_next(state), count);
    (join(ss, " "@), t)
}

/// The paragraphs `count` calls make, starting from `state`, and the
/// state after them.
pub open spec fn paragraphs(state: u64, count: nat) -> (Seq<Seq<char>>, u64)
    decreases count,
{
    if count == 0 {
        (seq![], state)
    } else {
        let (ps, t) = paragraphs(state, (count - 1) as nat);
        (ps.push(paragraph_from(t).0), paragraph_from(t).1)
    }
}

/// One paragraph of lorem ipsum drawn from the generator.
fn generate_paragraph(rng: &mut SimpleRng) -> (r: String)
    ensures
        (r@, final(rng).state) == paragraph_from(old(rng).state),
{
    let ghost start = rng.state;
    let sentence_count: usize = 3 + (rng.next_u32() % 4) as usize;
    let ghost after_count = rng.state;
    let mut sentences_made: Vec<String> = Vec::new();
    let mut i: usize = 0;
    while i < sentence_count
        invariant
            i <= sentence_count,
            after_count == pcg_next(start),
            sentence_count == 3 + pcg_output(start) as nat % 4,
            views(sentences_made@) == sentences(after_count, i as nat).0,
            rng.state == sentences(after_count, i as nat).1,
        decreases sentence_count - i,
    {
        let s = generate_sentence(rng);
        let ghost prev = views(sentences_made@);
        sentences_made.push(s);
        assert(views(sentences_made@) =~= prev.push(s@));
        i = i + 1;
    }
    join_strings(&sentences_made, " ")
}

/// `count` paragraphs of lorem ipsum drawn from the generator, separated
/// by blank lines.
pub fn generate_paragraphs(rng: &mut SimpleRng, paragraph_count: usize) -> (r: String)
    ensures
        r@ == join(paragraphs(old(rng).state, paragraph_count as nat).0, "\n\n"@),
        final(rng).state == paragraphs(old(rng).state, paragraph_count as nat).1,
{
    let ghost start = rng.state;
    let mut made: Vec<String> = Vec::new();
    let mut i: usize = 0;
    while i < paragraph_count
        invariant
            i <= paragraph_count,
            views(made@) == paragraphs(start, i as nat).0,
            rng.state == paragraphs(start, i as nat).1,
        decreases paragraph_count - i,
    {
        let p = generate_paragraph(rng);
        let ghost prev = views(made@);
        made.push(p);
        assert(views(made@) =~= prev.push(p@));
        i = i + 1;
    }
    join_strings(&made, "\n\n")
}

/// The text of the last member named `key`, when that member is a string.
pub open spec fn member_text(ms: Seq<(Seq<char>, Option<Seq<char>>)>, key: Seq<char>) -> Option<
    Seq<char>,
>
    decreases ms.len(),
{
    if ms.len() == 0 {
        None
    } else if ms.last().0 == key {
        ms.last().1
    } else {
        member_text(ms.drop_last(), key)
    }
}

/// A setting of the plugin's configuration text: the string stored under
/// `key` in the JSON object, else `default`.
pub open spec fn config_text(config: Option<Seq<char>>, key: Seq<char>, default: Seq<char>) -> Seq<
    char,
> {
    match config {
        Some(c) => match json_object_entries(c) {
            Some(ms) => match member_text(ms, key) {
                Some(v) => v,
                None => default,
            },
            None => default,
        },
        None => default,
    }
}

/// A setting of the plugin's configuration, or its default.
pub fn config_value(config: &Option<String>, key: &str, default: &str) -> (r: String)
    ensures
        r@ == config_text(
            match config {
                Some(c) => Some(c@),
                None => None,
            },
            key@,
            default@,
        ),
{
    let text = match config {
        Some(c) => c,
        None => {
            return default.to_owned();
        },
    };
    let members = match parse_json_object(text.as_str()) {
        Some(m) => m,
        None => {
            return default.to_owned();
        },
    };
    let ghost ms = member_views(members@);
    let mut found: Option<String> = None;
    let mut i: usize = 0;
    while i < members.len()
        invariant
            i <= members.len(),
            ms == member_views(members@),
            match found {
                Some(v) => member_text(ms.take(i as int), key@) == Some(v@),
                None => member_text(ms.take(i as int), key@) is None,
            },
        decreases members.len() - i,
    {
        assert(ms.take(i + 1).drop_last() =~= ms.take(i as int));
        assert(ms.take(i + 1).last() == ms[i as int]);
        if str_eq(members[i].0.as_str(), key) {
            found = match &members[i].1 {
                Some(v) => Some(v.clone()),
                None => None,
            };
        }
        i = i + 1;
    }
    assert(ms.take(members.len() as int) =~= ms);
    match found {
        Some(v) => v,
        None => default.to_owned(),
    }
}

/// The settings the template plugin takes: a chapter count (5 by default)
/// and a cover image URL; it takes no cookies.
pub fn get_config_schema() -> (r: PluginSchema)
    ensures
        r.fields@.len() == 2,
        r.fields@[0].key@ == "chapter_count"@,
        r.fields@[0].label@ == "Chapter count"@,
        r.fields@[0].field_type@ == "number"@,
        r.fields@[0].default@ == "5"@,
        r.fields@[1].key@ == "cover_source"@,
        r.fields@[1].label@ == "Cover image URL"@,
        r.fields@[1].field_type@ == "string"@,
        r.fields@[1].default@ == "https://picsum.photos/400/600"@,
        !r.accepts_cookies,
{
    let mut fields: Vec<ConfigField> = Vec::new();
    fields.push(
        ConfigField {
            key: "chapter_count".to_owned(),
            label: "Chapter count".to_owned(),
            field_type: "number".to_owned(),
            default: "5".to_owned(),
        },
    );
    fields.push(
        ConfigField {
            key: "cover_source".to_owned(),
            label: "Cover image URL".to_owned(),
            field_type: "string".to_owned(),
            default: "https://picsum.photos/400/600".to_owned(),
        },
    );
    PluginSchema { fields, accepts_cookies: false }
}

/// The number of chapters a configured count gives: the count when it is
/// an unsigned integer that fits, else 5.
pub open spec fn chapter_count_of(text: Seq<char>) -> nat {
    match unsigned_text(text) {
        Some(v) => if v <= usize::MAX {
            v
        } else {
            5
        },
        None => 5,
    }
}

/// The title of the `n`-th chapter (from 1).
pub open spec fn chapter_title(n: Seq<char>) -> Seq<char> {
    "Chapter "@ + n + ": Mutable Horizons"@
}

/// The book the template plugin answers with: endless chapters, as many as
/// configured, each at the book's URL with `#chapter-<n>`.
pub fn scrape_book(input: ScrapeInput) -> (r: ScrapeOutput)
    ensures
        r.title@ == "Inifine Scroll (Template)"@,
        r.url == input.url,
        r.cover_url matches Some(c) && c@ == config_text(
            match input.config {
                Some(c) => Some(c@),
                None => None,
            },
            "cover_source"@,
            "https://picsum.photos/400/600"@,
        ),
        r.description matches Some(d) && d@
            == "An infinite scroll containing choas (this is the template plugin included with scylla-reader)."@,
        r.chapters@.len() == chapter_count_of(
            config_text(
                match input.config {
                    Some(c) => Some(c@),
                    None => None,
                },
                "chapter_count"@,
                "5"@,
            ),
        ),
        r.total_chapters == r.chapters@.len() as u32,
        forall|k: int|
            0 <= k < r.chapters@.len() ==> {
                &&& (#[trigger] r.chapters@[k]).title@ == chapter_title(decimal((k + 1) as nat))
                &&& r.chapters@[k].url@ == input.url@ + "#chapter-"@ + decimal((k + 1) as nat)
                &&& r.chapters@[k].order == (k + 1) as u32
            },
{
    let cover = config_value(&input.config, "cover_source", "https://picsum.photos/400/600");
    let count_text = config_value(&input.config, "chapter_count", "5");
    let count: usize = match parse_u64(count_text.as_str()) {
        Some(n) => if (n as u128) <= (usize::MAX as u128) {
            n as usize
        } else {
            5
        },
        None => 5,
    };
    let mut chapters: Vec<PluginChapter> = Vec::new();
    let mut i: usize = 0;
    while i < count
        invariant
            i <= count,
            chapters@.len() == i,
            forall|k: int|
                0 <= k < i ==> {
                    &&& (#[trigger] chapters@[k]).title@ == chapter_title(decimal((k + 1) as nat))
                    &&& chapters@[k].url@ == input.url@ + "#chapter-"@ + decimal((k + 1) as nat)
                    &&& chapters@[k].order == (k + 1) as u32
                },
        decreases count - i,
    {
        let n = i + 1;
        let mut title = "Chapter ".to_owned();
        push_decimal(&mut title, n as u64);
        push_str(&mut title, ": Mutable Horizons");
        let mut url = input.url.clone();
        push_str(&mut url, "#chapter-");
        push_decimal(&mut url, n as u64);
        let order: u32 = #[verifier::truncate] (n as u32);
        chapters.push(PluginChapter { title, url, order });
        i = i + 1;
    }
    let total: u32 = #[verifier::truncate] (chapters.len() as u32);
    ScrapeOutput {
        title: "Inifine Scroll (Template)".to_owned(),
        url: input.url,
        cover_url: Some(cover),
        description: Some(
            "An infinite scroll containing choas (this is the template plugin included with scylla-reader).".to_owned(),
        ),
        total_chapters: total,
        chapters,
    }
}

/// The last piece of `hay` split at `needle` from `from` on
/// (`str::split(..).last()`): what follows the last of the matches found
/// left to right.
pub open spec fn last_piece(hay: Seq<char>, needle: Seq<char>, from: int) -> Seq<char>
    decreases hay.len() - from,
{
    if from < 0 || needle.len() == 0 {
        hay.subrange(from, hay.len() as int)
    } else {
        proof {
            lemma_find_from(hay, needle, from);
        }
        match find_from(hay, needle, from) {
            Some(k) => last_piece(hay, needle, k + needle.len()),
            None => hay.subrange(from, hay.len() as int),
        }
    }
}

/// The chapter number a template URL carries: what follows its last
/// `#chapter-`, or all of it when it has none.
pub fn chapter_number(url: &str) -> (r: String)
    ensures
        r@ == last_piece(url@, "#chapter-"@, 0),
{
    let hay = to_chars(url);
    let needle = to_chars("#chapter-");
    proof {
        reveal_strlit("#chapter-");
    }
    let mut from: usize = 0;
    loop
        invariant
            from <= hay.len(),
            hay@ == url@,
            needle@ == "#chapter-"@,
            needle.len() == 9,
            last_piece(hay@, needle@, 0) == last_piece(hay@, needle@, from as int),
        decreases hay.len() - from,
    {
        proof {
            lemma_find_from(hay@, needle@, from as int);
        }
        match find_sub_from(&hay, &needle, from) {
            Some(k) => {
                assert(last_piece(hay@, needle@, from as int) == last_piece(
                    hay@,
                    needle@,
                    k + needle.len(),
                ));
                from = k + needle.len();
            },
            None => {
                assert(last_piece(hay@, needle@, from as int) == hay@.subrange(
                    from as int,
                    hay.len() as int,
                ));
                return string_of_range(&hay, from, hay.len());
            },
        }
    }
}

/// The chapter the template plugin answers with when read at
/// `live_timestamp` nanoseconds: titled by the URL's chapter number, and
/// 4 to 8 paragraphs of lorem ipsum drawn from a generator seeded with the
/// URL's seed plus the timestamp, after a line that gives the timestamp.
pub fn scrape_chapter(input: ScrapeInput, live_timestamp: u64) -> (r: ChapterOutput)
    ensures
        r.title@ == chapter_title(last_piece(input.url@, "#chapter-"@, 0)),
        ({
            let state = seeded(
                ((djb2(encode_utf8(input.url@)) as nat + live_timestamp as nat)
                    % 0x1_0000_0000_0000_0000) as u64,
            );
            let count = 4 + pcg_output(state) as nat % 5;
            r.content@ == "[Generated live at host runtime timestamp: "@ + decimal(
                live_timestamp as nat,
            ) + " ns]\n\n"@ + join(paragraphs(pcg_next(state), count).0, "\n\n"@)
        }),
{
    let base_seed = seed_from_str(input.url.as_str());
    let dynamic_seed = base_seed.wrapping_add(live_timestamp);
    proof {
        lemma_wrapping_add(base_seed, live_timestamp, dynamic_seed);
    }
    let mut rng = SimpleRng::new(dynamic_seed);
    let chapter_num = chapter_number(input.url.as_str());
    let mut title = "Chapter ".to_owned();
    push_str(&mut title, chapter_num.as_str());
    push_str(&mut title, ": Mutable Horizons");
    let paragraph_count: usize = 4 + (rng.next_u32() % 5) as usize;
    let mut content = "[Generated live at host runtime timestamp: ".to_owned();
    push_decimal(&mut content, live_timestamp);
    push_str(&mut content, " ns]\n\n");
    let body = generate_paragraphs(&mut rng, paragraph_count);
    push_str(&mut content, body.as_str());
    ChapterOutput { title, content }
}

} // verus!
