use scylla::plugin_api::ScrapeInput;
use scylla::template::{
    chapter_number, config_value, generate_paragraphs, generate_sentence, get_config_schema,
    scrape_book, scrape_chapter, seed_from_str, SimpleRng,
};

fn input(url: &str, config: Option<&str>) -> ScrapeInput {
    ScrapeInput { url: url.to_string(), cookies: None, config: config.map(|c| c.to_string()) }
}

#[test]
fn seed_zero_starts_at_42() {
    assert_eq!(SimpleRng::new(0).state, 42);
    assert_eq!(SimpleRng::new(7).state, 7);
}

#[test]
fn generator_draws_pcg_outputs() {
    let mut rng = SimpleRng::new(42);
    assert_eq!(rng.next_u32(), 0);
    assert_eq!(rng.state, 10481999410520546993);
    assert_eq!(rng.next_u32(), 1971522493);
}

#[test]
fn djb2_seeds() {
    assert_eq!(seed_from_str(""), 5381);
    assert_eq!(seed_from_str("a"), 177670);
    assert_eq!(seed_from_str("template://x#chapter-7"), 6705419503105782207);
}

#[test]
fn sentences_are_capitalized_words_ending_in_a_stop() {
    let mut rng = SimpleRng::new(99);
    for _ in 0..20 {
        let s = generate_sentence(&mut rng);
        assert!(s.ends_with('.'));
        assert!(s.chars().next().unwrap().is_uppercase());
        let words = s.trim_end_matches('.').split(' ').count();
        assert!((5..=14).contains(&words));
    }
}

#[test]
fn same_seed_same_text() {
    let mut a = SimpleRng::new(12345);
    let mut b = SimpleRng::new(12345);
    assert_eq!(generate_paragraphs(&mut a, 3), generate_paragraphs(&mut b, 3));
    assert_eq!(a.state, b.state);
}

#[test]
fn paragraphs_are_separated_by_blank_lines() {
    let mut rng = SimpleRng::new(5);
    let text = generate_paragraphs(&mut rng, 4);
    assert_eq!(text.split("\n\n").count(), 4);
    let mut rng = SimpleRng::new(5);
    assert_eq!(generate_paragraphs(&mut rng, 0), "");
}

#[test]
fn template_schema() {
    let schema = get_config_schema();
    assert_eq!(schema.fields.len(), 2);
    assert_eq!(schema.fields[0].key, "chapter_count");
    assert_eq!(schema.fields[0].default, "5");
    assert_eq!(schema.fields[1].key, "cover_source");
    assert_eq!(schema.fields[1].default, "https://picsum.photos/400/600");
    assert!(!schema.accepts_cookies);
}

#[test]
fn config_values_fall_back_to_defaults() {
    let cfg = Some(r#"{"chapter_count":"3","n":4}"#.to_string());
    assert_eq!(config_value(&cfg, "chapter_count", "5"), "3");
    assert_eq!(config_value(&cfg, "n", "d"), "d");
    assert_eq!(config_value(&cfg, "missing", "d"), "d");
    assert_eq!(config_value(&None, "chapter_count", "5"), "5");
    assert_eq!(config_value(&Some("[1]".to_string()), "k", "d"), "d");
}

#[test]
fn template_book_lists_configured_chapters() {
    let out = scrape_book(input("template://a", Some(r#"{"chapter_count":"3","cover_source":"c.png"}"#)));
    assert_eq!(out.title, "Inifine Scroll (Template)");
    assert_eq!(out.url, "template://a");
    assert_eq!(out.cover_url, Some("c.png".to_string()));
    assert_eq!(out.total_chapters, 3);
    assert_eq!(out.chapters.len(), 3);
    assert_eq!(out.chapters[2].title, "Chapter 3: Mutable Horizons");
    assert_eq!(out.chapters[2].url, "template://a#chapter-3");
    assert_eq!(out.chapters[2].order, 3);
}

#[test]
fn template_book_defaults() {
    let out = scrape_book(input("template://a", None));
    assert_eq!(out.chapters.len(), 5);
    assert_eq!(out.cover_url, Some("https://picsum.photos/400/600".to_string()));
    let bad = scrape_book(input("template://a", Some(r#"{"chapter_count":"many"}"#)));
    assert_eq!(bad.chapters.len(), 5);
}

#[test]
fn template_chapter_is_titled_by_its_number() {
    assert_eq!(chapter_number("template://x#chapter-7"), "7");
    assert_eq!(chapter_number("a#chapter-1#chapter-2"), "2");
    assert_eq!(chapter_number("plain"), "plain");
    let ch = scrape_chapter(input("template://x#chapter-7", None), 123);
    assert_eq!(ch.title, "Chapter 7: Mutable Horizons");
    assert!(ch.content.starts_with("[Generated live at host runtime timestamp: 123 ns]\n\n"));
}

#[test]
fn template_chapter_depends_on_the_time_read() {
    let a = scrape_chapter(input("template://x#chapter-1", None), 1000);
    let b = scrape_chapter(input("template://x#chapter-1", None), 1000);
    let c = scrape_chapter(input("template://x#chapter-1", None), 2000);
    assert_eq!(a, b);
    assert_ne!(a.content, c.content);
}
