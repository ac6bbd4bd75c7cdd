use scylla::chapters::{
    filter_chapters, is_embedded, next_selectable, resolve_embedded_urls, selected_chapters,
    selected_embeddable_chapters, EmbeddingStatus, StatusCache,
};
use scylla::models::Chapter;

fn chapter(order: u32, title: &str) -> Chapter {
    Chapter {
        title: title.into(),
        url: format!("u{}", order),
        order,
    }
}

#[test]
fn test_selected_chapters_pure_fn() {
    let chapters = vec![chapter(0, "A"), chapter(1, "B"), chapter(2, "C")];
    let selected = vec![true, false, true];
    let picked = selected_chapters(&chapters, &selected);
    assert_eq!(picked.len(), 2);
    assert_eq!(picked[0].title, "A");
    assert_eq!(picked[1].title, "C");
    assert!(selected_chapters(&chapters, &vec![false, false, false]).is_empty());
}

#[test]
fn test_next_selectable_pure_fn() {
    let chapters = vec![chapter(0, "A"), chapter(1, "B"), chapter(2, "C")];
    let embedded = vec!["u1".to_string()];
    // Down from 0 skips the embedded row 1 → lands on 2.
    assert_eq!(next_selectable(0, &chapters, &embedded, 1), 2);
    // Up from 2 skips the embedded row 1 → lands on 0.
    assert_eq!(next_selectable(2, &chapters, &embedded, -1), 0);
    // Clamps at the ends.
    assert_eq!(next_selectable(2, &chapters, &embedded, 1), 2);
    assert_eq!(next_selectable(0, &chapters, &embedded, -1), 0);
    // No embedded rows: normal movement.
    assert_eq!(next_selectable(0, &chapters, &[], 1), 1);
    assert_eq!(next_selectable(1, &chapters, &[], -1), 0);
}

#[test]
fn next_selectable_stays_when_only_embedded_rows_lie_ahead() {
    let chapters = vec![chapter(0, "A"), chapter(1, "B")];
    let embedded = vec!["u1".to_string()];
    assert_eq!(next_selectable(0, &chapters, &embedded, 1), 0);
    let embedded = vec!["u0".to_string()];
    assert_eq!(next_selectable(1, &chapters, &embedded, -1), 1);
}

#[test]
fn test_selected_embeddable_chapters_pure_fn() {
    let chapters = vec![chapter(0, "A"), chapter(1, "B"), chapter(2, "C")];
    let selected = vec![true, true, true];
    let embedded = vec!["u1".to_string()];
    let to_embed = selected_embeddable_chapters(&chapters, &selected, &embedded);
    assert_eq!(to_embed.len(), 2);
    assert_eq!(to_embed[0].title, "A");
    assert_eq!(to_embed[1].title, "C");
}

#[test]
fn next_selectable_keeps_cursor_when_rows_below_are_embedded() {
    let chapters = vec![chapter(0, "A"), chapter(1, "B"), chapter(2, "C")];
    let embedded = vec!["u2".to_string(), "u1".to_string()];
    // Down from 0: rows 1 and 2 are embedded, so the cursor stays on row 0.
    assert_eq!(next_selectable(0, &chapters, &embedded, 1), 0);
    // Up from 2 (itself embedded) reaches row 0.
    assert_eq!(next_selectable(2, &chapters, &embedded, -1), 0);
    assert_eq!(next_selectable(0, &[], &embedded, 1), 0);
    assert!(is_embedded(&chapters[1], &embedded));
    assert!(!is_embedded(&chapters[0], &embedded));
}

#[test]
fn selection_stops_at_the_shorter_list() {
    let chapters = vec![chapter(0, "A"), chapter(1, "B")];
    let picked = selected_chapters(&chapters, &[true, true, true]);
    assert_eq!(picked.len(), 2);
    let picked = selected_chapters(&chapters, &[false]);
    assert!(picked.is_empty());
}

#[test]
fn filter_chapters_by_title_or_url() {
    let chapters = vec![chapter(0, "Dawn"), chapter(1, "Dusk"), chapter(12, "Night")];
    assert_eq!(filter_chapters(&chapters, "  ").len(), 3);
    let found = filter_chapters(&chapters, "DU");
    assert_eq!(found.len(), 1);
    assert_eq!(found[0].title, "Dusk");
    let found = filter_chapters(&chapters, "u1");
    assert_eq!(found.len(), 2);
    assert_eq!(found[1].title, "Night");
}

fn status(urls: &[&str]) -> EmbeddingStatus {
    EmbeddingStatus {
        embedded_chapters: urls.len(),
        total_chapters: 3,
        aggregate: true,
        genres: vec![],
        embedded_chapter_urls: urls.iter().map(|u| u.to_string()).collect(),
    }
}

#[test]
fn test_resolve_embedded_urls_fresh_updates_cache() {
    let mut cache = StatusCache::new();
    let fresh = status(&["u0", "u1", "u2"]);
    let urls = resolve_embedded_urls(&mut cache, "url", Ok(fresh.clone()));
    assert_eq!(urls, vec!["u0", "u1", "u2"]);
    // The cache is updated with the fresh status.
    assert_eq!(cache.get("url"), Some(&fresh));
}

#[test]
fn test_resolve_embedded_urls_error_falls_back_to_cache() {
    let mut cache = StatusCache::new();
    cache.insert("url".into(), status(&["u0"]));
    let urls = resolve_embedded_urls(&mut cache, "url", Err("boom".into()));
    assert_eq!(urls, vec!["u0"]);
}

#[test]
fn test_resolve_embedded_urls_error_without_cache_is_empty() {
    let mut cache = StatusCache::new();
    let urls = resolve_embedded_urls(&mut cache, "url", Err("boom".into()));
    assert!(urls.is_empty());
}

#[test]
fn latest_cached_status_wins() {
    let mut cache = StatusCache::new();
    cache.insert("url".into(), status(&["u0"]));
    let _ = resolve_embedded_urls(&mut cache, "url", Ok(status(&["u0", "u1"])));
    let urls = resolve_embedded_urls(&mut cache, "url", Err("down".into()));
    assert_eq!(urls, vec!["u0", "u1"]);
    assert!(cache.get("other").is_none());
}
