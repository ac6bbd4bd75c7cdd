use scylla::library::{
    filter_tags, known_tags, AiBook, AiChapter, AiRow, AiSearchResults, AiSession, BookFilter, Library, SearchOutcome,
    SearchStatus,
};
use scylla::models::{BookStatus, Chapter};

fn lib_with_n(n: usize) -> Library {
    let mut lib = Library::new();
    for i in 0..n {
        lib.add_book(format!("Book {}", i), format!("url-{}", i));
    }
    lib
}

#[test]
fn test_new_library_is_empty() {
    let lib = Library::new();
    assert!(lib.books.is_empty());
    assert_eq!(lib.selected_index, 0);
    assert_eq!(lib.filter, BookFilter::default());
    assert!(lib.ai.is_none());
}

#[test]
fn test_add_one_book() {
    let mut lib = Library::new();
    lib.add_book("Title".into(), "url".into());
    assert_eq!(lib.books.len(), 1);
    assert_eq!(lib.books[0].title, "Title");
    assert_eq!(lib.books[0].url, "url");
    assert!(lib.books[0].sessions.is_empty());
    assert_eq!(lib.books[0].status, BookStatus::Reading);
}

#[test]
fn test_add_five_books() {
    let mut lib = Library::new();
    for title in ["Book A", "Book B", "Book C", "Book D", "Book E"] {
        lib.add_book(title.to_string(), String::new());
    }
    assert_eq!(lib.books.len(), 5);
    assert_eq!(lib.books[0].title, "Book A");
    assert!(lib.books[4].sessions.is_empty());
}

#[test]
fn test_selected_book_returns_none_when_empty() {
    let lib = Library::new();
    assert!(lib.selected_book().is_none());
}

#[test]
fn test_selected_book_returns_some() {
    let lib = lib_with_n(3);
    assert_eq!(lib.selected_book().unwrap().title, "Book 0");
}

#[test]
fn test_selected_book_mut_returns_none_when_empty() {
    let mut lib = Library::new();
    assert!(lib.selected_book_mut().is_none());
}

#[test]
fn test_selected_book_mut_allows_mutation() {
    let mut lib = lib_with_n(3);
    lib.selected_book_mut().unwrap().title = "Changed".to_string();
    assert_eq!(lib.books[0].title, "Changed");
}

#[test]
fn test_select_next_increments() {
    let mut lib = lib_with_n(5);
    lib.select_next();
    assert_eq!(lib.selected_index, 1);
}

#[test]
fn test_select_next_clamps() {
    let mut lib = lib_with_n(3);
    lib.selected_index = 2;
    lib.select_next();
    assert_eq!(lib.selected_index, 2);
}

#[test]
fn test_select_prev_decrements() {
    let mut lib = lib_with_n(5);
    lib.selected_index = 3;
    lib.select_prev();
    assert_eq!(lib.selected_index, 2);
}

#[test]
fn test_select_prev_clamps() {
    let mut lib = lib_with_n(5);
    lib.select_prev();
    assert_eq!(lib.selected_index, 0);
}

#[test]
fn test_remove_books() {
    let mut lib = lib_with_n(5);
    lib.selected_index = 2;
    lib.remove_selected();
    assert_eq!(lib.books.len(), 4);
    assert_eq!(lib.books[2].title, "Book 3");
    lib.selected_index = 3;
    lib.remove_selected();
    assert_eq!(lib.books.len(), 3);
}

#[test]
fn test_remove_selected_from_empty_does_nothing() {
    let mut lib = Library::new();
    lib.selected_index = 0;
    lib.remove_selected();
    assert!(lib.books.is_empty());
}

#[test]
fn test_remove_last_book_adjusts_index() {
    let mut lib = lib_with_n(3);
    lib.selected_index = 2;
    lib.remove_selected();
    assert_eq!(lib.selected_index, 1);
}

#[test]
fn test_remove_first_book() {
    let mut lib = lib_with_n(3);
    lib.selected_index = 0;
    lib.remove_selected();
    assert_eq!(lib.books.len(), 2);
    assert_eq!(lib.books[0].title, "Book 1");
}

#[test]
fn test_visible_indices_all() {
    let lib = lib_with_n(3);
    assert_eq!(lib.visible_indices(), vec![0, 1, 2]);
}

#[test]
fn test_filter_by_status() {
    let mut lib = lib_with_n(3);
    lib.books[1].status = BookStatus::Dropped;
    lib.filter.status = Some(BookStatus::Reading);
    assert_eq!(lib.visible_indices().len(), 2);
    assert_eq!(lib.visible_indices(), vec![0, 2]);
}

#[test]
fn test_visible_indices_all_dropped() {
    let mut lib = lib_with_n(3);
    lib.books[0].status = BookStatus::Dropped;
    lib.books[1].status = BookStatus::Dropped;
    lib.books[2].status = BookStatus::Dropped;
    lib.filter.status = Some(BookStatus::Completed);
    assert!(lib.visible_indices().is_empty());
}

#[test]
fn test_filter_tags_matches() {
    let mut lib = lib_with_n(3);
    lib.books[0].tags.push("fantasy".into());
    lib.books[2].tags.push("fantasy".into());
    lib.filter.tags = vec!["fantasy".into()];
    assert_eq!(lib.visible_indices(), vec![0, 2]);
}

#[test]
fn test_filter_tags_no_match() {
    let mut lib = lib_with_n(3);
    lib.filter.tags = vec!["nonexistent".into()];
    assert!(lib.visible_indices().is_empty());
}

#[test]
fn test_cycle_status() {
    let mut lib = lib_with_n(1);
    lib.cycle_selected_status();
    assert_eq!(lib.books[0].status, BookStatus::Paused);
    lib.cycle_selected_status();
    assert_eq!(lib.books[0].status, BookStatus::Dropped);
}

#[test]
fn test_cycle_selected_status_no_book() {
    let mut lib = Library::new();
    lib.cycle_selected_status();
}

#[test]
fn test_cycle_selected_status_clamps_when_book_leaves_view() {
    let mut lib = lib_with_n(2);
    lib.books[0].status = BookStatus::Reading;
    lib.books[1].status = BookStatus::Reading;
    lib.filter.status = Some(BookStatus::Reading);
    lib.selected_index = 1;
    lib.cycle_selected_status();
    assert_eq!(lib.books[1].status, BookStatus::Paused);
    assert_eq!(lib.selected_index, 0);
}

#[test]
fn test_navigation_respects_filter_bounds() {
    let mut lib = Library::new();
    lib.add_book("Book A".into(), "url-a".into());
    lib.add_book("Book B".into(), "url-b".into());
    lib.books[1].status = BookStatus::Dropped;

    lib.filter.status = Some(BookStatus::Reading);

    lib.selected_index = 0;
    lib.select_next();
    assert_eq!(
        lib.selected_index, 0,
        "should not navigate past visible items"
    );
}

#[test]
fn test_search_by_name() {
    let mut lib = lib_with_n(3);
    lib.books[0].title = "The Glorious Dawn".into();
    lib.books[1].title = "Gloom".into();
    lib.books[2].title = "Other".into();
    let filter = BookFilter {
        name: "glo".into(),
        ..Default::default()
    };
    assert_eq!(lib.search(&filter), vec![0, 1]);
}

#[test]
fn test_search_name_case_insensitive_and_trimmed() {
    let mut lib = lib_with_n(2);
    lib.books[0].title = "GLORIOUS".into();
    let filter = BookFilter {
        name: "  glorious  ".into(),
        ..Default::default()
    };
    assert_eq!(lib.search(&filter), vec![0]);
}

#[test]
fn test_search_by_status() {
    let mut lib = lib_with_n(3);
    lib.books[1].status = BookStatus::Dropped;
    let filter = BookFilter {
        status: Some(BookStatus::Dropped),
        ..Default::default()
    };
    assert_eq!(lib.search(&filter), vec![1]);
}

#[test]
fn test_search_by_tag_any_match() {
    let mut lib = lib_with_n(3);
    lib.books[0].tags = vec!["fantasy".into()];
    lib.books[1].tags = vec!["litrpg".into()];
    lib.books[2].tags = vec!["scifi".into()];
    let filter = BookFilter {
        tags: vec!["fantasy".into(), "litrpg".into()],
        ..Default::default()
    };
    assert_eq!(lib.search(&filter), vec![0, 1]);
}

#[test]
fn test_search_combined_name_tag_status() {
    let mut lib = lib_with_n(4);
    lib.books[0].title = "Dragon Heart".into();
    lib.books[0].tags = vec!["fantasy".into()];
    lib.books[0].status = BookStatus::Reading;
    lib.books[1].title = "Dragon Heart 2".into();
    lib.books[1].tags = vec!["fantasy".into()];
    lib.books[1].status = BookStatus::Dropped;
    lib.books[2].title = "Dragon".into();
    lib.books[2].tags = vec!["scifi".into()];
    lib.books[2].status = BookStatus::Reading;
    lib.books[3].title = "Heart".into();
    lib.books[3].tags = vec!["fantasy".into()];
    lib.books[3].status = BookStatus::Reading;
    let filter = BookFilter {
        name: "dragon".into(),
        tags: vec!["fantasy".into()],
        status: Some(BookStatus::Reading),
        library: None,
    };
    assert_eq!(lib.search(&filter), vec![0]);
}

#[test]
fn test_search_empty_filter_returns_all() {
    let lib = lib_with_n(3);
    assert_eq!(lib.search(&BookFilter::default()), vec![0, 1, 2]);
}

#[test]
fn test_search_library_facet_does_not_filter() {
    let lib = lib_with_n(3);
    let filter = BookFilter {
        library: Some("remote1".into()),
        ..Default::default()
    };
    assert_eq!(lib.search(&filter), vec![0, 1, 2]);
}

#[test]
fn test_filter_is_empty() {
    assert!(BookFilter::default().is_empty());
    assert!(
        !BookFilter {
            name: "x".into(),
            ..Default::default()
        }
        .is_empty()
    );
    assert!(
        !BookFilter {
            tags: vec!["x".into()],
            ..Default::default()
        }
        .is_empty()
    );
    assert!(
        !BookFilter {
            status: Some(BookStatus::Reading),
            ..Default::default()
        }
        .is_empty()
    );
    assert!(
        !BookFilter {
            library: Some("r".into()),
            ..Default::default()
        }
        .is_empty()
    );
}

#[test]
fn test_filter_is_empty_trims_whitespace_name() {
    assert!(
        BookFilter {
            name: "   ".into(),
            ..Default::default()
        }
        .is_empty()
    );
}

#[test]
fn test_status_cursor_positions() {
    let f = |s: Option<BookStatus>| BookFilter {
        status: s,
        ..Default::default()
    };
    assert_eq!(f(None).status_cursor(), 0);
    assert_eq!(f(Some(BookStatus::Reading)).status_cursor(), 1);
    assert_eq!(f(Some(BookStatus::Paused)).status_cursor(), 2);
    assert_eq!(f(Some(BookStatus::Dropped)).status_cursor(), 3);
    assert_eq!(f(Some(BookStatus::Completed)).status_cursor(), 4);
}

#[test]
fn test_library_cursor_positions() {
    let names = vec!["a".to_string(), "b".to_string()];
    let f = |l: Option<String>| BookFilter {
        library: l,
        ..Default::default()
    };
    assert_eq!(f(None).library_cursor(&names), 0);
    assert_eq!(f(Some("a".into())).library_cursor(&names), 1);
    assert_eq!(f(Some("b".into())).library_cursor(&names), 2);
    assert_eq!(f(Some("missing".into())).library_cursor(&names), 0);
}

#[test]
fn test_filter_display_all() {
    assert_eq!(BookFilter::default().to_string(), "All");
}

#[test]
fn test_filter_display_name() {
    let filter = BookFilter {
        name: "glo".into(),
        ..Default::default()
    };
    assert_eq!(filter.to_string(), "\"glo\"");
}

#[test]
fn test_filter_display_tags() {
    let filter = BookFilter {
        tags: vec!["fantasy".into(), "litrpg".into()],
        ..Default::default()
    };
    assert_eq!(filter.to_string(), "#fantasy #litrpg");
}

#[test]
fn test_filter_display_status() {
    let filter = BookFilter {
        status: Some(BookStatus::Reading),
        ..Default::default()
    };
    assert_eq!(filter.to_string(), "Reading");
}

#[test]
fn test_filter_display_library() {
    let filter = BookFilter {
        library: Some("remote1".into()),
        ..Default::default()
    };
    assert_eq!(filter.to_string(), "@remote1");
}

#[test]
fn test_filter_display_combined() {
    let filter = BookFilter {
        name: "glo".into(),
        tags: vec!["fantasy".into()],
        status: Some(BookStatus::Reading),
        library: Some("remote1".into()),
    };
    assert_eq!(
        filter.to_string(),
        "\"glo\" · #fantasy · Reading · @remote1"
    );
}

#[test]
fn test_known_tags_union_dedupe_sort() {
    let mut lib = lib_with_n(2);
    lib.books[0].tags = vec!["litrpg".into(), "fantasy".into()];
    lib.books[1].tags = vec!["fantasy".into(), "scifi".into()];
    assert_eq!(known_tags(&lib.books), vec!["fantasy", "litrpg", "scifi"]);
}

#[test]
fn test_known_tags_empty() {
    assert!(known_tags(&[]).is_empty());
}

#[test]
fn test_filter_tags_empty_query_returns_all() {
    let tags = vec!["fantasy".into(), "litrpg".into()];
    assert_eq!(filter_tags(&tags, ""), tags);
    assert_eq!(filter_tags(&tags, "   "), tags);
}

#[test]
fn test_filter_tags_substring_case_insensitive() {
    let tags = vec!["Fantasy".into(), "Litrpg".into(), "Scifi".into()];
    assert_eq!(filter_tags(&tags, "fan"), vec!["Fantasy"]);
    assert_eq!(filter_tags(&tags, "FAN"), vec!["Fantasy"]);
    assert_eq!(filter_tags(&tags, "rp"), vec!["Litrpg"]);
    assert_eq!(filter_tags(&tags, "zzz"), Vec::<String>::new());
}

// ── AI session ──────────────────────────────────────────────────────────

/// A library with three books and a completed book-mode AI search that
/// ranks them in reverse order (Book 2, Book 1, Book 0).
fn ai_ranked_library() -> Library {
    let mut lib = lib_with_n(3);
    lib.apply_ai_results(
        "dragon heart".into(),
        SearchOutcome::BookMode {
            embedded: 3,
            total: 3,
            hits: vec![
                AiBook {
                    book_url: "url-2".into(),
                    book_title: "Book 2".into(),
                    score: 90,
                    genres: vec![],
                    chapters: vec![AiChapter {
                        chapter_url: "url-2/ch0".into(),
                        chapter_idx: 0,
                        chapter_title: "Ch0".into(),
                        score: 90,
                        snippet: String::new(),
                    }],
                },
                AiBook {
                    book_url: "url-1".into(),
                    book_title: "Book 1".into(),
                    score: 70,
                    genres: vec![],
                    chapters: vec![],
                },
                AiBook {
                    book_url: "url-0".into(),
                    book_title: "Book 0".into(),
                    score: 50,
                    genres: vec![],
                    chapters: vec![],
                },
            ],
        },
    );
    lib
}

#[test]
fn test_new_library_has_no_ai() {
    let lib = Library::new();
    assert!(lib.ai.is_none());
}

#[test]
fn test_set_ai_searching_activates_loading_session() {
    let mut lib = lib_with_n(3);
    lib.set_ai_searching("dragon".into());
    let ai = lib.ai.as_ref().unwrap();
    assert_eq!(ai.query, "dragon");
    assert_eq!(ai.status, SearchStatus::Loading);
    assert!(ai.book_mode);
    assert!(ai.results.books.is_empty());
    assert_eq!(ai.cursor, 0);
}

#[test]
fn test_apply_book_mode_ranks_books_and_derives_order() {
    let lib = ai_ranked_library();
    let ai = lib.ai.as_ref().unwrap();
    assert_eq!(ai.status, SearchStatus::Ready);
    assert_eq!(ai.results.books.len(), 3);
    // Derived order follows the AI rank (Book 2, then 1, then 0).
    assert_eq!(lib.visible_indices(), vec![2, 1, 0]);
    assert_eq!(lib.ai_search_order(), Some(vec![2, 1, 0]));
}

#[test]
fn test_book_mode_ai_overrides_filter() {
    let mut lib = ai_ranked_library();
    lib.filter.status = Some(BookStatus::Dropped);
    // AI-derived order wins over the predicate filter.
    assert_eq!(lib.visible_indices(), vec![2, 1, 0]);
}

#[test]
fn test_book_mode_skips_books_not_in_library() {
    let mut lib = lib_with_n(1);
    lib.apply_ai_results(
        "q".into(),
        SearchOutcome::BookMode {
            embedded: 2,
            total: 2,
            hits: vec![
                AiBook {
                    book_url: "url-0".into(),
                    book_title: "Book 0".into(),
                    score: 90,
                    genres: vec![],
                    chapters: vec![],
                },
                AiBook {
                    book_url: "not-in-library".into(),
                    book_title: "Ghost".into(),
                    score: 70,
                    genres: vec![],
                    chapters: vec![],
                },
            ],
        },
    );
    // The ghost book is not in `self.books`, so the order only contains url-0.
    assert_eq!(lib.visible_indices(), vec![0]);
}

#[test]
fn test_apply_chapter_mode_groups_hits_by_book() {
    let mut lib = lib_with_n(2);
    // Give Book 0 two chapters so chapter-mode hits map back to a book.
    lib.books[0].chapters = vec![
        Chapter {
            title: "c0".into(),
            url: "url-0/ch0".into(),
            order: 0,
        },
        Chapter {
            title: "c1".into(),
            url: "url-0/ch1".into(),
            order: 1,
        },
    ];
    lib.apply_ai_results(
        "q".into(),
        SearchOutcome::ChapterMode {
            embedded: 2,
            total: 2,
            hits: vec![
                AiChapter {
                    chapter_url: "url-0/ch1".into(),
                    chapter_idx: 1,
                    chapter_title: "c1".into(),
                    score: 80,
                    snippet: String::new(),
                },
                AiChapter {
                    chapter_url: "url-0/ch0".into(),
                    chapter_idx: 0,
                    chapter_title: "c0".into(),
                    score: 90,
                    snippet: String::new(),
                },
            ],
        },
    );
    let ai = lib.ai.as_ref().unwrap();
    assert_eq!(ai.results.books.len(), 1);
    assert_eq!(ai.results.books[0].book_title, "Book 0");
    // Book score = best chapter; chapters sorted by score desc.
    assert_eq!(ai.results.books[0].score, 90);
    assert_eq!(ai.results.books[0].chapters[0].chapter_idx, 0);
    assert_eq!(ai.results.books[0].chapters[1].chapter_idx, 1);
    assert_eq!(lib.visible_indices(), vec![0]);
}

#[test]
fn test_apply_no_embeddings_sets_hint_status() {
    let mut lib = lib_with_n(2);
    lib.apply_ai_results("q".into(), SearchOutcome::NoEmbeddings { total: 12 });
    let ai = lib.ai.as_ref().unwrap();
    assert_eq!(ai.status, SearchStatus::NoEmbeddings { total: 12 });
    assert!(ai.results.books.is_empty());
}

#[test]
fn test_apply_empty_books_sets_empty_status() {
    let mut lib = lib_with_n(2);
    lib.apply_ai_results(
        "q".into(),
        SearchOutcome::BookMode {
            embedded: 3,
            total: 3,
            hits: vec![],
        },
    );
    assert_eq!(lib.ai.as_ref().unwrap().status, SearchStatus::Empty);
}

#[test]
fn test_clear_ai_restores_normal_ranking() {
    let mut lib = ai_ranked_library();
    assert_eq!(lib.visible_indices(), vec![2, 1, 0]);
    lib.clear_ai();
    assert!(lib.ai.is_none());
    assert_eq!(lib.visible_indices(), vec![0, 1, 2]);
}

#[test]
fn test_toggle_ai_mode_switches_book_and_grouped() {
    let mut lib = ai_ranked_library();
    assert!(lib.ai.as_ref().unwrap().book_mode);
    lib.toggle_ai_mode();
    assert!(!lib.ai.as_ref().unwrap().book_mode);
    lib.toggle_ai_mode();
    assert!(lib.ai.as_ref().unwrap().book_mode);
}

#[test]
fn test_ai_rows_book_mode_is_flat_books() {
    let lib = ai_ranked_library();
    let ai = lib.ai.as_ref().unwrap();
    assert_eq!(
        ai.rows(),
        vec![
            AiRow::Book { book_index: 0 },
            AiRow::Book { book_index: 1 },
            AiRow::Book { book_index: 2 },
        ]
    );
}

#[test]
fn test_ai_rows_grouped_includes_headers_and_chapters() {
    let mut lib = ai_ranked_library();
    lib.toggle_ai_mode(); // grouped-chapter
    let ai = lib.ai.as_ref().unwrap();
    // Book 2 has one chapter; Books 1 and 0 have none.
    assert_eq!(
        ai.rows(),
        vec![
            AiRow::Book { book_index: 0 },
            AiRow::Chapter {
                book_index: 0,
                chapter_index: 0
            },
            AiRow::Book { book_index: 1 },
            AiRow::Book { book_index: 2 },
        ]
    );
}

#[test]
fn test_ai_nav_moves_and_clamps() {
    let mut lib = ai_ranked_library();
    lib.ai_nav(1);
    assert_eq!(lib.ai.as_ref().unwrap().cursor, 1);
    lib.ai_nav(1);
    assert_eq!(lib.ai.as_ref().unwrap().cursor, 2);
    lib.ai_nav(1); // clamp at last
    assert_eq!(lib.ai.as_ref().unwrap().cursor, 2);
    lib.ai_nav(-1);
    assert_eq!(lib.ai.as_ref().unwrap().cursor, 1);
}

#[test]
fn test_selected_book_follows_ai_cursor() {
    let mut lib = ai_ranked_library();
    assert_eq!(lib.selected_book().unwrap().title, "Book 2");
    lib.ai_nav(1);
    assert_eq!(lib.selected_book().unwrap().title, "Book 1");
}

#[test]
fn test_remove_selected_preserves_ai_session() {
    let mut lib = ai_ranked_library();
    // Cursor on Book 2 (index 0) → removes that book, AI stays active.
    lib.remove_selected();
    assert!(lib.ai.is_some());
    assert_eq!(lib.books.len(), 2);
    // Derived order now skips the removed book.
    assert_eq!(lib.visible_indices(), vec![1, 0]);
}

#[test]
fn test_remove_selected_removes_book_from_ai_session() {
    let mut lib = ai_ranked_library();
    lib.remove_selected();
    // The removed book is gone from the session too — no dangling row.
    let ai = lib.ai.as_ref().unwrap();
    assert!(!ai.results.books.iter().any(|b| b.book_url == "url-2"));
    assert_eq!(ai.results.books.len(), 2);
    // The cursor is clamped and the selection resolves to a real book.
    assert!(ai.cursor < ai.rows().len());
    assert!(lib.selected_book().is_some());
}

#[test]
fn test_apply_ai_results_preserves_session_mode() {
    let mut lib = lib_with_n(2);
    lib.set_ai_searching("q".into());
    lib.toggle_ai_mode(); // grouped-chapter mode
    assert!(!lib.ai.as_ref().unwrap().book_mode);
    // A chapter-mode outcome must not reset the user's mode toggle.
    lib.apply_ai_results(
        "q".into(),
        SearchOutcome::ChapterMode {
            hits: vec![],
            embedded: 0,
            total: 0,
        },
    );
    assert!(!lib.ai.as_ref().unwrap().book_mode);
}

/// A library whose AI book-mode results carry genres across two books.
fn genre_ranked_library() -> Library {
    let mut lib = lib_with_n(3);
    lib.apply_ai_results(
        "dragon".into(),
        SearchOutcome::BookMode {
            embedded: 3,
            total: 3,
            hits: vec![
                AiBook {
                    book_url: "url-2".into(),
                    book_title: "Book 2".into(),
                    score: 90,
                    genres: vec!["Fantasy".into(), "LitRPG".into()],
                    chapters: vec![],
                },
                AiBook {
                    book_url: "url-1".into(),
                    book_title: "Book 1".into(),
                    score: 70,
                    genres: vec!["Fantasy".into()],
                    chapters: vec![],
                },
                AiBook {
                    book_url: "url-0".into(),
                    book_title: "Book 0".into(),
                    score: 50,
                    genres: vec!["Sci-Fi".into()],
                    chapters: vec![],
                },
            ],
        },
    );
    lib
}

#[test]
fn test_new_ai_session_starts_with_no_genre() {
    let lib = genre_ranked_library();
    assert!(lib.ai.as_ref().unwrap().genre.is_none());
}

#[test]
fn test_cycle_ai_genre_advances_and_wraps_to_none() {
    let mut lib = genre_ranked_library();
    // None → Fantasy (sorted: Fantasy, LitRPG, Sci-Fi).
    lib.cycle_ai_genre(1);
    assert_eq!(lib.ai.as_ref().unwrap().genre.as_deref(), Some("Fantasy"));
    lib.cycle_ai_genre(1);
    assert_eq!(lib.ai.as_ref().unwrap().genre.as_deref(), Some("LitRPG"));
    lib.cycle_ai_genre(1);
    assert_eq!(lib.ai.as_ref().unwrap().genre.as_deref(), Some("Sci-Fi"));
    // Wraps back to none.
    lib.cycle_ai_genre(1);
    assert!(lib.ai.as_ref().unwrap().genre.is_none());
}

#[test]
fn test_cycle_ai_genre_retreats_and_wraps() {
    let mut lib = genre_ranked_library();
    // None → Sci-Fi (retreat wraps to the last genre).
    lib.cycle_ai_genre(-1);
    assert_eq!(lib.ai.as_ref().unwrap().genre.as_deref(), Some("Sci-Fi"));
    lib.cycle_ai_genre(-1);
    assert_eq!(lib.ai.as_ref().unwrap().genre.as_deref(), Some("LitRPG"));
}

#[test]
fn test_cycle_ai_genre_filters_derived_order() {
    let mut lib = genre_ranked_library();
    lib.cycle_ai_genre(1); // Fantasy → books 2 and 1 (url-2, url-1).
    assert_eq!(lib.visible_indices(), vec![2, 1]);
    lib.cycle_ai_genre(1); // LitRPG → only book 2.
    assert_eq!(lib.visible_indices(), vec![2]);
    lib.cycle_ai_genre(1); // Sci-Fi → only book 0.
    assert_eq!(lib.visible_indices(), vec![0]);
}

#[test]
fn test_cycle_ai_genre_no_genres_is_noop() {
    let mut lib = ai_ranked_library(); // all books carry empty genres
    lib.cycle_ai_genre(1);
    assert!(lib.ai.as_ref().unwrap().genre.is_none());
    assert_eq!(lib.visible_indices(), vec![2, 1, 0]);
}

#[test]
fn test_cycle_ai_genre_resets_cursor() {
    let mut lib = genre_ranked_library();
    lib.ai_nav(1);
    lib.ai_nav(1); // cursor moves off the first row
    assert_eq!(lib.ai.as_ref().unwrap().cursor, 2);
    lib.cycle_ai_genre(1);
    assert_eq!(lib.ai.as_ref().unwrap().cursor, 0);
}

#[test]
fn test_new_search_resets_genre() {
    let mut lib = genre_ranked_library();
    lib.cycle_ai_genre(1); // Fantasy active
    assert_eq!(lib.ai.as_ref().unwrap().genre.as_deref(), Some("Fantasy"));
    // A fresh search (refine) resets the facet.
    lib.set_ai_searching("dragon heart".into());
    assert!(lib.ai.as_ref().unwrap().genre.is_none());
    assert_eq!(lib.ai.as_ref().unwrap().visible_book_count(), 0);
}

#[test]
fn test_clear_ai_clears_genre() {
    let mut lib = genre_ranked_library();
    lib.cycle_ai_genre(1);
    lib.clear_ai();
    assert!(lib.ai.is_none());
    assert_eq!(lib.visible_indices(), vec![0, 1, 2]);
}

#[test]
fn test_genre_filtered_rows_and_book_count() {
    let lib = genre_ranked_library();
    let ai = lib.ai.as_ref().unwrap();
    assert_eq!(ai.visible_book_count(), 3);
    assert_eq!(
        ai.rows(),
        vec![
            AiRow::Book { book_index: 0 },
            AiRow::Book { book_index: 1 },
            AiRow::Book { book_index: 2 },
        ]
    );
}

#[test]
fn merge_scraped_book_updates_known_books_and_keeps_reader_data() {
    let mut lib = lib_with_n(2);
    lib.books[1].status = BookStatus::Dropped;
    lib.books[1].tags = vec!["mine".into()];
    let scraped = scylla::models::Book {
        title: "New Title".into(),
        url: "url-1".into(),
        status: BookStatus::Reading,
        sessions: vec![],
        active_session_id: None,
        tags: vec![],
        cover_url: Some("c.jpg".into()),
        description: Some("d".into()),
        chapters: vec![Chapter { title: "c0".into(), url: "url-1/ch0".into(), order: 0 }],
    };
    assert_eq!(lib.merge_scraped_book(scraped), 1);
    assert_eq!(lib.books.len(), 2);
    assert_eq!(lib.books[1].title, "New Title");
    assert_eq!(lib.books[1].status, BookStatus::Dropped);
    assert_eq!(lib.books[1].tags, vec!["mine".to_string()]);
    assert_eq!(lib.books[1].chapters.len(), 1);
    assert_eq!(lib.books[1].cover_url.as_deref(), Some("c.jpg"));
    let fresh = scylla::models::Book {
        title: "Other".into(),
        url: "url-9".into(),
        status: BookStatus::Reading,
        sessions: vec![],
        active_session_id: None,
        tags: vec![],
        cover_url: None,
        description: None,
        chapters: vec![],
    };
    assert_eq!(lib.merge_scraped_book(fresh), 2);
    assert_eq!(lib.books[2].title, "Other");
}

#[test]
fn search_and_selection_laws_on_examples() {
    let mut lib = lib_with_n(4);
    lib.books[2].status = BookStatus::Paused;
    let f = BookFilter { status: Some(BookStatus::Paused), ..Default::default() };
    assert_eq!(lib.search(&f), vec![2]);
    lib.selected_index = 3;
    lib.select_next();
    assert_eq!(lib.selected_index, 3);
    let mut empty = Library::new();
    empty.select_next();
    assert_eq!(empty.selected_index, 0);
}

#[test]
fn cover_to_fetch_once() {
    let mut lib = scylla::library::Library::new();
    lib.add_book("T".into(), "u".into());
    assert_eq!(lib.cover_to_fetch(&vec![]), None);
    lib.books[0].cover_url = Some("c.png".into());
    assert_eq!(lib.cover_to_fetch(&vec![]), Some("c.png".to_string()));
    assert_eq!(lib.cover_to_fetch(&vec!["c.png".to_string()]), None);
}

#[test]
fn cycle_genre_walks_sorted_genres_and_round_trips() {
    let book = |url: &str, genres: &[&str]| AiBook {
        book_url: url.into(),
        book_title: url.into(),
        score: 1,
        genres: genres.iter().map(|g| g.to_string()).collect(),
        chapters: vec![],
    };
    let mut s = AiSession {
        query: "q".into(),
        status: SearchStatus::Ready,
        results: AiSearchResults {
            embedded: 0,
            total: 0,
            books: vec![book("a", &["Sci-Fi", "Fantasy"]), book("b", &["LitRPG", "Fantasy"])],
        },
        book_mode: true,
        cursor: 3,
        genre: None,
    };
    let mut seen = Vec::new();
    for _ in 0..4 {
        s.cycle_genre(1);
        assert_eq!(s.cursor, 0);
        seen.push(s.genre.clone());
    }
    assert_eq!(
        seen,
        vec![Some("Fantasy".to_string()), Some("LitRPG".to_string()), Some("Sci-Fi".to_string()), None]
    );
    s.cycle_genre(-1);
    assert_eq!(s.genre, Some("Sci-Fi".to_string()));
    s.cycle_genre(1);
    s.cycle_genre(-1);
    assert_eq!(s.genre, Some("Sci-Fi".to_string()));
    for _ in 0..4 {
        s.cycle_genre(1);
    }
    assert_eq!(s.genre, Some("Sci-Fi".to_string()));
}
