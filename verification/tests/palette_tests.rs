use scylla::palette::{filter_actions, handle_palette, Palette, PaletteAction, PaletteKey, PaletteOutcome};

fn action(label: &str, category: &str, keys: &str) -> PaletteAction {
    PaletteAction { label: label.into(), category: category.into(), keys: keys.into() }
}

fn actions() -> Vec<PaletteAction> {
    vec![
        action("Go to Library", "Navigation", "1"),
        action("Go to Reader", "Navigation", "2"),
        action("Go to Jobs", "Navigation", "8"),
        action("Go to Settings", "Navigation", "9"),
        action("Add Book", "Library", "i"),
        action("Delete Book", "Library", "d"),
        action("Cycle Status", "Library", "Space"),
        action("Install Plugin from GitHub", "Plugins", ""),
    ]
}

fn palette(query: &str, selected: usize) -> Palette {
    let acts = actions();
    Palette { query: query.to_string(), filtered: filter_actions(&acts, query), selected }
}

#[test]
fn test_handle_palette_enter_executes_handler_and_closes() {
    let acts = actions();
    let mut p = palette("Settings", 0);
    assert!(!p.filtered.is_empty(), "Expected at least 'Go to Settings' to match 'Settings'");
    assert_eq!(handle_palette(&mut p, PaletteKey::Enter, &acts), PaletteOutcome::Run(3));
    assert_eq!(acts[3].label, "Go to Settings");
}

#[test]
fn test_handle_palette_up_down_navigates() {
    let acts = actions();
    let mut p = palette("", 0);
    handle_palette(&mut p, PaletteKey::Down, &acts);
    assert_eq!(p.selected, 1);
    handle_palette(&mut p, PaletteKey::Up, &acts);
    assert_eq!(p.selected, 0);
}

#[test]
fn test_handle_palette_up_stays_at_top() {
    let acts = actions();
    let mut p = palette("", 0);
    handle_palette(&mut p, PaletteKey::Up, &acts);
    assert_eq!(p.selected, 0);
}

#[test]
fn test_handle_palette_down_stays_at_bottom() {
    let acts = actions();
    let mut p = palette("", 0);
    let action_count = p.filtered.len();
    p.selected = action_count.saturating_sub(1);
    handle_palette(&mut p, PaletteKey::Down, &acts);
    assert_eq!(p.selected, action_count.saturating_sub(1));
}

#[test]
fn test_handle_palette_type_filters() {
    let acts = actions();
    let mut p = palette("", 0);
    let initial_count = p.filtered.len();
    assert!(initial_count > 0);
    handle_palette(&mut p, PaletteKey::Char('S'), &acts);
    assert_eq!(p.query, "S");
    assert_eq!(p.selected, 0);
    assert!(p.filtered.iter().all(|&i| {
        let a = &acts[i];
        a.label.contains('S')
            || a.label.contains('s')
            || a.category.contains('S')
            || a.category.contains('s')
            || a.keys.contains('S')
            || a.keys.contains('s')
    }));
    assert!(p.filtered.len() < initial_count, "Filtered should have fewer items");
}

#[test]
fn test_handle_palette_backspace_removes_char() {
    let acts = actions();
    let mut p = palette("Se", 0);
    let count_after_two_chars = p.filtered.len();
    handle_palette(&mut p, PaletteKey::Backspace, &acts);
    assert_eq!(p.query, "S");
    assert_eq!(p.selected, 0);
    assert!(p.filtered.len() >= count_after_two_chars, "Backspace should broaden results");
}

#[test]
fn test_handle_palette_unrelated_key_does_nothing_returns_true() {
    let acts = actions();
    let mut p = palette("", 0);
    assert_eq!(handle_palette(&mut p, PaletteKey::Other, &acts), PaletteOutcome::Open);
    assert_eq!(p.query, "");
    assert_eq!(p.selected, 0);
    assert!(!p.filtered.is_empty());
}

#[test]
fn test_handle_palette_not_command_palette_returns_true() {
    let acts = actions();
    let mut p = Palette { query: "zzz".into(), filtered: filter_actions(&acts, "zzz"), selected: 0 };
    assert!(p.filtered.is_empty());
    assert_eq!(handle_palette(&mut p, PaletteKey::Enter, &acts), PaletteOutcome::Close);
}

#[test]
fn palette_opens_with_every_action() {
    let acts = actions();
    let p = Palette::open(&acts);
    assert_eq!(p.filtered, (0..acts.len()).collect::<Vec<_>>());
    assert_eq!(p.selected, 0);
}

#[test]
fn palette_filter_ignores_case_and_checks_category() {
    let acts = actions();
    assert_eq!(filter_actions(&acts, "plugin"), vec![7]);
    assert_eq!(filter_actions(&acts, "LIBRARY"), vec![0, 4, 5, 6]);
}
