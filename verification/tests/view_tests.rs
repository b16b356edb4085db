use panda_note::view::{
    clamp_selection, filtered_tag_suggestions, fuzzy_contains, nav_collapsed_from_meta,
    nav_collapsed_meta, palette_entry_matches, parse_go_to_line_query, priority_badge,
    priority_label, MemoDisplayMode,
};

#[test]
fn display_modes_cycle_and_show_panes() {
    let m = MemoDisplayMode::default();
    assert_eq!(m, MemoDisplayMode::Source);
    assert!(m.shows_editor() && !m.shows_preview());
    let live = m.cycle();
    assert_eq!(live, MemoDisplayMode::Live);
    assert!(live.shows_editor() && live.shows_preview());
    let read = live.cycle();
    assert!(!read.shows_editor() && read.shows_preview());
    assert_eq!(read.cycle(), MemoDisplayMode::Source);
}

#[test]
fn priority_labels() {
    assert_eq!(priority_label(0), "No priority");
    assert_eq!(priority_label(1), "Low");
    assert_eq!(priority_label(2), "Medium");
    assert_eq!(priority_label(3), "High");
    assert_eq!(priority_label(7), "No priority");
    assert_eq!(priority_badge(2), Some("Medium"));
    assert_eq!(priority_badge(0), None);
}

#[test]
fn go_to_line_queries() {
    assert_eq!(parse_go_to_line_query("42"), Some(42));
    assert_eq!(parse_go_to_line_query(" :12:3"), Some(12));
    assert_eq!(parse_go_to_line_query("::7,2"), Some(7));
    assert_eq!(parse_go_to_line_query("9 x"), Some(9));
    assert_eq!(parse_go_to_line_query("0"), None);
    assert_eq!(parse_go_to_line_query("+5"), None);
    assert_eq!(parse_go_to_line_query("abc"), None);
    assert_eq!(parse_go_to_line_query("   "), None);
    assert_eq!(parse_go_to_line_query(":"), None);
    assert_eq!(parse_go_to_line_query("99999999999"), None);
}

#[test]
fn nav_pane_state_is_stored_as_flag() {
    assert!(nav_collapsed_from_meta(Some("1")));
    assert!(nav_collapsed_from_meta(Some("TRUE")));
    assert!(!nav_collapsed_from_meta(Some("0")));
    assert!(!nav_collapsed_from_meta(None));
    assert_eq!(nav_collapsed_meta(true), "1");
    assert_eq!(nav_collapsed_meta(false), "0");
}

#[test]
fn fuzzy_matching() {
    assert!(fuzzy_contains("groceries", "cer"));
    assert!(fuzzy_contains("groceries", "gcs"));
    assert!(!fuzzy_contains("groceries", "sg"));
    assert!(fuzzy_contains("anything", ""));
}

#[test]
fn tag_suggestions() {
    let available: Vec<String> = ["Work", "home", "workout", "travel", "w1", "w2", "w3", "w4"]
        .iter()
        .map(|s| s.to_string())
        .collect();
    let active = vec!["WORK".to_string()];
    assert_eq!(
        filtered_tag_suggestions(&available, &active, " wo "),
        vec!["workout"]
    );
    assert_eq!(filtered_tag_suggestions(&available, &active, "").len(), 6);
    assert_eq!(filtered_tag_suggestions(&available, &active, " Zzz "), vec!["zzz"]);
}

#[test]
fn palette_filter_and_selection() {
    assert!(palette_entry_matches("Toggle Preview", "panda::TogglePreview", " preview "));
    assert!(palette_entry_matches("Toggle Preview", "panda::TogglePreview", "panda::"));
    assert!(!palette_entry_matches("Toggle Preview", "panda::TogglePreview", "save"));
    assert!(palette_entry_matches("Anything", "x", "  "));
    assert_eq!(clamp_selection(5, 3), 2);
    assert_eq!(clamp_selection(1, 3), 1);
    assert_eq!(clamp_selection(4, 0), 0);
}
