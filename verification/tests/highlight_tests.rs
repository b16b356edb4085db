use panda_note::highlight::match_indices;

#[test]
fn highlight_marks_each_matched_character_by_byte_offset() {
    assert_eq!(match_indices("Hello World", Some("world")), vec![6, 7, 8, 9, 10]);
    assert_eq!(match_indices("Hello World", Some("  WORLD ")), vec![6, 7, 8, 9, 10]);
}

#[test]
fn highlight_counts_bytes_of_wide_characters() {
    assert_eq!(match_indices("你好世界", Some("世界")), vec![6, 9]);
    assert_eq!(match_indices("é-é", Some("é")), vec![0, 3]);
}

#[test]
fn highlight_takes_matches_without_overlap() {
    assert_eq!(match_indices("aaa", Some("aa")), vec![0, 1]);
    assert_eq!(match_indices("abab", Some("ab")), vec![0, 1, 2, 3]);
}

#[test]
fn highlight_needs_a_query() {
    assert!(match_indices("anything", None).is_empty());
    assert!(match_indices("anything", Some("   ")).is_empty());
    assert!(match_indices("anything", Some("zzz")).is_empty());
}

#[test]
fn highlight_skips_matches_off_the_character_grid() {
    // Lower-casing the dotted capital I makes the text longer, so the match
    // of "x" lies past the end of the original text.
    assert!(match_indices("\u{130}x", Some("x")).is_empty());
}
