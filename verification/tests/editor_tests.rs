use panda_note::editor::Editor;

fn editor(text: &str, start: usize, end: usize) -> Editor {
    Editor {
        text: text.chars().collect(),
        selection_start: start,
        selection_end: end,
        language: None,
        read_only: false,
    }
}

fn text(e: &Editor) -> String {
    e.text.iter().collect()
}

#[test]
fn quote_toggles_on_and_off() {
    let mut e = editor("one\ntwo", 0, 7);
    e.toggle_markdown_block_quote();
    assert_eq!(text(&e), "> one\n> two");
    e.toggle_markdown_block_quote();
    assert_eq!(text(&e), "one\ntwo");
}

#[test]
fn empty_quote_line_gets_bare_marker() {
    let mut e = editor("a\n\nb", 0, 4);
    e.toggle_markdown_block_quote();
    assert_eq!(text(&e), "> a\n>\n> b");
}

#[test]
fn bullets_replace_other_markers() {
    let mut e = editor("* a\nb", 0, 5);
    e.toggle_markdown_unordered_list();
    assert_eq!(text(&e), "- a\n- b");
    e.toggle_markdown_unordered_list();
    assert_eq!(text(&e), "a\nb");
}

#[test]
fn headings_set_and_clear() {
    let mut e = editor("  ## title", 0, 0);
    e.toggle_markdown_heading_1();
    assert_eq!(text(&e), "  # title");
    e.toggle_markdown_heading_1();
    assert_eq!(text(&e), "  title");
    e.toggle_markdown_heading_3();
    assert_eq!(text(&e), "  ### title");
}

#[test]
fn numbered_list_counts_from_one() {
    let mut e = editor("a\n- b\nc", 0, 7);
    e.toggle_markdown_ordered_list();
    assert_eq!(text(&e), "1. a\n2. b\n3. c");
    e.toggle_markdown_ordered_list();
    assert_eq!(text(&e), "a\nb\nc");
}

#[test]
fn task_list_marks_open_tasks() {
    let mut e = editor("- [x] done\ntodo", 0, 15);
    e.toggle_markdown_task_list();
    assert_eq!(text(&e), "- [ ] done\n- [ ] todo");
    e.toggle_markdown_task_list();
    assert_eq!(text(&e), "done\ntodo");
}

#[test]
fn code_block_wraps_and_unwraps() {
    let mut e = editor("let x = 1;", 0, 10);
    e.toggle_markdown_code_block();
    assert_eq!(text(&e), "```\nlet x = 1;\n```");
    let len = e.text.len();
    e.selection_start = 0;
    e.selection_end = len;
    e.toggle_markdown_code_block();
    assert_eq!(text(&e), "let x = 1;");
}

#[test]
fn bold_wraps_and_unwraps_selection() {
    let mut e = editor("say hi now", 4, 6);
    e.toggle_markdown_bold();
    assert_eq!(text(&e), "say **hi** now");
    let mut e = editor("say **hi** now", 4, 10);
    e.toggle_markdown_bold();
    assert_eq!(text(&e), "say hi now");
}

#[test]
fn inline_code_and_strike_and_italic() {
    let mut e = editor("x", 0, 1);
    e.toggle_markdown_inline_code();
    assert_eq!(text(&e), "`x`");
    let mut e = editor("x", 0, 1);
    e.toggle_markdown_strikethrough();
    assert_eq!(text(&e), "~~x~~");
    let mut e = editor("x", 0, 1);
    e.toggle_markdown_italic();
    assert_eq!(text(&e), "*x*");
}

#[test]
fn link_image_table_and_rule() {
    let mut e = editor("docs", 0, 4);
    e.insert_markdown_link();
    assert!(text(&e).starts_with("[docs]("));
    let mut e = editor("pic", 0, 3);
    e.insert_markdown_image();
    assert!(text(&e).starts_with("![pic]("));
    let mut e = editor("", 0, 0);
    e.insert_markdown_table();
    assert!(text(&e).contains('|'));
    let mut e = editor("", 0, 0);
    e.insert_markdown_horizontal_rule();
    assert!(text(&e).contains("---"));
}

#[test]
fn plain_code_language_is_left_alone() {
    let mut e = editor("one", 0, 3);
    e.language = Some("Rust".to_string());
    e.toggle_markdown_block_quote();
    assert_eq!(text(&e), "one");
}

#[test]
fn read_only_editor_keeps_inline_text() {
    let mut e = editor("x", 0, 1);
    e.read_only = true;
    e.toggle_markdown_bold();
    assert_eq!(text(&e), "x");
}

#[test]
fn insert_replaces_selection() {
    let mut e = editor("abcdef", 2, 4);
    e.insert("XY");
    assert_eq!(text(&e), "abXYef");
    assert_eq!(e.selection_start, 4);
}

#[test]
fn numbered_toggle_twice_restores_plain_lines() {
    let mut e = editor("  alpha\nbeta", 0, 12);
    e.toggle_markdown_ordered_list();
    assert_eq!(text(&e), "  1. alpha\n2. beta");
    let len = e.text.len();
    e.selection_start = 0;
    e.selection_end = len;
    e.toggle_markdown_ordered_list();
    assert_eq!(text(&e), "  alpha\nbeta");
}

#[test]
fn task_toggle_twice_restores_plain_lines() {
    let mut e = editor("\tfirst\nsecond", 0, 13);
    e.toggle_markdown_task_list();
    assert_eq!(text(&e), "\t- [ ] first\n- [ ] second");
    let len = e.text.len();
    e.selection_start = 0;
    e.selection_end = len;
    e.toggle_markdown_task_list();
    assert_eq!(text(&e), "\tfirst\nsecond");
}
