use panda_note::script::is_cjk_word_char;
use panda_note::cjk::{tokenize_cjk, Segmenter};

#[test]
fn tokenize_nihao_shijie() {
    let seg = Segmenter::new();
    let tokens = tokenize_cjk(&seg, "你好世界");
    assert_eq!(
        tokens
            .iter()
            .map(|t| &"你好世界"[t.start..t.end])
            .collect::<Vec<_>>(),
        vec!["你好", "世界"]
    );
    assert_eq!(tokens[0].start, 0);
    assert_eq!(tokens[0].end, "你好".len());
    assert_eq!(tokens[1].start, "你好".len());
    assert_eq!(tokens[1].end, "你好世界".len());
}

#[test]
fn tokenize_empty_text_gives_no_spans() {
    let seg = Segmenter::new();
    assert!(tokenize_cjk(&seg, "").is_empty());
}

use panda_note::cjk::{
    cjk_run_containing, next_word_end, next_word_start, previous_word_end, previous_word_start, word_range,
    DisplayPoint, DisplaySnapshot,
};

fn snapshot(text: &str) -> DisplaySnapshot {
    DisplaySnapshot { text: text.chars().collect() }
}

fn at(offset: usize) -> DisplayPoint {
    DisplayPoint { offset }
}

#[test]
fn cjk_run_spans_the_cjk_characters_around_a_point() {
    let map = snapshot("ab你好世界 c");
    let run = cjk_run_containing(&map, 3).unwrap();
    assert_eq!(run.start, 2);
    assert_eq!(run.text, "你好世界");
    assert!(cjk_run_containing(&map, 0).is_none());
    assert!(cjk_run_containing(&map, 6).is_none());
}

#[test]
fn cjk_word_motions_follow_jieba_words() {
    let seg = Segmenter::new();
    let map = snapshot("你好世界 hi");
    assert_eq!(next_word_start(&map, &seg, at(0)), Some(at(2)));
    assert_eq!(next_word_start(&map, &seg, at(2)), None);
    assert_eq!(previous_word_start(&map, &seg, at(3)), Some(at(2)));
    assert_eq!(previous_word_start(&map, &seg, at(0)), None);
    assert_eq!(next_word_end(&map, &seg, at(0)), Some(at(1)));
    assert_eq!(previous_word_end(&map, &seg, at(3)), Some(at(1)));
    assert_eq!(word_range(&map, &seg, at(1), 1), Some((at(0), at(2))));
    assert_eq!(word_range(&map, &seg, at(1), 2), Some((at(0), at(4))));
    assert_eq!(next_word_start(&map, &seg, at(6)), None);
}

#[test]
fn cjk_word_characters_are_han_tangut_or_yi() {
    assert!(is_cjk_word_char('中'));
    assert!(is_cjk_word_char('\u{A000}'));
    assert!(!is_cjk_word_char('a'));
    assert!(!is_cjk_word_char('あ'));
}
