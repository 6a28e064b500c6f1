use offcode::wrap::{word_wrap, wraps_cleanly};

#[test]
fn words_fill_lines() {
    assert_eq!(word_wrap("hello world foo", 11), vec!["hello world", "foo"]);
    assert_eq!(word_wrap("hello   world", 20), vec!["hello world"]);
    assert_eq!(word_wrap("a b c d", 3), vec!["a b c d"]);
}

#[test]
fn long_words_are_cut() {
    assert_eq!(word_wrap("abcdefghij", 4), vec!["abcd", "efgh", "ij"]);
    assert_eq!(word_wrap("x abcdefghij", 4), vec!["x", "abcdefghij"]);
}

#[test]
fn blank_lines_and_empty_text() {
    assert_eq!(word_wrap("a\n\nb", 10), vec!["a", "", "b"]);
    assert_eq!(word_wrap("", 10), vec![""]);
    assert_eq!(word_wrap("   ", 10), vec![""]);
    assert_eq!(word_wrap("a\r\nb\n", 10), vec!["a", "b"]);
}

#[test]
fn narrow_views_keep_the_text() {
    assert_eq!(word_wrap("one two three", 3), vec!["one two three"]);
    assert_eq!(word_wrap("x\ny", 0), vec!["x\ny"]);
}

#[test]
fn cuts_inside_a_character_are_detected() {
    assert!(!wraps_cleanly("\u{e9}\u{e9}\u{e9}", 5));
    assert!(wraps_cleanly("\u{e9}\u{e9}\u{e9}", 4));
    assert_eq!(word_wrap("\u{e9}\u{e9}\u{e9}", 4), vec!["\u{e9}\u{e9}", "\u{e9}"]);
    assert!(wraps_cleanly("plain words", 5));
}
