use kanban::text::{join_lines, split_lines, split_words, trim_text, wrap_text};

fn strs(v: &[&str]) -> Vec<String> {
    v.iter().map(|s| s.to_string()).collect()
}

#[test]
fn wrap_fills_lines_greedily() {
    assert_eq!(wrap_text("hello world foo", 11), strs(&["hello world", "foo"]));
    assert_eq!(wrap_text("hello world foo", 10), strs(&["hello", "world foo"]));
    assert_eq!(wrap_text("a b c d", 3), strs(&["a b", "c d"]));
}

#[test]
fn wrap_gives_long_words_their_own_line() {
    assert_eq!(wrap_text("tiny enormousword x", 5), strs(&["tiny", "enormousword", "x"]));
}

#[test]
fn wrap_collapses_whitespace() {
    assert_eq!(wrap_text("  a \t\n b  ", 80), strs(&["a b"]));
}

#[test]
fn wrap_of_empty_and_blank_text() {
    assert_eq!(wrap_text("", 10), Vec::<String>::new());
    assert_eq!(wrap_text("   ", 10), strs(&["   "]));
}

#[test]
fn wrap_measures_bytes() {
    // "é" is two bytes: "é é" is five bytes long.
    assert_eq!(wrap_text("é é", 4), strs(&["é", "é"]));
    assert_eq!(wrap_text("é é", 5), strs(&["é é"]));
}

#[test]
fn wrap_keeps_the_words_in_order() {
    let text = "the quick brown fox jumps over the lazy dog";
    let lines = wrap_text(text, 9);
    assert_eq!(lines.join(" "), text);
    for l in &lines {
        assert!(l.len() <= 9);
    }
}

#[test]
fn words_are_split_on_unicode_whitespace() {
    assert_eq!(split_words("a\u{3000}b\u{a0}c d"), strs(&["a", "b", "c", "d"]));
    assert_eq!(split_words(""), Vec::<String>::new());
}

#[test]
fn trimming() {
    assert_eq!(trim_text("  hi there \n"), "hi there");
    assert_eq!(trim_text(" \t "), "");
    assert_eq!(trim_text("x"), "x");
}

#[test]
fn splitting_and_joining_lines() {
    assert_eq!(split_lines("a\nb\n"), strs(&["a", "b", ""]));
    assert_eq!(split_lines(""), strs(&[""]));
    assert_eq!(join_lines(&strs(&["a", "b", ""])), "a\nb\n");
    assert_eq!(join_lines(&strs(&[])), "");
}

#[test]
fn rewrapping_changes_nothing() {
    let text = "  the quick\tbrown fox   jumps over\nthe lazy dog ";
    for w in [0, 5, 9, 14, 80] {
        let lines = wrap_text(text, w);
        assert_eq!(wrap_text(&lines.join(" "), w), lines);
        assert_eq!(wrap_text("the quick brown fox jumps over the lazy dog", w), lines);
    }
}

#[test]
fn wider_never_gives_more_lines() {
    let text = "aa bbb c dddd ee f ggggg hh";
    let mut last = usize::MAX;
    for w in 0..30 {
        let n = wrap_text(text, w).len();
        assert!(n <= last);
        last = n;
    }
}
