use zellij_ext::agent_bar::wrap::{hard_split, wrap_text};

fn wrapped(text: &str, width: usize, max: usize) -> Vec<String> {
    wrap_text(text, width, max)
}

#[test]
fn breaks_softly_at_separators() {
    assert_eq!(wrapped("fix-the-parser", 8, 4), vec!["fix-the-", "parser"]);
    assert_eq!(wrapped("a b/c.d_e", 4, 4), vec!["a b/", "c.d_", "e"]);
    assert_eq!(wrapped("short", 10, 4), vec!["short"]);
}

#[test]
fn splits_a_wide_token_hard() {
    assert_eq!(wrapped("abcdefghij", 4, 4), vec!["abcd", "efgh", "ij"]);
    assert_eq!(wrapped("x abcdefghij k", 4, 9), vec!["x ", "abcd", "efgh", "ij k"]);
    assert_eq!(hard_split("abcdefghij", 4), vec!["abcd", "efgh", "ij"]);
}

#[test]
fn truncates_with_an_ellipsis() {
    assert_eq!(wrapped("abcdefghij", 4, 2), vec!["abcd", "efg\u{2026}"]);
    assert_eq!(wrapped("aa bb cc dd", 3, 2), vec!["aa ", "bb\u{2026}"]);
    assert_eq!(wrapped("abcd", 1, 1), vec!["\u{2026}"]);
}

#[test]
fn nothing_fits_in_no_room() {
    assert!(wrapped("abc", 0, 4).is_empty());
    assert!(wrapped("abc", 4, 0).is_empty());
    assert!(wrapped("", 4, 4).is_empty());
}

#[test]
fn wide_characters_count_for_two_columns() {
    assert_eq!(wrapped("日本語", 4, 4), vec!["日本", "語"]);
    assert_eq!(hard_split("日本", 1), vec!["日", "本"]);
    assert_eq!(wrapped("e\u{301}e\u{301}", 2, 1), vec!["e\u{301}e\u{301}"]);
}

#[test]
fn lines_put_back_together_are_the_text() {
    let text = "one two-three/four.five_six seven";
    for width in 1..12 {
        let lines = wrapped(text, width, 100);
        assert_eq!(lines.concat(), text);
        assert!(lines.iter().all(|l| !l.is_empty() && l.chars().count() <= width));
    }
}
