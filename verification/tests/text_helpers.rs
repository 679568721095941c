use refx_core::text::{char_is_whitespace, lower_char, same_text, trim_str};

#[test]
fn trim_removes_unicode_whitespace_at_both_ends() {
    assert_eq!(trim_str("  a b \t\n"), "a b");
    assert_eq!(trim_str("\u{3000}x\u{2029}"), "x");
    assert_eq!(trim_str(" \u{85} "), "");
    assert_eq!(trim_str("ok"), "ok");
}

#[test]
fn whitespace_and_case_helpers() {
    for c in [' ', '\t', '\n', '\u{b}', '\u{c}', '\r', '\u{85}', '\u{a0}', '\u{1680}', '\u{2000}', '\u{200a}', '\u{2028}', '\u{2029}', '\u{202f}', '\u{205f}', '\u{3000}'] {
        assert!(char_is_whitespace(c), "{:?}", c);
        assert_eq!(char_is_whitespace(c), c.is_whitespace());
    }
    for c in ['a', '\u{200b}', '_', '\u{180e}'] {
        assert!(!char_is_whitespace(c), "{:?}", c);
        assert_eq!(char_is_whitespace(c), c.is_whitespace());
    }
    assert_eq!(lower_char('Q'), 'q');
    assert_eq!(lower_char('q'), 'q');
    assert_eq!(lower_char('Ä'), 'Ä');
    assert!(same_text("abc", "abc"));
    assert!(!same_text("abc", "abd"));
    assert!(!same_text("abc", "ab"));
}
