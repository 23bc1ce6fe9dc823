//! Splitting, trimming and comparing texts.

use aquilo::text::{contains_char, ends_with, same, split, starts_with, trim, Separator};

#[test]
fn splits_like_the_standard_library() {
    for s in ["", "_", "__", "a", "_a", "a_", "_a__b_", "a_b c_d", "żółw_ść"] {
        let expected: Vec<String> =
            s.split('_').filter(|p| !p.is_empty()).map(|p| p.to_string()).collect();
        assert_eq!(split(s, Separator::Underscore), expected, "{s:?}");
    }
    for s in ["", " ", "a", " a\tb\n", "a\u{a0}b\u{3000}c\u{2003}d", "a_b", "\u{85}x\u{1680}"] {
        let expected: Vec<String> = s.split_whitespace().map(|p| p.to_string()).collect();
        assert_eq!(split(s, Separator::Whitespace), expected, "{s:?}");
    }
}

#[test]
fn trims_like_the_standard_library() {
    for s in ["", " ", "a", " a ", "\t\n a b \r\n", "\u{a0}x\u{2029}", "\u{200b}x"] {
        assert_eq!(trim(s), s.trim(), "{s:?}");
    }
}

#[test]
fn every_white_space_character_is_known() {
    for u in 0..0x3100u32 {
        if let Some(c) = char::from_u32(u) {
            let s = format!("{c}x");
            assert_eq!(trim(&s), s.trim(), "{u:x}");
        }
    }
}

#[test]
fn compares_ends() {
    assert!(starts_with("/version/x", "/version/"));
    assert!(!starts_with("/versio", "/version/"));
    assert!(ends_with("/x/log", "/log"));
    assert!(!ends_with("log", "/log"));
    assert!(ends_with("abc", ""));
    assert!(same("abc", "abc"));
    assert!(!same("abc", "abd"));
    assert!(!same("abc", "ab"));
    assert!(contains_char("1.7", '.'));
    assert!(!contains_char("17", '.'));
}
