use desktop_mcp::text::{
    chars_of, contains, decimal_i32, decimal_u64, same, split, text_of, to_lower, trim,
};

#[test]
fn numbers_are_written_in_decimal() {
    assert_eq!(decimal_u64(0), "0");
    assert_eq!(decimal_u64(10), "10");
    assert_eq!(decimal_u64(u64::MAX), u64::MAX.to_string());
    assert_eq!(decimal_i32(-17), "-17");
    assert_eq!(decimal_i32(i32::MIN), i32::MIN.to_string());
    assert_eq!(decimal_i32(i32::MAX), i32::MAX.to_string());
}

#[test]
fn lower_case_keeps_what_is_not_ascii() {
    assert_eq!(to_lower("Ctrl+ÄÖ9Z"), "ctrl+ÄÖ9z");
}

#[test]
fn texts_are_found_in_texts() {
    assert!(contains("abcabd", "abd"));
    assert!(contains("abc", ""));
    assert!(contains("", ""));
    assert!(!contains("", "a"));
    assert!(!contains("aab", "abb"));
}

#[test]
fn white_space_is_trimmed_at_both_ends() {
    for s in ["  a b\t\n", "", " \u{3000}\u{a0} ", "x", "\u{200b}x\u{85}", "a\r\n"] {
        assert_eq!(trim(s), s.trim());
    }
}

#[test]
fn texts_are_split_at_separators() {
    for s in ["", "+", "a+b", "ctrl++", "++", "plain"] {
        let expected: Vec<&str> = s.split('+').collect();
        assert_eq!(split(s, '+'), expected);
    }
}

#[test]
fn characters_make_up_a_text() {
    assert_eq!(chars_of("aé😀"), vec!['a', 'é', '😀']);
    assert_eq!(text_of(&['a', 'é', '😀']), "aé😀");
    assert!(same("aé", "aé"));
    assert!(!same("aé", "ae"));
}
