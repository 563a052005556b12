use eventsum::text::{is_blank_line, is_space_exec, text_eq, text_le_exec};

#[test]
fn text_order_is_by_code_point() {
    assert!(text_le_exec("alice", "bob"));
    assert!(!text_le_exec("bob", "alice"));
    assert!(text_le_exec("al", "alice"));
    assert!(!text_le_exec("alice", "al"));
    assert!(text_le_exec("Zed", "alice"));
    assert!(text_le_exec("same", "same"));
    assert!(text_le_exec("", ""));
    assert!(text_le_exec("z", "\u{e9}"));
}

#[test]
fn blank_lines_hold_only_white_space() {
    assert!(is_blank_line(""));
    assert!(is_blank_line("  \t \r"));
    assert!(is_blank_line("\u{3000}\u{a0}"));
    assert!(!is_blank_line(" x "));
    assert!(is_space_exec('\n'));
    assert!(!is_space_exec('\u{200b}'));
}

#[test]
fn text_eq_compares_characters() {
    assert!(text_eq("abc", "abc"));
    assert!(!text_eq("abc", "abd"));
    assert!(!text_eq("abc", "ab"));
}
