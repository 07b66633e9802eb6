use netcom_toolkit::text::{
    find, parse_i32_exec, parse_unsigned_exec, replace, split_char, split_lines, split_whitespace,
    str_eq, trim_chars, trim_end_matches_str,
};

fn chars(s: &str) -> Vec<char> {
    s.chars().collect()
}

fn all(v: &[&str]) -> Vec<Vec<char>> {
    v.iter().map(|s| chars(s)).collect()
}

#[test]
fn trimming_unicode_whitespace() {
    assert_eq!(trim_chars(&chars("\u{3000} a b\t\n")), chars("a b"));
    assert_eq!(trim_chars(&chars("   ")), chars(""));
}

#[test]
fn replacing_every_occurrence() {
    assert_eq!(replace(&chars("a  b  c"), &chars("  "), &chars("\n")), chars("a\nb\nc"));
    assert_eq!(replace(&chars("aaa"), &chars("aa"), &chars("b")), chars("ba"));
    assert_eq!(find(&chars("xxmsyy"), &chars("ms")), Some(2));
    assert_eq!(find(&chars("xx"), &chars("ms")), None);
}

#[test]
fn splitting_words_pieces_and_lines() {
    assert_eq!(split_whitespace(&chars("  0 8.8.8.8  56 ")), all(&["0", "8.8.8.8", "56"]));
    assert_eq!(split_char(&chars("10.1..4"), '.'), all(&["10", "1", "", "4"]));
    assert_eq!(split_lines(&chars("a\r\nb\n\nc")), all(&["a", "b", "", "c"]));
    assert_eq!(split_lines(&chars("a\n")), all(&["a"]));
}

#[test]
fn parsing_numbers() {
    assert_eq!(parse_unsigned_exec(&chars("+42"), 255), Some(42));
    assert_eq!(parse_unsigned_exec(&chars("256"), 255), None);
    assert_eq!(parse_unsigned_exec(&chars(""), 255), None);
    assert_eq!(parse_i32_exec(&chars("-2147483648")), Some(i32::MIN));
    assert_eq!(parse_i32_exec(&chars("2147483648")), None);
    assert_eq!(parse_i32_exec(&chars("-")), None);
}

#[test]
fn trimming_a_unit_and_comparing() {
    assert_eq!(trim_end_matches_str(&chars("12msms"), "ms"), chars("12"));
    assert!(str_eq("login", "login"));
    assert!(!str_eq("login", "logi"));
}
