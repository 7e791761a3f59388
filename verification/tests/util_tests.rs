use yp::text::{decimal_string, is_space_char, str_eq, to_ascii_lower, to_ascii_upper};
use yp::util::{camel_case, indent, is_keyword, is_std_primary, trim};

#[test]
fn test_camel_case() {
    assert_eq!("Ab", camel_case("ab"));
    assert_eq!("Ab", camel_case("aB"));
    assert_eq!("AbAb", camel_case("aB_ab"));
    assert_eq!("AbAb", camel_case("aB_aB"));
}

#[test]
fn camel_case_edge_cases() {
    assert_eq!("", camel_case(""));
    assert_eq!("_", camel_case("_"));
    assert_eq!("A", camel_case("a_"));
    assert_eq!("A_", camel_case("a__"));
    assert_eq!("RuleBody", camel_case("rule_body"));
    assert_eq!("X1", camel_case("x1"));
}

#[test]
fn primitives_are_known() {
    for name in [
        "bool", "u8", "u16", "u32", "u64", "u128", "i8", "i16", "i32", "i64", "i128", "f32",
        "f64", "usize", "isize", "char", "str", "!",
    ] {
        assert!(is_std_primary(name), "{}", name);
    }
    assert!(!is_std_primary("string"));
    assert!(!is_std_primary(""));
    assert!(!is_std_primary("U8"));
}

#[test]
fn keywords_are_known() {
    assert!(is_keyword("as"));
    assert!(is_keyword("break"));
    assert!(is_keyword("where"));
    assert!(!is_keyword("while"));
    assert!(!is_keyword(""));
}

#[test]
fn trim_removes_white_space_at_both_ends() {
    assert_eq!(trim("  a b \n"), "a b");
    assert_eq!(trim(""), "");
    assert_eq!(trim(" \t\r\n"), "");
    assert_eq!(trim("x"), "x");
    assert_eq!(trim("\u{a0}x\u{3000}"), "x");
    assert_eq!(trim("\u{200b}x"), "\u{200b}x");
}

#[test]
fn trim_agrees_with_std() {
    for s in ["", " ", "a", " a", "a ", "\n\ta b\r\n", "\u{85}q\u{2028}", "  \u{1680} "] {
        assert_eq!(trim(s), s.trim());
    }
}

#[test]
fn indent_moves_lines_to_the_right() {
    assert_eq!(indent("a"), "    a");
    assert_eq!(indent("a\nb"), "    a\n    b");
    assert_eq!(indent("a\n\nb"), "    a\n\n    b");
    assert_eq!(indent("a\n  \nb"), "    a\n\n    b");
    assert_eq!(indent(""), "");
    assert_eq!(indent("a\n"), "    a");
    assert_eq!(indent("a\r\nb"), "    a\n    b");
    assert_eq!(indent("  a"), "      a");
    assert_eq!(indent("\n"), "");
    assert_eq!(indent("\na"), "\n    a");
}

#[test]
fn small_text_helpers() {
    assert!(is_space_char(' '));
    assert!(is_space_char('\n'));
    assert!(!is_space_char('a'));
    assert_eq!(to_ascii_upper('a'), 'A');
    assert_eq!(to_ascii_upper('z'), 'Z');
    assert_eq!(to_ascii_upper('A'), 'A');
    assert_eq!(to_ascii_upper('1'), '1');
    assert_eq!(to_ascii_lower('Q'), 'q');
    assert_eq!(to_ascii_lower('q'), 'q');
    assert_eq!(to_ascii_lower('_'), '_');
    assert!(str_eq("ab", "ab"));
    assert!(!str_eq("ab", "abc"));
    assert_eq!(decimal_string(0), "0");
    assert_eq!(decimal_string(7), "7");
    assert_eq!(decimal_string(10), "10");
    assert_eq!(decimal_string(1203), "1203");
}

#[test]
fn white_space_agrees_with_std() {
    let mut c = 0u32;
    while c < 0x3100 {
        if let Some(ch) = char::from_u32(c) {
            assert_eq!(is_space_char(ch), ch.is_whitespace(), "{:x}", c);
        }
        c += 1;
    }
}
