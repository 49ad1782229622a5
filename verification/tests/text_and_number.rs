use uess::number::{i64_to_string, id_from_var, parse_u64, u64_to_string};
use uess::text::{join, split_lines, str_contains, str_eq, trim};

#[test]
fn trim_removes_surrounding_white_space() {
    assert_eq!(trim("  hello world \t\r\n"), "hello world");
    assert_eq!(trim("\u{3000}x\u{a0}"), "x");
    assert_eq!(trim("   "), "");
    assert_eq!(trim(""), "");
    assert_eq!(trim("a b"), "a b");
    for c in ['\u{9}', '\u{a}', '\u{b}', '\u{c}', '\u{d}', ' ', '\u{85}', '\u{a0}', '\u{1680}', '\u{2000}', '\u{200a}', '\u{2028}', '\u{2029}', '\u{202f}', '\u{205f}', '\u{3000}'] {
        assert!(c.is_whitespace());
        assert_eq!(trim(&format!("{c}x{c}")), "x");
    }
    for c in ['\u{180e}', '\u{200b}', '\u{feff}', 'a'] {
        assert_eq!(trim(&format!("{c}x{c}")), format!("{c}x{c}"));
    }
}

#[test]
fn contains_finds_substrings() {
    assert!(str_contains("join discord.gg/abc now", "discord.gg/"));
    assert!(!str_contains("discord.g", "discord.gg/"));
    assert!(str_contains("anything", ""));
    assert!(str_contains("äöü", "öü"));
}

#[test]
fn str_eq_compares_characters() {
    assert!(str_eq("aur-check", "aur-check"));
    assert!(!str_eq("aur-check", "aur-chec"));
}

#[test]
fn lines_split_like_std() {
    for text in ["", "a", "a\n", "a\n\nb", "\n", "a\r\nb\r\n", "x\ny\nz", "\n\n", "a\r", "\r\n", "a\r\r\nb", "é\nü"] {
        let expected: Vec<String> = text.lines().map(|l| l.to_string()).collect();
        assert_eq!(split_lines(text), expected, "lines of {:?}", text);
    }
    assert_eq!(split_lines("a\n\nb"), vec!["a".to_string(), "".to_string(), "b".to_string()]);
    assert_eq!(split_lines("a\n"), vec!["a".to_string()]);
}

#[test]
fn join_puts_separators_between() {
    let parts = vec!["a".to_string(), "b".to_string(), "c".to_string()];
    assert_eq!(join(&parts, ", "), "a, b, c");
    assert_eq!(join(&vec![], ", "), "");
    assert_eq!(join(&vec!["one".to_string()], "\n\n"), "one");
}

#[test]
fn parse_u64_follows_std() {
    for text in [
        "0", "123", "+5", "-1", "-0", "", "+", "18446744073709551615", "18446744073709551616",
        " 1", "1 ", "007", "99999999999999999999999", "12a", "١٢",
    ] {
        assert_eq!(parse_u64(text), text.parse::<u64>().ok(), "parse of {:?}", text);
    }
    assert_eq!(parse_u64("868690424506773604"), Some(868690424506773604));
}

#[test]
fn numbers_are_written_in_decimal() {
    assert_eq!(u64_to_string(0), "0");
    assert_eq!(u64_to_string(7), "7");
    assert_eq!(u64_to_string(u64::MAX), u64::MAX.to_string());
    assert_eq!(i64_to_string(-42), "-42");
    assert_eq!(i64_to_string(i64::MIN), i64::MIN.to_string());
    assert_eq!(i64_to_string(i64::MAX), i64::MAX.to_string());
    assert_eq!(i64_to_string(0), "0");
}

#[test]
fn written_ids_read_back() {
    for n in [0u64, 1, 9, 10, 1234567890, u64::MAX] {
        assert_eq!(parse_u64(&u64_to_string(n)), Some(n));
    }
}

#[test]
fn ids_come_from_variables() {
    assert_eq!(id_from_var(Some("42")), Some(42));
    assert_eq!(id_from_var(Some("abc")), None);
    assert_eq!(id_from_var(None), None);
}
