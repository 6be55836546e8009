use novel::text::{
    contains_str, is_blank_str, join_strings, parse_u64, parse_usize, replace_str, split_on,
    split_str, starts_with_str, str_eq, trim_str, u64_to_decimal, usize_to_decimal3,
};

#[test]
fn trim_removes_unicode_whitespace_at_both_ends() {
    assert_eq!(trim_str("  \t abc de \n"), "abc de");
    assert_eq!(trim_str("\u{3000}标题\u{a0}"), "标题");
    assert_eq!(trim_str(""), "");
    assert_eq!(trim_str(" \n\t"), "");
}

#[test]
fn blank_means_only_whitespace() {
    assert!(is_blank_str(""));
    assert!(is_blank_str(" \r\n\u{2003}"));
    assert!(!is_blank_str(" x "));
}

#[test]
fn replace_all_occurrences_from_the_left() {
    assert_eq!(replace_str("aaaa", "aa", "b"), "bb");
    assert_eq!(replace_str("aaa", "aa", "b"), "ba");
    assert_eq!(replace_str("a b c", " ", "%20"), "a%20b%20c");
    assert_eq!(replace_str("xyz", "q", "w"), "xyz");
    assert_eq!(replace_str("作品Tags：a b", "作品Tags：", ""), "a b");
}

#[test]
fn contains_and_starts_with() {
    assert!(contains_str("https://www.wenku8.net/book/1.htm", "wenku8"));
    assert!(!contains_str("abc", "abcd"));
    assert!(contains_str("abc", ""));
    assert!(starts_with_str("https://x", "http"));
    assert!(!starts_with_str("/novel", "http"));
}

#[test]
fn split_keeps_empty_pieces() {
    assert_eq!(split_on("a\n\nb", '\n'), vec!["a", "", "b"]);
    assert_eq!(split_on("", '\n'), vec![""]);
    assert_eq!(split_on("a\n", '\n'), vec!["a", ""]);
    assert_eq!(split_str("t|||a|||d", "|||"), vec!["t", "a", "d"]);
    assert_eq!(split_str("||||", "|||"), vec!["", "|"]);
}

#[test]
fn join_puts_separator_between() {
    let parts: Vec<String> = vec!["a".to_string(), "b".to_string(), "c".to_string()];
    assert_eq!(join_strings(&parts, ","), "a,b,c");
    assert_eq!(join_strings(&Vec::new(), ","), "");
}

#[test]
fn decimal_forms() {
    assert_eq!(u64_to_decimal(0), "0");
    assert_eq!(u64_to_decimal(18446744073709551615), "18446744073709551615");
    assert_eq!(usize_to_decimal3(7), "007");
    assert_eq!(usize_to_decimal3(42), "042");
    assert_eq!(usize_to_decimal3(1234), "1234");
}

#[test]
fn unsigned_parsing_follows_from_str() {
    assert_eq!(parse_usize("2"), Some(2));
    assert_eq!(parse_usize("+7"), Some(7));
    assert_eq!(parse_usize("007"), Some(7));
    assert_eq!(parse_usize(""), None);
    assert_eq!(parse_usize("+"), None);
    assert_eq!(parse_usize("-1"), None);
    assert_eq!(parse_usize(" 1"), None);
    assert_eq!(parse_usize("1a"), None);
    assert_eq!(parse_u64("18446744073709551615"), Some(u64::MAX));
    assert_eq!(parse_u64("18446744073709551616"), None);
    assert_eq!(parse_u64("5"), "5".parse::<u64>().ok());
}

#[test]
fn string_equality() {
    assert!(str_eq("--title", "--title"));
    assert!(!str_eq("--title", "--titl"));
    assert!(!str_eq("--help", "--hELP"));
}
