use atomic_recall::text::{
    decimal_string, has_prefix, join_all, join_first, parse_usize, truncate_to_chars,
};

#[test]
fn decimal_string_writes_digits() {
    assert_eq!(decimal_string(0), "0");
    assert_eq!(decimal_string(7), "7");
    assert_eq!(decimal_string(10), "10");
    assert_eq!(decimal_string(2560), "2560");
    assert_eq!(decimal_string(usize::MAX), usize::MAX.to_string());
}

#[test]
fn parse_usize_reads_what_to_string_wrote() {
    for n in [0usize, 1, 9, 10, 768, 2560, 1_000_000, usize::MAX] {
        assert_eq!(parse_usize(&decimal_string(n)), Some(n));
    }
}

#[test]
fn parse_usize_matches_std_parse() {
    let cases = [
        "", "+", "-", "+0", "-0", "007", "12a", " 12", "12 ", "768", "+768", "١٢",
        "18446744073709551615", "18446744073709551616", "99999999999999999999999",
    ];
    for case in cases {
        assert_eq!(parse_usize(case), case.parse::<usize>().ok(), "case {:?}", case);
    }
}

#[test]
fn join_puts_separator_between_items() {
    let items = vec!["a".to_string(), "bc".to_string(), "".to_string(), "d".to_string()];
    assert_eq!(join_all(&items, ", "), "a, bc, , d");
    assert_eq!(join_first(&items, 2, "\n"), "a\nbc");
    assert_eq!(join_first(&items, 0, "\n"), "");
    assert_eq!(join_all(&Vec::new(), ", "), "");
}

#[test]
fn truncate_to_chars_counts_characters() {
    assert_eq!(truncate_to_chars("hello", 10), "hello");
    assert_eq!(truncate_to_chars("hello", 5), "hello");
    assert_eq!(truncate_to_chars("hello", 3), "hel");
    assert_eq!(truncate_to_chars("héllo wörld", 4), "héll");
    assert_eq!(truncate_to_chars("日本語テキスト", 3), "日本語");
    assert_eq!(truncate_to_chars("abc", 0), "");
    assert_eq!(truncate_to_chars("", 4), "");
}

#[test]
fn truncate_to_chars_twice_is_once() {
    let s = "ünïcödé text";
    let once = truncate_to_chars(s, 6);
    assert_eq!(truncate_to_chars(&once, 6), once);
}

#[test]
fn has_prefix_is_starts_with() {
    for (s, p) in [("abc", "ab"), ("abc", "abc"), ("abc", "abcd"), ("abc", ""), ("", ""), ("xbc", "ab")] {
        assert_eq!(has_prefix(s, p), s.starts_with(p));
    }
}
