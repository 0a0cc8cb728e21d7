use upenn_curf_scraper::text::{
    after_bytes, decimal_string, equal_ignoring_ascii_case, parse_usize, split_by, str_eq,
    trimmed, trimmed_end_char, zero_padded,
};

#[test]
fn trims_unicode_white_space() {
    assert_eq!(trimmed("  hello world \n"), "hello world");
    assert_eq!(trimmed("\u{3000}\tYes\u{a0}"), "Yes");
    assert_eq!(trimmed(" \n\t "), "");
    assert_eq!(trimmed(""), "");
    assert_eq!(trimmed("a b"), "a b");
}

#[test]
fn trims_like_std() {
    for s in ["  x ", "\u{2000}y\u{202f}", "\u{85}z", "no", "\u{200b}keep\u{200b}"] {
        assert_eq!(trimmed(s), s.trim());
    }
}

#[test]
fn trims_trailing_commas() {
    assert_eq!(trimmed_end_char("Biology,", ','), "Biology");
    assert_eq!(trimmed_end_char("A,,B,,,", ','), "A,,B");
    assert_eq!(trimmed_end_char(",,,", ','), "");
    assert_eq!(trimmed_end_char("Physics", ','), "Physics");
}

#[test]
fn splits_like_std() {
    for s in ["", ",", "2023, 2024", "a,,b", "First-year, Junior,"] {
        let expected: Vec<String> = s.split(',').map(|p| p.to_string()).collect();
        assert_eq!(split_by(s, ','), expected);
    }
    assert_eq!(split_by("2023, 2024", ','), vec!["2023".to_string(), " 2024".to_string()]);
}

#[test]
fn parses_usize_like_std() {
    for s in ["0", "2024", "+7", "", "+", "-1", "12a", " 3", "007", "18446744073709551615", "18446744073709551616", "99999999999999999999"] {
        assert_eq!(parse_usize(s), s.parse::<usize>().ok(), "input {:?}", s);
    }
    assert_eq!(parse_usize("2024"), Some(2024));
    assert_eq!(parse_usize("x"), None);
}

#[test]
fn formats_decimals() {
    assert_eq!(decimal_string(0), "0");
    assert_eq!(decimal_string(2024), "2024");
    assert_eq!(decimal_string(usize::MAX), usize::MAX.to_string());
    assert_eq!(zero_padded(7, 3), "007");
    assert_eq!(zero_padded(123, 2), "123");
    assert_eq!(zero_padded(5, 0), "5");
    assert_eq!(zero_padded(42, 5), format!("{:0width$}", 42, width = 5));
}

#[test]
fn decimal_round_trip() {
    for n in [0usize, 9, 10, 99, 100, 2023, 65535, usize::MAX] {
        assert_eq!(parse_usize(&decimal_string(n)), Some(n));
        assert_eq!(parse_usize(&zero_padded(n, 25)), Some(n));
    }
}

#[test]
fn compares_ignoring_ascii_case() {
    assert!(equal_ignoring_ascii_case("Y", "y"));
    assert!(equal_ignoring_ascii_case("HeLLo", "hello"));
    assert!(!equal_ignoring_ascii_case("yes", "y"));
    assert!(!equal_ignoring_ascii_case("É", "é"));
    for (a, b) in [("abc", "ABC"), ("Straße", "STRAßE"), ("x", "y"), ("", "")] {
        assert_eq!(equal_ignoring_ascii_case(a, b), a.eq_ignore_ascii_case(b));
    }
}

#[test]
fn compares_strings() {
    assert!(str_eq("row", "row"));
    assert!(!str_eq("row", "rows"));
    assert!(!str_eq("Row", "row"));
}

#[test]
fn skips_bytes_like_slicing() {
    assert_eq!(after_bytes("/rd/some-id", 4), Some("some-id".to_string()));
    assert_eq!(after_bytes("/rd", 4), None);
    assert_eq!(after_bytes("/rd/", 4), Some(String::new()));
    assert_eq!(after_bytes("aéb", 2), None);
    assert_eq!(after_bytes("aéb", 3), Some("b".to_string()));
    assert_eq!(after_bytes("abc", 0), Some("abc".to_string()));
}
