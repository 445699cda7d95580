use manga_downloader::text::{
    contains_chars, filename_filter, find_chars, i64_decimal, padded_decimal,
    parse_i64, str_chars, to_ascii_lower, trim_chars, trim_end_chars, u64_decimal, utf8_len,
};

fn s(v: &[char]) -> String {
    v.iter().collect()
}

fn c(text: &str) -> Vec<char> {
    text.chars().collect()
}

#[test]
fn trims_unicode_white_space_like_std() {
    let input = "\u{3000} \t abc def \n\u{00A0}";
    assert_eq!(s(&trim_chars(&c(input))), input.trim());
    assert_eq!(s(&trim_end_chars(&c(input))), input.trim_end());
    assert_eq!(s(&trim_chars(&c("   "))), "");
}

#[test]
fn lowers_ascii_only() {
    assert_eq!(s(&to_ascii_lower(&c("AbC-Ä-Z"))), "abc-Ä-z");
}

#[test]
fn finds_substrings() {
    assert_eq!(find_chars(&c("abcabc"), &c("ca"), 0), Some(2));
    assert_eq!(find_chars(&c("abcabc"), &c("bc"), 2), Some(4));
    assert_eq!(find_chars(&c("abc"), &c("x"), 0), None);
    assert!(contains_chars(&c("https://x"), &c("://")));
    assert!(!contains_chars(&c("x.y"), &c("://")));
}

#[test]
fn parses_i64_like_std() {
    for input in ["0", "42", "+7", "-7", "-", "+", "", "12a", "9223372036854775807",
        "9223372036854775808", "-9223372036854775808", "-9223372036854775809", "007", " 1"] {
        assert_eq!(parse_i64(&c(input)), input.parse::<i64>().ok(), "input {input:?}");
    }
}

#[test]
fn formats_decimals() {
    assert_eq!(s(&u64_decimal(0)), "0");
    assert_eq!(s(&u64_decimal(18446744073709551615)), "18446744073709551615");
    assert_eq!(s(&i64_decimal(-9223372036854775808)), "-9223372036854775808");
    assert_eq!(s(&i64_decimal(1234)), "1234");
    assert_eq!(s(&padded_decimal(7, 3)), "007");
    assert_eq!(s(&padded_decimal(12345, 3)), "12345");
}

#[test]
fn counts_utf8_bytes() {
    assert_eq!(utf8_len(&c("a第😀")), "a第😀".len());
}

#[test]
fn filters_file_names() {
    assert_eq!(s(&filename_filter(&c("  a/b\\c:d*e?f\"g<h>i|j  "))), "a b c：d⭐e？f'g《h》i丨j");
}

#[test]
fn splits_strings_into_chars() {
    assert_eq!(str_chars("第1话"), vec!['第', '1', '话']);
}

#[test]
fn parsing_a_rendered_number_gives_it_back() {
    for n in [0i64, 1, -1, 42, i64::MAX, i64::MIN, 220980] {
        assert_eq!(parse_i64(&i64_decimal(n)), Some(n));
    }
}
