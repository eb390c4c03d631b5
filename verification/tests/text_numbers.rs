use cosmic_comic::number::{
    counted_text, decimal_text, only_digits, padded_text, parse_decimal, parse_i32, signed_text,
};
use cosmic_comic::text::{
    begins_with, chars_of, concat3, copy_opt, copy_texts, find_at, finishes_with, holds_text,
    is_space_char, join_texts, lower_chars, replace_text, same_text, shorten, split_chars,
    string_of, trimmed, words_of,
};

fn chars(s: &str) -> Vec<char> {
    s.chars().collect()
}

fn strings(v: &[Vec<char>]) -> Vec<String> {
    v.iter().map(|p| p.iter().collect()).collect()
}

#[test]
fn characters_and_strings_convert_back() {
    for s in ["", "abc", "Übung … 漫画"] {
        assert_eq!(string_of(&chars_of(s)), s);
    }
    assert!(same_text("a", "a"));
    assert!(!same_text("a", "A"));
    assert_eq!(concat3("a", "b", "c"), "abc");
    assert_eq!(copy_opt(&Some("x".to_string())), Some("x".to_string()));
    assert_eq!(copy_opt(&None), None);
    assert_eq!(copy_texts(&vec!["a".to_string(), "b".to_string()]), vec!["a", "b"]);
}

#[test]
fn white_space_is_that_of_unicode() {
    let mut code: u32 = 0;
    while code <= 0x10ffff {
        if let Some(c) = char::from_u32(code) {
            assert_eq!(is_space_char(c), c.is_whitespace(), "{code:x}");
        }
        code += 1;
    }
}

#[test]
fn trimming_and_words_are_those_of_str() {
    for s in ["", "  ", " a b ", "\ta\n\nb\u{3000}c\u{85}", "no", "\u{a0}x\u{a0}"] {
        let v = chars(s);
        assert_eq!(string_of(trimmed(&v)), s.trim());
        let words: Vec<&str> = s.split_whitespace().collect();
        assert_eq!(strings(&words_of(&v)), words);
    }
}

#[test]
fn splitting_is_that_of_str() {
    for s in ["", "a", "a/b", "/a//b/", "//"] {
        let pieces: Vec<&str> = s.split('/').collect();
        assert_eq!(strings(&split_chars(&chars(s), '/')), pieces);
    }
}

#[test]
fn searching_and_replacing_are_those_of_str() {
    let v = chars("one two one");
    assert_eq!(find_at(&v, &chars("one"), 0), Some(0));
    assert_eq!(find_at(&v, &chars("one"), 1), Some(8));
    assert_eq!(find_at(&v, &chars("three"), 0), None);
    assert!(begins_with(&v, "one"));
    assert!(!begins_with(&v, "two"));
    assert!(finishes_with(&v, "one"));
    assert!(!finishes_with(&chars("e"), "one"));
    assert!(holds_text(&v, "two"));
    assert!(!holds_text(&v, "six"));
    assert_eq!(string_of(&replace_text(&v, "one", "1")), "one two one".replace("one", "1"));
    assert_eq!(string_of(&replace_text(&chars("aaa"), "aa", "b")), "aaa".replace("aa", "b"));
}

#[test]
fn lower_casing_is_ascii_only() {
    assert_eq!(string_of(&lower_chars("ABC.CbZ É")), "ABC.CbZ É".to_ascii_lowercase());
}

#[test]
fn texts_are_joined_with_a_separator() {
    let v = vec!["a".to_string(), "b".to_string(), "c".to_string()];
    assert_eq!(join_texts(&v, ", "), "a, b, c");
    assert_eq!(join_texts(&vec![], ", "), "");
    assert_eq!(join_texts(&vec!["a".to_string()], ", "), "a");
}

#[test]
fn long_texts_are_cut_short() {
    assert_eq!(shorten("1234567890123456789012", 22, 20), "1234567890123456789012");
    assert_eq!(shorten("12345678901234567890123", 22, 20), "12345678901234567890…");
    assert_eq!(shorten("ééé", 2, 1), "é…");
}

#[test]
fn numbers_are_written_as_format_writes_them() {
    for n in [0u128, 7, 10, 255, 1000, u64::MAX as u128, u64::MAX as u128 + 1] {
        assert_eq!(decimal_text(n), format!("{n}"));
        assert_eq!(padded_text(n, 16, 16), format!("{n:016x}"));
        assert_eq!(padded_text(n, 10, 4), format!("{n:04}"));
    }
    for n in [0, 1, -1, 2006, i32::MAX, i32::MIN] {
        assert_eq!(signed_text(n), format!("{n}"));
    }
    assert_eq!(counted_text(0), "1");
    assert_eq!(counted_text(usize::MAX), format!("{}", usize::MAX as u128 + 1));
}

#[test]
fn decimal_reads_back_what_it_writes() {
    for n in [0u64, 1, 9, 10, 4096, u64::MAX] {
        let text = chars(&decimal_text(n as u128));
        assert_eq!(parse_decimal(&text, u64::MAX), Some(n));
    }
}

#[test]
fn numbers_are_read_as_parse_reads_them() {
    for s in ["0", "0007", "18446744073709551615", "18446744073709551616", "", "x", "-1"] {
        let digits = !s.is_empty() && s.bytes().all(|b| b.is_ascii_digit());
        assert_eq!(!s.is_empty() && only_digits(&chars(s)), digits);
        if digits {
            assert_eq!(parse_decimal(&chars(s), u64::MAX), s.parse::<u64>().ok(), "{s}");
        }
    }
    for s in ["0", "-1", "+5", "2147483647", "2147483648", "-2147483648", "-2147483649", "", "-", "+",
        "1 ", "--1"]
    {
        assert_eq!(parse_i32(&chars(s)), s.parse::<i32>().ok(), "{s}");
    }
}
