use revelation_server::decimal::{parse_number, push_decimal};
use revelation_server::text::{
    chars_of, find_char, push_range, split_text, string_of, string_of_range,
};

fn chars(text: &str) -> Vec<char> {
    text.chars().collect()
}

fn decimal(n: u64) -> String {
    let mut out = Vec::new();
    push_decimal(&mut out, n);
    out.into_iter().collect()
}

#[test]
fn strings_and_characters_convert_both_ways() {
    for text in ["", "abc", "Бог есть любовь", "a\u{0}b", "𝄞 clef", "e\u{301}"] {
        assert_eq!(chars_of(text), chars(text));
        assert_eq!(string_of(&chars(text)), text);
    }
}

#[test]
fn first_occurrence_is_found() {
    let text = chars("a/b/c");
    assert_eq!(find_char(&text, 0, 5, '/'), 1);
    assert_eq!(find_char(&text, 1, 5, '/'), 1);
    assert_eq!(find_char(&text, 2, 5, '/'), 3);
    assert_eq!(find_char(&text, 4, 5, '/'), 5);
    assert_eq!(find_char(&text, 0, 1, '/'), 1);
    assert_eq!(find_char(&text, 0, 5, 'x'), 5);
    assert_eq!(find_char(&text, 3, 3, '/'), 3);
    assert_eq!(find_char(&Vec::new(), 0, 0, '/'), 0);
}

#[test]
fn ranges_are_copied() {
    let text = chars("Amazing grace");
    let mut out = chars(">");
    push_range(&mut out, &text, 8, 13);
    push_range(&mut out, &text, 3, 3);
    push_range(&mut out, &text, 0, 2);
    assert_eq!(out, chars(">graceAm"));
    assert_eq!(string_of_range(&text, 0, 7), "Amazing");
    assert_eq!(string_of_range(&text, 7, 7), "");
    assert_eq!(string_of_range(&text, 0, 13), "Amazing grace");
}

#[test]
fn split_agrees_with_the_standard_split() {
    for text in ["", ",", "a", "a,b", ",,", "a,,b,", "один,два", " a , b "] {
        let expected: Vec<String> = text.split(',').map(String::from).collect();
        assert_eq!(split_text(&chars(text), ','), expected, "{:?}", text);
    }
    assert_eq!(split_text(&chars("a b  c"), ' '), vec!["a", "b", "", "c"]);
}

#[test]
fn numerals_are_read() {
    assert_eq!(parse_number(&chars("0"), 10), Some(0));
    assert_eq!(parse_number(&chars("10"), 10), Some(10));
    assert_eq!(parse_number(&chars("11"), 10), None);
    assert_eq!(parse_number(&chars("+7"), 10), Some(7));
    assert_eq!(parse_number(&chars("007"), 10), Some(7));
    assert_eq!(parse_number(&chars("4294967295"), u32::MAX), Some(u32::MAX));
    assert_eq!(parse_number(&chars("4294967296"), u32::MAX), None);
    assert_eq!(parse_number(&chars("42949672950"), u32::MAX), None);
    assert_eq!(parse_number(&chars("0"), 0), Some(0));
    assert_eq!(parse_number(&chars("1"), 0), None);
}

#[test]
fn what_is_no_numeral_is_not_read() {
    for text in ["", "+", "-", "-1", "+-1", "1+", "1.0", " 1", "1 ", "0x1", "1_000", "١", "１"] {
        assert_eq!(parse_number(&chars(text), u32::MAX), None, "{:?}", text);
        assert!(text.parse::<u32>().is_err());
    }
}

#[test]
fn numbers_are_written_in_decimal() {
    assert_eq!(decimal(0), "0");
    assert_eq!(decimal(7), "7");
    assert_eq!(decimal(10), "10");
    assert_eq!(decimal(1234567890), "1234567890");
    assert_eq!(decimal(u64::MAX), "18446744073709551615");
    for n in (0..3000u64).chain([9999, 10000, 99999, 100000, u32::MAX as u64]) {
        assert_eq!(decimal(n), n.to_string());
    }
}

#[test]
fn written_numbers_are_read_back() {
    for n in [0u32, 1, 9, 10, 99, 100, 65535, 65536, 999999, u32::MAX] {
        assert_eq!(parse_number(&chars(&decimal(n as u64)), u32::MAX), Some(n));
    }
}
