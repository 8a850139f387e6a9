use lsix::term_image::{add_clamped, plain_grid_cell, plain_grid_rows, Area};
use lsix::text::{
    any_is, append, chars_of, chars_of_bytes, contains, decimal_of, ends_with, find, hex_of,
    hex_prefix, is_hex, is_one_of, mask_controls, matches_at, parse_decimal, push_decimal,
    replace, same_chars, slice_of, split, split_whitespace, starts_with, string_of, trim,
    trim_end_matches, trim_start_matches,
};

fn c(s: &str) -> Vec<char> {
    s.chars().collect()
}

fn s(v: Vec<char>) -> String {
    v.into_iter().collect()
}

fn joined(pieces: Vec<Vec<char>>) -> Vec<String> {
    pieces.into_iter().map(s).collect()
}

#[test]
fn strings_and_characters_convert_both_ways() {
    assert_eq!(chars_of("héllo"), vec!['h', 'é', 'l', 'l', 'o']);
    assert_eq!(chars_of(""), Vec::<char>::new());
    assert_eq!(string_of(&vec!['h', 'é', '中']), "hé中");
    assert_eq!(string_of(&Vec::new()), "");
    assert_eq!(chars_of_bytes(&vec![0x41, 0x00, 0xe9, 0xff]), vec!['A', '\0', 'é', 'ÿ']);
}

#[test]
fn decimal_numbers_are_written_without_leading_zeros() {
    assert_eq!(s(decimal_of(0)), "0");
    assert_eq!(s(decimal_of(7)), "7");
    assert_eq!(s(decimal_of(10)), "10");
    assert_eq!(s(decimal_of(1920)), "1920");
    assert_eq!(s(decimal_of(u64::MAX)), "18446744073709551615");
    let mut out = c("n=");
    push_decimal(&mut out, 305);
    assert_eq!(s(out), "n=305");
}

#[test]
fn hexadecimal_numbers_are_written_in_lower_case() {
    assert_eq!(s(hex_of(0)), "0");
    assert_eq!(s(hex_of(9)), "9");
    assert_eq!(s(hex_of(10)), "a");
    assert_eq!(s(hex_of(15)), "f");
    assert_eq!(s(hex_of(16)), "10");
    assert_eq!(s(hex_of(0xdead_beef)), "deadbeef");
    assert_eq!(s(hex_of(u64::MAX)), "ffffffffffffffff");
    for n in [1u64, 255, 256, 4095, 65536, 0x0123_4567_89ab_cdef] {
        assert_eq!(s(hex_of(n)), format!("{:x}", n));
        assert_eq!(s(decimal_of(n)), format!("{}", n));
    }
}

#[test]
fn decimal_numbers_are_read_as_a_whole() {
    assert_eq!(parse_decimal(&c("0"), 100), Some(0));
    assert_eq!(parse_decimal(&c("42"), 100), Some(42));
    assert_eq!(parse_decimal(&c("+42"), 100), Some(42));
    assert_eq!(parse_decimal(&c("0042"), 100), Some(42));
    assert_eq!(parse_decimal(&c("100"), 100), Some(100));
    assert_eq!(parse_decimal(&c("101"), 100), None);
    assert_eq!(parse_decimal(&c(""), 100), None);
    assert_eq!(parse_decimal(&c("+"), 100), None);
    assert_eq!(parse_decimal(&c("-1"), 100), None);
    assert_eq!(parse_decimal(&c("++1"), 100), None);
    assert_eq!(parse_decimal(&c("1+"), 100), None);
    assert_eq!(parse_decimal(&c("4 2"), 100), None);
    assert_eq!(parse_decimal(&c(" 42"), 100), None);
    assert_eq!(parse_decimal(&c("4.2"), 100), None);
    assert_eq!(parse_decimal(&c("٤٢"), 100), None);
    assert_eq!(parse_decimal(&c("18446744073709551615"), u64::MAX), Some(u64::MAX));
    assert_eq!(parse_decimal(&c("18446744073709551616"), u64::MAX), None);
    assert_eq!(parse_decimal(&c("99999999999999999999999"), u64::MAX), None);
    assert_eq!(parse_decimal(&c("4294967295"), u32::MAX as u64), Some(4294967295));
    assert_eq!(parse_decimal(&c("4294967296"), u32::MAX as u64), None);
    assert_eq!(parse_decimal(&c("5"), 0), None);
    assert_eq!(parse_decimal(&c("0"), 0), Some(0));
    for n in [0u32, 1, 9, 10, 4096, u32::MAX] {
        assert_eq!(parse_decimal(&decimal_of(n as u64), u32::MAX as u64), Some(n as u64));
        assert_eq!(format!("{}", n).parse::<u32>().ok(), Some(n));
    }
    for text in ["", "+", "-0", "+7", "007", "4294967296", "1e3", "0x10", " 1"] {
        assert_eq!(
            parse_decimal(&c(text), u32::MAX as u64).map(|n| n as u32),
            text.parse::<u32>().ok(),
            "{:?}",
            text
        );
    }
}

#[test]
fn patterns_are_found_where_they_stand() {
    let text = c("abcabc");
    assert!(matches_at(&text, 0, &c("abc")));
    assert!(matches_at(&text, 3, &c("abc")));
    assert!(!matches_at(&text, 1, &c("abc")));
    assert!(!matches_at(&text, 4, &c("abc")));
    assert!(matches_at(&text, 6, &c("")));
    assert!(!matches_at(&text, 7, &c("")));
    assert!(starts_with(&text, &c("ab")));
    assert!(starts_with(&text, &c("")));
    assert!(!starts_with(&text, &c("b")));
    assert!(!starts_with(&c("a"), &c("ab")));
    assert!(ends_with(&text, &c("bc")));
    assert!(ends_with(&text, &c("")));
    assert!(!ends_with(&text, &c("ab")));
    assert!(!ends_with(&c("c"), &c("bc")));
    assert!(contains(&text, &c("ca")));
    assert!(contains(&text, &c("")));
    assert!(contains(&text, &c("abcabc")));
    assert!(!contains(&text, &c("abcabca")));
    assert!(!contains(&text, &c("cb")));
    assert_eq!(find(&text, &c("bc")), Some(1));
    assert_eq!(find(&text, &c("c")), Some(2));
    assert_eq!(find(&text, &c("")), Some(0));
    assert_eq!(find(&text, &c("x")), None);
    assert_eq!(find(&c(""), &c("")), Some(0));
    assert_eq!(find(&c(""), &c("a")), None);
    assert_eq!(find(&text, &c("abcabc")), Some(0));
    assert!(same_chars(&c("abc"), &c("abc")));
    assert!(!same_chars(&c("abc"), &c("abd")));
    assert!(!same_chars(&c("abc"), &c("ab")));
    assert!(same_chars(&c(""), &c("")));
}

#[test]
fn repeated_patterns_are_trimmed_from_either_end() {
    assert_eq!(s(trim_start_matches(&c("xxabxx"), &c("x"))), "abxx");
    assert_eq!(s(trim_end_matches(&c("xxabxx"), &c("x"))), "xxab");
    assert_eq!(s(trim_start_matches(&c("ababa"), &c("ab"))), "a");
    assert_eq!(s(trim_end_matches(&c("ababa"), &c("ba"))), "a");
    assert_eq!(s(trim_end_matches(&c("aaa"), &c("aa"))), "a");
    assert_eq!(s(trim_start_matches(&c("aaa"), &c("aa"))), "a");
    assert_eq!(s(trim_start_matches(&c("abc"), &c(""))), "abc");
    assert_eq!(s(trim_end_matches(&c("abc"), &c(""))), "abc");
    assert_eq!(s(trim_start_matches(&c("xx"), &c("x"))), "");
    assert_eq!(s(trim_end_matches(&c("xx"), &c("x"))), "");
    assert_eq!(s(trim_start_matches(&c(""), &c("x"))), "");
    for (text, pattern) in [("1KK", "K"), ("[0][0]", "[0]"), ("::a", ":"), ("abc", "abcd")] {
        assert_eq!(s(trim_end_matches(&c(text), &c(pattern))), text.trim_end_matches(pattern));
        assert_eq!(s(trim_start_matches(&c(text), &c(pattern))), text.trim_start_matches(pattern));
    }
}

#[test]
fn white_space_is_trimmed_from_both_ends() {
    assert_eq!(s(trim(&c("  a b \t\n"))), "a b");
    assert_eq!(s(trim(&c("a"))), "a");
    assert_eq!(s(trim(&c(""))), "");
    assert_eq!(s(trim(&c(" \u{a0}\u{3000} "))), "");
    assert_eq!(s(trim(&c("\u{2003}x\u{2003}"))), "x");
}

#[test]
fn characters_are_replaced_by_texts() {
    assert_eq!(s(replace(&c("a%b%%"), '%', &c("%%"))), "a%%b%%%%");
    assert_eq!(s(replace(&c("a-b-c"), '-', &c(""))), "abc");
    assert_eq!(s(replace(&c("abc"), 'x', &c("y"))), "abc");
    assert_eq!(s(replace(&c(""), 'x', &c("y"))), "");
    assert_eq!(s(replace(&c("aaa"), 'a', &c("ba"))), "bababa");
    let mut out = c("ab");
    append(&mut out, &c("cd"));
    append(&mut out, &c(""));
    assert_eq!(s(out), "abcd");
    assert_eq!(s(slice_of(&c("abcdef"), 2, 4)), "cd");
    assert_eq!(s(slice_of(&c("abcdef"), 6, 6)), "");
}

#[test]
fn split_keeps_empty_pieces() {
    assert_eq!(joined(split(&c("a,b,,c"), &c(","))), vec!["a", "b", "", "c"]);
    assert_eq!(joined(split(&c(""), &c(","))), vec![""]);
    assert_eq!(joined(split(&c(","), &c(","))), vec!["", ""]);
    assert_eq!(joined(split(&c("abc"), &c(","))), vec!["abc"]);
    assert_eq!(joined(split(&c("abc"), &c(""))), vec!["abc"]);
    assert_eq!(joined(split(&c("a_b-c d.e"), &c("_- ."))), vec!["a", "b", "c", "d", "e"]);
    assert_eq!(joined(split(&c(";4;"), &c(";?"))), vec!["", "4", ""]);
    for text in ["", "a", ";", "a;b", ";;a;", "x;y;;"] {
        let expected: Vec<String> = text.split(';').map(|p| p.to_string()).collect();
        assert_eq!(joined(split(&c(text), &c(";"))), expected, "{:?}", text);
    }
}

#[test]
fn words_are_what_stands_between_white_space() {
    assert_eq!(joined(split_whitespace(&c("  800 600\n"))), vec!["800", "600"]);
    assert_eq!(joined(split_whitespace(&c("a"))), vec!["a"]);
    assert_eq!(joined(split_whitespace(&c("a\tb  c"))), vec!["a", "b", "c"]);
    assert!(split_whitespace(&c("")).is_empty());
    assert!(split_whitespace(&c(" \t\n")).is_empty());
    for text in ["", " ", "a", " a", "a ", "a b", "  a  b  ", "\u{a0}x\u{2003}y"] {
        let expected: Vec<String> = text.split_whitespace().map(|p| p.to_string()).collect();
        assert_eq!(joined(split_whitespace(&c(text))), expected, "{:?}", text);
    }
}

#[test]
fn control_characters_are_masked() {
    assert_eq!(s(mask_controls(&c("a\u{0}b\u{1f}c\u{7f}d"))), "a?b?c?d");
    assert_eq!(s(mask_controls(&c(" ~\u{80}\u{9f}é"))), " ~\u{80}\u{9f}é");
    for code in 0u32..300 {
        let ch = char::from_u32(code).unwrap();
        let masked = mask_controls(&vec![ch]);
        assert_eq!(masked[0] == '?' && ch != '?', ch.is_ascii_control(), "{}", code);
    }
}

#[test]
fn hexadecimal_digits_are_told_in_either_case() {
    for ch in "0123456789abcdefABCDEF".chars() {
        assert!(is_hex(ch));
    }
    for ch in "gG/:@`xX ٣".chars() {
        assert!(!is_hex(ch));
    }
    assert_eq!(hex_prefix(&c("1c2dzz")), 4);
    assert_eq!(hex_prefix(&c("zz")), 0);
    assert_eq!(hex_prefix(&c("")), 0);
    assert_eq!(hex_prefix(&c("abcdef")), 6);
}

#[test]
fn membership_in_lists() {
    assert!(is_one_of('b', &c("abc")));
    assert!(!is_one_of('d', &c("abc")));
    assert!(!is_one_of('a', &c("")));
    assert!(any_is(&vec![c("1"), c("4"), c("6")], &c("4")));
    assert!(!any_is(&vec![c("1"), c("44"), c("6")], &c("4")));
    assert!(!any_is(&Vec::new(), &c("4")));
}

#[test]
fn coordinates_stop_at_the_largest_one() {
    assert_eq!(add_clamped(1, 2), 3);
    assert_eq!(add_clamped(65535, 0), 65535);
    assert_eq!(add_clamped(65535, 1), 65535);
    assert_eq!(add_clamped(40000, 40000), 65535);
    assert_eq!(add_clamped(65534, 1), 65535);
}

#[test]
fn plain_grid_fills_rows_of_the_given_columns() {
    assert_eq!(plain_grid_rows(0, 3), 0);
    assert_eq!(plain_grid_rows(1, 3), 1);
    assert_eq!(plain_grid_rows(3, 3), 1);
    assert_eq!(plain_grid_rows(4, 3), 2);
    assert_eq!(plain_grid_rows(7, 1), 7);
    assert_eq!(plain_grid_rows(65535, 1), 65535);
    assert_eq!(plain_grid_rows(65536, 1), 65535);
    assert_eq!(plain_grid_rows(usize::MAX, 1), 65535);
    assert_eq!(plain_grid_rows(usize::MAX, 65535), 65535);
    let area = Area { x: 2, y: 1, width: 90, height: 40 };
    let rows = plain_grid_rows(7, 3);
    assert_eq!(rows, 3);
    assert_eq!(plain_grid_cell(area, 3, rows, 0), Area { x: 2, y: 1, width: 30, height: 13 });
    assert_eq!(plain_grid_cell(area, 3, rows, 2), Area { x: 62, y: 1, width: 30, height: 13 });
    assert_eq!(plain_grid_cell(area, 3, rows, 4), Area { x: 32, y: 14, width: 30, height: 13 });
    assert_eq!(plain_grid_cell(area, 3, rows, 6), Area { x: 2, y: 27, width: 30, height: 13 });
    // Without rows the cells are as tall as the area.
    assert_eq!(plain_grid_cell(area, 3, 0, 1), Area { x: 32, y: 1, width: 30, height: 40 });
    // Far beyond the area the coordinates stop at the largest one.
    assert_eq!(
        plain_grid_cell(area, 3, rows, 30000),
        Area { x: 2, y: 65535, width: 30, height: 13 }
    );
    let flat = Area { x: 0, y: 9, width: 10, height: 0 };
    assert_eq!(plain_grid_cell(flat, 2, 5, 7), Area { x: 5, y: 9, width: 5, height: 0 });
}

#[test]
fn white_space_is_the_unicode_property() {
    let listed = |c: char| {
        let u = c as u32;
        (0x09..=0x0D).contains(&u)
            || [0x20, 0x85, 0xA0, 0x1680, 0x2028, 0x2029, 0x202F, 0x205F, 0x3000].contains(&u)
            || (0x2000..=0x200A).contains(&u)
    };
    let mut count = 0;
    for code in 0u32..=0x10FFFF {
        if let Some(ch) = char::from_u32(code) {
            assert_eq!(ch.is_whitespace(), listed(ch), "U+{:04X}", code);
            assert_eq!(trim(&vec![ch]).is_empty(), listed(ch), "U+{:04X}", code);
            if listed(ch) {
                count += 1;
            }
        }
    }
    assert_eq!(count, 25);
    assert_eq!(joined(split_whitespace(&c("a\u{85}b\u{200b}c\u{3000}d"))), vec!["a", "b\u{200b}c", "d"]);
}
