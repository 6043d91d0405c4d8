//! Text, numerals and their laws on single values.
use rusplorer::numerals::{parse_number, push_le32, read_le16, read_le32, to_decimal, to_hex, to_padded};
use rusplorer::text::{
    chars_of, eq_but_case, find_from, find_last, has_part, has_prefix, has_suffix, replace_char,
    split_at_each, text_between, text_of, to_ascii_lower, trim,
};

#[test]
fn text_is_cut_and_joined_by_characters() {
    let v = chars_of("h\u{e9}llo");
    assert_eq!(v.len(), 5);
    assert_eq!(text_between(&v, 1, 3), "\u{e9}l");
    assert_eq!(text_of(&v), "h\u{e9}llo");
    assert_eq!(rusplorer::text::joined("a", "b\u{1F4C1}"), "ab\u{1F4C1}");
}

#[test]
fn beginnings_ends_and_parts_are_found() {
    assert!(has_prefix("[..] Parent", "[..]"));
    assert!(!has_prefix("[.", "[..]"));
    assert!(has_suffix("a.lnk", ".lnk"));
    assert!(!has_suffix("lnk", ".lnk"));
    assert!(has_part("rusplorer_dev", "dev"));
    assert!(has_part("x", ""));
    assert!(!has_part("de v", "dev"));
}

#[test]
fn positions_of_characters() {
    let v = chars_of("a.b.c");
    assert_eq!(find_last(&v, '.'), Some(3));
    assert_eq!(find_last(&v, 'z'), None);
    assert_eq!(find_from(&v, '.', 2), 3);
    assert_eq!(find_from(&v, 'z', 0), 5);
    let pieces: Vec<String> = split_at_each(&v, '.').iter().map(|c| text_of(c)).collect();
    assert_eq!(pieces, vec!["a", "b", "c"]);
}

#[test]
fn plain_letters_become_small_once_and_for_all() {
    let once = to_ascii_lower("\u{c9}A-Z");
    assert_eq!(once, "\u{c9}a-z");
    assert_eq!(to_ascii_lower(&once), once);
    assert!(eq_but_case("AbC", "aBc"));
    assert!(!eq_but_case("\u{c9}", "\u{e9}"));
}

#[test]
fn white_space_is_trimmed_at_both_ends() {
    assert_eq!(trim(" \t a b\u{3000}\n"), "a b");
    assert_eq!(trim("  "), "");
    assert_eq!(replace_char("a\\b\\c", '\\', '/'), "a/b/c");
}

#[test]
fn numbers_are_written_in_decimal() {
    assert_eq!(to_decimal(0), "0");
    assert_eq!(to_decimal(18446744073709551615), "18446744073709551615");
    assert_eq!(to_padded(7, 2), "07");
    assert_eq!(to_padded(2026, 4), "2026");
    assert_eq!(to_padded(12345, 4), "12345");
}

#[test]
fn a_written_number_is_read_back() {
    let written = chars_of(&to_decimal(90210));
    assert_eq!(parse_number(&written, 10, u64::MAX), Some(90210));
    assert_eq!(parse_number(&chars_of("ff"), 16, 255), Some(255));
    assert_eq!(parse_number(&chars_of("100"), 16, 255), None);
    assert_eq!(parse_number(&chars_of(""), 10, 9), None);
    assert_eq!(parse_number(&chars_of("1x"), 10, 99), None);
}

#[test]
fn different_bytes_have_different_hex() {
    assert_eq!(to_hex(&[0x00, 0xab, 0x0f]), "00ab0f");
    assert_ne!(to_hex(&[1]), to_hex(&[16]));
    assert_eq!(to_hex(&[]), "");
}

#[test]
fn little_endian_numbers_are_read_back() {
    let mut out: Vec<u8> = Vec::new();
    push_le32(&mut out, 0xdeadbeef);
    assert_eq!(out, vec![0xef, 0xbe, 0xad, 0xde]);
    assert_eq!(read_le32(&out, 0), 0xdeadbeef);
    assert_eq!(read_le16(&out, 2), 0xdead);
}
