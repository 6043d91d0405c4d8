//! UTF-16, texts that end at a zero, and lists of files.
use rusplorer::wide::{
    build_file_list, from_utf16, from_utf16_lossy, parse_file_list, text_before_zero, to_utf16,
    to_wide_z, units_from, units_within,
};

#[test]
fn utf16_is_read_back() {
    let s = "a\u{e9}\u{1F4C1}";
    let w = to_utf16(s);
    assert_eq!(w, vec![0x61, 0xe9, 0xd83d, 0xdcc1]);
    assert_eq!(from_utf16(&w), Some(s.to_string()));
    assert_eq!(from_utf16_lossy(&w), s);
}

#[test]
fn lone_surrogates_are_no_text() {
    assert_eq!(from_utf16(&[0x61, 0xd83d]), None);
    assert_eq!(from_utf16(&[0xdcc1, 0x61]), None);
    assert_eq!(from_utf16_lossy(&[0x61, 0xd83d, 0x62]), "a\u{fffd}b");
    let std_says = String::from_utf16_lossy(&[0xd83d, 0xd83d, 0xdcc1, 0xdc00]);
    assert_eq!(from_utf16_lossy(&[0xd83d, 0xd83d, 0xdcc1, 0xdc00]), std_says);
}

#[test]
fn a_text_that_ends_at_a_zero_is_read_back() {
    let mut w = to_wide_z("C:\\x");
    assert_eq!(w, vec![0x43, 0x3a, 0x5c, 0x78, 0]);
    w.push(0x7a);
    assert_eq!(text_before_zero(&w), "C:\\x");
    assert_eq!(text_before_zero(&vec![0x61, 0x62]), "ab");
    assert_eq!(text_before_zero(&vec![]), "");
}

#[test]
fn units_are_read_back_from_bytes() {
    let data = [0u8, 0x61, 0x00, 0x3d, 0xd8, 0x09];
    assert_eq!(units_from(&data, 1), vec![0x0061, 0xd83d]);
    assert_eq!(units_within(&data, 1, 3), vec![0x0061]);
}

#[test]
fn a_list_of_files_is_read_back() {
    let files = vec!["C:\\a".to_string(), "D:\\\u{1F4C1}".to_string()];
    let data = build_file_list(&files);
    assert_eq!(&data[0..4], &[20, 0, 0, 0]);
    assert_eq!(data[16], 1);
    assert_eq!(parse_file_list(&data), files);
    assert_eq!(parse_file_list(&build_file_list(&Vec::new())), Vec::<String>::new());
}
