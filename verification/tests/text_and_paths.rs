use cosmic_edit::hex::{decimal_digits, format_hex16, hex_digit, parse_hex_u64};
use cosmic_edit::line_number::{decimal_text, line_number_text, LineNumberKey};
use cosmic_edit::menu::{
    char_count, format_recent_menu_path, home_relative_display, recent_menu_label, take_prefix_chars,
    take_suffix_chars, truncate_middle, RECENT_MENU_LABEL_MAX_CHARS,
};
use cosmic_edit::paths::{file_extension, file_stem, join_path};
use cosmic_edit::text::{
    char_len, char_utf8_len, concat2, concat3, ends_with, find_char, split_on, starts_with, str_eq,
    string_from_chars, to_chars,
};

#[test]
fn hex_parses_sixteen_digits() {
    assert_eq!(parse_hex_u64("00000000000000ff"), Some(255));
    assert_eq!(parse_hex_u64("DEADBEEF"), Some(0xdead_beef));
    assert_eq!(parse_hex_u64("ffffffffffffffff"), Some(u64::MAX));
}

#[test]
fn hex_rejects_bad_text() {
    assert_eq!(parse_hex_u64(""), None);
    assert_eq!(parse_hex_u64("xyz"), None);
    assert_eq!(parse_hex_u64("10000000000000000"), None);
    assert_eq!(parse_hex_u64("+"), None);
}

#[test]
fn hex_accepts_leading_plus_like_from_str_radix() {
    assert_eq!(parse_hex_u64("+1f"), Some(31));
    assert_eq!(u64::from_str_radix("+1f", 16).ok(), Some(31));
}

#[test]
fn hex_formats_sixteen_lowercase_digits() {
    assert_eq!(format_hex16(255), "00000000000000ff");
    assert_eq!(format_hex16(0), "0000000000000000");
    assert_eq!(format_hex16(0x0123_4567_89ab_cdef), "0123456789abcdef");
}

#[test]
fn hex_round_trip() {
    for v in [0u64, 1, 42, 0xdead_beef, u64::MAX] {
        assert_eq!(parse_hex_u64(&format_hex16(v)), Some(v));
        assert_eq!(format_hex16(v), format!("{:016x}", v));
    }
}

#[test]
fn hex_digit_values() {
    assert_eq!(hex_digit('0'), Some(0));
    assert_eq!(hex_digit('a'), Some(10));
    assert_eq!(hex_digit('F'), Some(15));
    assert_eq!(hex_digit('g'), None);
}

#[test]
fn decimal_digit_counts() {
    assert_eq!(decimal_digits(0), 1);
    assert_eq!(decimal_digits(9), 1);
    assert_eq!(decimal_digits(10), 2);
    assert_eq!(decimal_digits(999), 3);
    assert_eq!(decimal_digits(1000), 4);
}

#[test]
fn line_numbers_are_right_aligned() {
    assert_eq!(decimal_text(1207), "1207");
    assert_eq!(line_number_text(LineNumberKey { number: 7, width: 3 }), "  7");
    assert_eq!(line_number_text(LineNumberKey { number: 1234, width: 2 }), "1234");
    assert_eq!(line_number_text(LineNumberKey { number: 42, width: 2 }), format!("{:2}", 42));
}

#[test]
fn line_numbers_align_to_last_line() {
    let width = decimal_digits(120);
    for n in [1usize, 9, 10, 99, 120] {
        assert_eq!(line_number_text(LineNumberKey { number: n, width }).chars().count(), 3);
    }
}

#[test]
fn text_prefix_and_suffix() {
    assert!(starts_with("hello world", "hello"));
    assert!(!starts_with("he", "hello"));
    assert!(ends_with("notes.backup", ".backup"));
    assert!(!ends_with("notes.json", ".backup"));
    assert!(str_eq("é", "é"));
    assert!(!str_eq("a", "b"));
}

#[test]
fn text_concat_and_find() {
    assert_eq!(concat2("ab", "cd"), "abcd");
    assert_eq!(concat3("a", "-", "b"), "a-b");
    assert_eq!(find_char("meta\nbody", '\n'), Some(4));
    assert_eq!(find_char("none", '\n'), None);
}

#[test]
fn text_char_helpers() {
    assert_eq!(char_len("héllo"), 5);
    assert_eq!(char_utf8_len('a'), 1);
    assert_eq!(char_utf8_len('é'), 2);
    assert_eq!(char_utf8_len('€'), 3);
    assert_eq!(char_utf8_len('😀'), 4);
    assert_eq!(to_chars("ab"), vec!['a', 'b']);
    assert_eq!(string_from_chars(&vec!['a', 'b', 'c', 'd'], 1, 3), "bc");
}

#[test]
fn text_split_keeps_empty_fields() {
    assert_eq!(split_on("a\0b\0", '\0'), vec!["a".to_string(), "b".to_string(), String::new()]);
    assert_eq!(split_on("", '\0'), vec![String::new()]);
    let expected: Vec<String> = "x\0\0y".split('\0').map(|s| s.to_string()).collect();
    assert_eq!(split_on("x\0\0y", '\0'), expected);
}

#[test]
fn paths_join_like_pathbuf_push() {
    assert_eq!(join_path("/cache", "cosmic-edit"), "/cache/cosmic-edit");
    assert_eq!(join_path("/cache/", "x"), "/cache/x");
    assert_eq!(join_path("/cache", "/abs"), "/abs");
    let mut p = std::path::PathBuf::from("/a/b");
    p.push("c.json");
    assert_eq!(join_path("/a/b", "c.json"), p.to_str().unwrap());
}

#[test]
fn paths_stem_and_extension() {
    assert_eq!(file_stem("00000000000000ff.json"), "00000000000000ff");
    assert_eq!(file_stem(".bashrc"), ".bashrc");
    assert_eq!(file_stem("archive.tar.gz"), "archive.tar");
    assert_eq!(file_extension("a.lock"), Some("lock".to_string()));
    assert_eq!(file_extension(".bashrc"), None);
    assert_eq!(file_extension("noext"), None);
    assert_eq!(file_extension("archive.tar.gz"), Some("gz".to_string()));
}

#[test]
fn menu_char_helpers() {
    assert_eq!(char_count("añb"), 3);
    assert_eq!(take_prefix_chars("héllo", 2), "hé");
    assert_eq!(take_suffix_chars("héllo", 3), "llo");
    assert_eq!(take_suffix_chars("ab", 5), "ab");
}

#[test]
fn truncate_middle_keeps_both_ends() {
    assert_eq!(truncate_middle("abcdefghijklmnopqrstuvwxyz", 10), "abc...wxyz");
    assert_eq!(truncate_middle("short", 10), "short");
    assert_eq!(truncate_middle("abcdefgh", 5), "abcde");
    assert_eq!(truncate_middle("abcdefghijklmnopqrstuvwxyz", 10).chars().count(), 10);
}

#[test]
fn recent_menu_label_short_path_unchanged() {
    assert_eq!(format_recent_menu_path("/home/user/notes.txt", Some("/home/user")), "~/notes.txt");
    assert_eq!(format_recent_menu_path("/etc/hosts", Some("/home/user")), "/etc/hosts");
    assert_eq!(format_recent_menu_path("/etc/hosts", None), "/etc/hosts");
}

#[test]
fn recent_menu_label_long_path_keeps_parent_and_file() {
    let label = format_recent_menu_path("/home/user/projects/very-long-directory-name/src/main.rs", Some("/home/user"));
    assert_eq!(label, "~/projects/very-long-dire.../src/main.rs");
    assert!(label.chars().count() <= RECENT_MENU_LABEL_MAX_CHARS);
}

#[test]
fn recent_menu_label_falls_back_to_middle_cut() {
    let long_name = "x".repeat(60);
    let display = format!("/{}", long_name);
    let label = recent_menu_label(&display, Some(&long_name), None);
    assert_eq!(label, truncate_middle(&display, 40));
    assert_eq!(label.chars().count(), 40);
}

#[test]
fn home_relative_display_prefixes_tilde() {
    assert_eq!(home_relative_display("/home/u/a", Some("a")), "~/a");
    assert_eq!(home_relative_display("/tmp/a", None), "/tmp/a");
}
