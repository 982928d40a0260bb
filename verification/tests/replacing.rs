use cosmic_edit::config::Config;
use cosmic_edit::replace::{char_index_of, replace_all, replace_once, replace_span};
use cosmic_edit::tab::CursorPosition;

fn doc(lines: &[&str]) -> Vec<String> {
    lines.iter().map(|s| s.to_string()).collect()
}

#[test]
fn byte_offsets_name_characters() {
    assert_eq!(char_index_of("héllo", 0), Some(0));
    assert_eq!(char_index_of("héllo", 1), Some(1));
    assert_eq!(char_index_of("héllo", 2), None);
    assert_eq!(char_index_of("héllo", 3), Some(2));
    assert_eq!(char_index_of("héllo", 6), Some(5));
    assert_eq!(char_index_of("héllo", 7), None);
}

#[test]
fn span_replaced_within_a_line() {
    let lines = doc(&["one two three"]);
    let (after, cursor) = replace_span(&lines, CursorPosition::new(0, 4), CursorPosition::new(0, 7), "2").unwrap();
    assert_eq!(after, doc(&["one 2 three"]));
    assert_eq!(cursor, CursorPosition::new(0, 5));
}

#[test]
fn span_replaced_across_lines_and_with_line_breaks() {
    let lines = doc(&["ab", "cd", "ef"]);
    let (after, cursor) = replace_span(&lines, CursorPosition::new(0, 1), CursorPosition::new(1, 1), "X").unwrap();
    assert_eq!(after, doc(&["aXd", "ef"]));
    assert_eq!(cursor, CursorPosition::new(0, 2));
    let (after, cursor) = replace_span(&lines, CursorPosition::new(1, 1), CursorPosition::new(1, 1), "1\n2\n3").unwrap();
    assert_eq!(after, doc(&["ab", "c1", "2", "3d", "ef"]));
    assert_eq!(cursor, CursorPosition::new(3, 1));
    let (after, cursor) = replace_span(&lines, CursorPosition::new(0, 2), CursorPosition::new(1, 0), "").unwrap();
    assert_eq!(after, doc(&["abcd", "ef"]));
    assert_eq!(cursor, CursorPosition::new(0, 2));
}

#[test]
fn span_off_the_document_is_refused() {
    let lines = doc(&["é", "x"]);
    assert!(replace_span(&lines, CursorPosition::new(0, 1), CursorPosition::new(0, 2), "").is_none());
    assert!(replace_span(&lines, CursorPosition::new(0, 2), CursorPosition::new(0, 0), "").is_none());
    assert!(replace_span(&lines, CursorPosition::new(1, 0), CursorPosition::new(0, 0), "").is_none());
    assert!(replace_span(&lines, CursorPosition::new(0, 0), CursorPosition::new(2, 0), "").is_none());
}

#[test]
fn one_replacement_from_the_cursor() {
    let c = Config::default();
    let re = c.find_regex("cat").unwrap();
    let lines = doc(&["cat cat", "cat"]);
    let (after, cursor) = replace_once(&re, &lines, CursorPosition::new(0, 1), "dog", false).unwrap();
    assert_eq!(after, doc(&["cat dog", "cat"]));
    assert_eq!(cursor, CursorPosition::new(0, 7));
    let (after, _) = replace_once(&re, &doc(&["x", "cat"]), CursorPosition::new(1, 1), "dog", true).unwrap();
    assert_eq!(after, doc(&["x", "dog"]));
    assert!(replace_once(&re, &doc(&["x", "cat"]), CursorPosition::new(1, 1), "dog", false).is_none());
}

#[test]
fn replace_all_replaces_every_match() {
    let c = Config::default();
    let re = c.find_regex("a").unwrap();
    let (after, count) = replace_all(&re, doc(&["banana", "apple", "kiwi"]), "o", 100);
    assert_eq!(after, doc(&["bonono", "opple", "kiwi"]));
    assert_eq!(count, 4);
    let (after, count) = replace_all(&re, doc(&["aaa"]), "aa", 100);
    assert_eq!(after, doc(&["aaaaaa"]));
    assert_eq!(count, 3);
    let (after, count) = replace_all(&re, doc(&["banana"]), "o", 2);
    assert_eq!(after, doc(&["bonona"]));
    assert_eq!(count, 2);
}
