use std::collections::VecDeque;

use cosmic_edit::actions::{
    escape, next_tab_position, prev_tab_position, tab_jump_position, toggle_context_page, zoom_in, zoom_out, Action,
    ContextPage, Find,
};
use cosmic_edit::config::{push_recent, AppTheme, Config, ConfigState, RECENT_LIMIT};
use cosmic_edit::key_bind::{action_for, has_modifier, key_binds, modifiers_match, BindKey, KeyBind, Modifier};
use cosmic_edit::project::{ProjectNode, ProjectNodeError};
use cosmic_edit::render::{draw_rect, gutter_numbers, scrollbar_span, Canvas, Offset};
use cosmic_edit::stats::{document_statistics, is_whitespace, statistics_of_clusters, DocumentStatistics};
use cosmic_edit::tab::{
    clamp_cursor, closest_cursor_index, floor_char_boundary, content_unchanged, document_text, existing_tab, find_match, line_matches,
    reload_cursor, replace_range, replace_target, search_document, tab_title, title_with_parent, CursorPosition,
    LineEnding,
};
use cosmic_edit::text_input::{
    is_control, named_key_actions, next_click_kind, text_key_action, ClickKind, EditorAction, KeyModifiers, Motion,
    NamedKey,
};

fn mods(control: bool, shift: bool, alt: bool, logo: bool) -> KeyModifiers {
    KeyModifiers { control, shift, alt, logo }
}

fn matches() -> Vec<Vec<(usize, usize)>> {
    vec![vec![(0, 3)], vec![(2, 5), (8, 11)], vec![]]
}

#[test]
fn tab_titles() {
    assert_eq!(tab_title(Some("/src/foo/mod.rs"), "New document"), "foo/mod.rs");
    assert_eq!(tab_title(Some("/a/b.txt"), "New document"), "b.txt");
    assert_eq!(tab_title(None, "New document"), "New document");
    assert_eq!(tab_title(Some("/"), "New document"), "/");
    assert_eq!(title_with_parent("mod.rs", "mod.rs"), "mod.rs");
}

#[test]
fn cursor_snaps_to_closest_boundary() {
    assert_eq!(closest_cursor_index("héllo", 2), 3);
    assert_eq!(closest_cursor_index("héllo", 0), 0);
    assert_eq!(closest_cursor_index("héllo", 6), 6);
    assert_eq!(closest_cursor_index("a€b", 2), 1);
    assert_eq!(closest_cursor_index("", 5), 0);
}

#[test]
fn cursor_after_reload_and_clamp() {
    let lines = vec!["ab".to_string(), "héllo".to_string()];
    assert_eq!(reload_cursor(&lines, CursorPosition::new(5, 2)), CursorPosition { line: 1, index: 3 });
    assert_eq!(reload_cursor(&lines, CursorPosition::new(0, 1)), CursorPosition { line: 0, index: 1 });
    let doc = vec!["abc".to_string(), String::new()];
    assert_eq!(clamp_cursor(&doc, 5, 9), Some(CursorPosition { line: 1, index: 0 }));
    let doc = vec!["abc".to_string(), "abcdefg".to_string()];
    assert_eq!(clamp_cursor(&doc, 0, 9), Some(CursorPosition { line: 0, index: 3 }));
    assert_eq!(clamp_cursor(&doc, 1, 4), Some(CursorPosition { line: 1, index: 4 }));
    assert_eq!(clamp_cursor(&vec![], 0, 0), None);
    assert_eq!(CursorPosition::default(), CursorPosition::new(0, 0));
}

#[test]
fn clamped_cursor_lands_on_a_character_boundary() {
    let doc = vec!["é".to_string()];
    assert_eq!(clamp_cursor(&doc, 0, 1), Some(CursorPosition { line: 0, index: 0 }));
    assert_eq!(clamp_cursor(&doc, 0, 2), Some(CursorPosition { line: 0, index: 2 }));
    assert_eq!(clamp_cursor(&doc, 0, 7), Some(CursorPosition { line: 0, index: 2 }));
    let doc = vec!["a€b".to_string()];
    assert_eq!(clamp_cursor(&doc, 0, 3), Some(CursorPosition { line: 0, index: 1 }));
    assert_eq!(clamp_cursor(&doc, 0, 4), Some(CursorPosition { line: 0, index: 4 }));
    assert_eq!(floor_char_boundary("a€b", 2), 1);
    assert_eq!(floor_char_boundary("a€b", 5), 5);
}

#[test]
fn search_forwards() {
    let m = matches();
    assert_eq!(find_match(&m, CursorPosition::new(1, 2), false, true, false), Some((1, 2, 5)));
    assert_eq!(find_match(&m, CursorPosition::new(1, 2), true, true, false), Some((1, 8, 11)));
    assert_eq!(find_match(&m, CursorPosition::new(1, 9), true, true, false), None);
    assert_eq!(find_match(&m, CursorPosition::new(1, 9), true, true, true), Some((0, 0, 3)));
    assert_eq!(find_match(&m, CursorPosition::new(3, 0), false, true, true), None);
}

#[test]
fn search_backwards() {
    let m = matches();
    assert_eq!(find_match(&m, CursorPosition::new(1, 9), true, false, false), Some((1, 8, 11)));
    assert_eq!(find_match(&m, CursorPosition::new(1, 8), true, false, false), Some((1, 2, 5)));
    assert_eq!(find_match(&m, CursorPosition::new(1, 8), false, false, false), Some((1, 8, 11)));
    assert_eq!(find_match(&m, CursorPosition::new(1, 2), true, false, false), Some((0, 0, 3)));
    assert_eq!(find_match(&m, CursorPosition::new(0, 0), true, false, false), None);
    assert_eq!(find_match(&m, CursorPosition::new(0, 0), true, false, true), Some((1, 8, 11)));
}

#[test]
fn search_wraps_back_to_earlier_match_on_cursor_line() {
    let m = vec![vec![(1, 2)], vec![]];
    assert_eq!(find_match(&m, CursorPosition::new(0, 5), true, true, true), Some((0, 1, 2)));
    assert_eq!(find_match(&m, CursorPosition::new(0, 5), true, true, false), None);
}

#[test]
fn search_without_matches_finds_nothing() {
    let m: Vec<Vec<(usize, usize)>> = vec![vec![], vec![]];
    for forwards in [false, true] {
        for wrap in [false, true] {
            assert_eq!(find_match(&m, CursorPosition::new(1, 0), false, forwards, wrap), None);
        }
    }
}

#[test]
fn replacement_ranges() {
    let m = matches();
    let lens = vec![3, 12, 0];
    assert_eq!(
        replace_range(&m, &lens, CursorPosition::new(1, 3), false),
        Some((CursorPosition::new(1, 8), CursorPosition::new(1, 11)))
    );
    assert_eq!(
        replace_range(&m, &lens, CursorPosition::new(1, 2), false),
        Some((CursorPosition::new(1, 2), CursorPosition::new(1, 5)))
    );
    assert_eq!(replace_range(&m, &lens, CursorPosition::new(1, 9), false), None);
    let empty_line = vec![vec![(0, 3)], vec![(0, 0)]];
    assert_eq!(
        replace_range(&empty_line, &vec![3, 0], CursorPosition::new(1, 0), false),
        Some((CursorPosition::new(0, 3), CursorPosition::new(1, 0)))
    );
    let first_empty = vec![vec![(0, 0)], vec![]];
    assert_eq!(
        replace_range(&first_empty, &vec![0, 4], CursorPosition::new(0, 0), false),
        Some((CursorPosition::new(0, 0), CursorPosition::new(1, 0)))
    );
}

#[test]
fn tab_positions() {
    assert_eq!(tab_jump_position(0, 3), 0);
    assert_eq!(tab_jump_position(8, 3), 2);
    assert_eq!(tab_jump_position(5, 3), 2);
    assert_eq!(tab_jump_position(8, 20), 19);
    assert_eq!(next_tab_position(2, 3), 0);
    assert_eq!(next_tab_position(0, 3), 1);
    assert_eq!(prev_tab_position(Some(0), 3), 2);
    assert_eq!(prev_tab_position(Some(2), 3), 1);
    assert_eq!(prev_tab_position(None, 3), 2);
    assert_eq!(prev_tab_position(None, 0), 0);
}

#[test]
fn next_then_previous_tab_returns() {
    for len in 1usize..5 {
        for active in 0..len {
            assert_eq!(prev_tab_position(Some(next_tab_position(active, len)), len), active);
        }
    }
}

#[test]
fn zoom_steps_saturate() {
    assert_eq!(zoom_in(0), 1);
    assert_eq!(zoom_in(i8::MAX), i8::MAX);
    assert_eq!(zoom_out(0), -1);
    assert_eq!(zoom_out(i8::MIN), i8::MIN);
    assert_eq!(zoom_out(zoom_in(5)), 5);
}

#[test]
fn key_binding_lookup() {
    let binds = key_binds();
    assert_eq!(binds.len(), 30);
    assert_eq!(action_for(&binds, false, true, false, false, BindKey::Character('s')), Some(Action::Save));
    assert_eq!(action_for(&binds, false, true, false, true, BindKey::Character('z')), Some(Action::Redo));
    assert_eq!(action_for(&binds, false, true, false, false, BindKey::Character('z')), Some(Action::Undo));
    assert_eq!(action_for(&binds, false, false, true, false, BindKey::Character('z')), Some(Action::ToggleWordWrap));
    assert_eq!(action_for(&binds, false, true, false, false, BindKey::Tab), Some(Action::TabNext));
    assert_eq!(action_for(&binds, false, true, false, true, BindKey::Tab), Some(Action::TabPrev));
    assert_eq!(action_for(&binds, false, true, false, false, BindKey::Character('9')), Some(Action::TabActivate8));
    assert_eq!(action_for(&binds, true, true, false, false, BindKey::Character('s')), None);
    assert_eq!(action_for(&binds, false, false, false, false, BindKey::Character('s')), None);
}

#[test]
fn no_key_press_triggers_two_bindings() {
    let binds = key_binds();
    for (i, (a, _)) in binds.iter().enumerate() {
        for (b, _) in binds.iter().skip(i + 1) {
            let same_mods = [Modifier::Super, Modifier::Ctrl, Modifier::Alt, Modifier::Shift]
                .iter()
                .all(|m| a.modifiers.contains(m) == b.modifiers.contains(m));
            assert!(!(same_mods && a.key == b.key));
        }
    }
}

#[test]
fn modifier_matching() {
    let required = vec![Modifier::Ctrl, Modifier::Shift];
    assert!(has_modifier(&required, Modifier::Shift));
    assert!(!has_modifier(&required, Modifier::Alt));
    assert!(modifiers_match(&required, false, true, false, true));
    assert!(!modifiers_match(&required, false, true, false, false));
    let bind = KeyBind { modifiers: vec![Modifier::Alt], key: BindKey::Character('z') };
    assert!(bind.matches(false, false, true, false, BindKey::Character('z')));
    assert!(!bind.matches(false, false, true, false, BindKey::Character('y')));
}

#[test]
fn arrow_keys_move_and_select() {
    let (a, used) = named_key_actions(NamedKey::ArrowLeft, mods(false, false, false, false), false);
    assert!(used);
    assert_eq!(a, vec![EditorAction::Motion(Motion::Left)]);
    let (a, _) = named_key_actions(NamedKey::ArrowLeft, mods(true, true, false, false), false);
    assert_eq!(a, vec![EditorAction::SelectFromCursor, EditorAction::Motion(Motion::LeftWord)]);
    let (a, _) = named_key_actions(NamedKey::End, mods(true, false, false, false), true);
    assert_eq!(a, vec![EditorAction::ClearSelection, EditorAction::Motion(Motion::BufferEnd)]);
    let (a, _) = named_key_actions(NamedKey::PageDown, mods(true, true, false, false), true);
    assert_eq!(a, vec![EditorAction::Motion(Motion::PageDown)]);
}

#[test]
fn deleting_words_and_other_keys() {
    let (a, _) = named_key_actions(NamedKey::Backspace, mods(true, false, false, false), false);
    assert_eq!(a, vec![EditorAction::SelectFromCursor, EditorAction::Motion(Motion::LeftWord), EditorAction::Backspace]);
    let (a, _) = named_key_actions(NamedKey::Delete, mods(true, false, false, false), true);
    assert_eq!(a, vec![EditorAction::Delete]);
    let (a, used) = named_key_actions(NamedKey::Tab, mods(false, true, false, false), false);
    assert!(used);
    assert_eq!(a, vec![EditorAction::Unindent]);
    let (a, used) = named_key_actions(NamedKey::Tab, mods(true, false, false, false), false);
    assert!(!used);
    assert!(a.is_empty());
    let (a, used) = named_key_actions(NamedKey::Other, mods(false, false, false, false), false);
    assert!(!used && a.is_empty());
    assert_eq!(named_key_actions(NamedKey::Enter, mods(false, false, false, false), false).0, vec![EditorAction::Enter]);
}

#[test]
fn typed_characters() {
    assert_eq!(text_key_action('a', mods(false, true, false, false)), (Some(EditorAction::Insert('a')), true));
    assert_eq!(text_key_action('\u{7}', mods(false, false, false, false)), (None, true));
    assert_eq!(text_key_action('a', mods(true, false, false, false)), (None, false));
    assert_eq!(text_key_action('a', mods(false, false, false, true)), (None, false));
    for c in ['\0', '\n', '\u{7f}', '\u{85}', 'a', ' ', 'é'] {
        assert_eq!(is_control(c), c.is_control());
    }
}

#[test]
fn clicks_cycle() {
    let first = next_click_kind(None, true);
    assert_eq!(first, ClickKind::Single);
    let second = next_click_kind(Some(first), true);
    assert_eq!(second, ClickKind::Double);
    let third = next_click_kind(Some(second), true);
    assert_eq!(third, ClickKind::Triple);
    assert_eq!(next_click_kind(Some(third), true), ClickKind::Single);
    assert_eq!(next_click_kind(Some(ClickKind::Double), false), ClickKind::Single);
}

#[test]
fn rectangles_are_clipped_and_swizzled() {
    let mut buffer = vec![0u32; 12];
    draw_rect(&mut buffer, Canvas { w: 4, h: 3 }, Canvas { w: 2, h: 5 }, Offset { x: 1, y: 1 }, 0xFF11_2233);
    for (i, px) in buffer.iter().enumerate() {
        let (x, y) = (i % 4, i / 4);
        let inside = (1..3).contains(&x) && (1..3).contains(&y);
        assert_eq!(*px, if inside { 0xFF33_2211 } else { 0 });
    }
}

#[test]
fn rectangles_blend_and_skip_transparent() {
    let mut buffer = vec![0xFF00_00FFu32; 4];
    draw_rect(&mut buffer, Canvas { w: 2, h: 2 }, Canvas { w: 2, h: 2 }, Offset { x: 0, y: 0 }, 0x0012_3456);
    assert_eq!(buffer, vec![0xFF00_00FF; 4]);
    draw_rect(&mut buffer, Canvas { w: 2, h: 2 }, Canvas { w: 1, h: 1 }, Offset { x: -1, y: -1 }, 0x80FF_0000);
    assert_eq!(buffer, vec![0xFF00_00FF; 4]);
    draw_rect(&mut buffer, Canvas { w: 2, h: 2 }, Canvas { w: 1, h: 1 }, Offset { x: 1, y: 0 }, 0x80FF_0000);
    assert_eq!(buffer, vec![0xFF00_00FF, 0xFE00_00FE, 0xFF00_00FF, 0xFF00_00FF]);
    let mut empty = vec![0u32; 1];
    draw_rect(&mut empty, Canvas { w: 1, h: 1 }, Canvas { w: 1, h: 1 }, Offset { x: 0, y: 0 }, 0x80FF_0000);
    assert_eq!(empty, vec![0x8000_00FF]);
}

#[test]
fn statistics_of_a_document() {
    let lines = vec!["Hello  world".to_string(), String::new(), " a\u{301}b ".to_string()];
    assert_eq!(
        document_statistics(&lines),
        DocumentStatistics { word_count: 3, character_count: 16, character_count_no_spaces: 12, line_count: 3 }
    );
}

#[test]
fn statistics_never_count_more_words_than_letters() {
    for text in ["", " ", "a b  c", "\u{3000}x\u{2028}y", "🇷🇺🇸🇹 e\u{301}"] {
        let s = document_statistics(&vec![text.to_string()]);
        assert!(s.word_count <= s.character_count_no_spaces);
        assert!(s.character_count_no_spaces <= s.character_count);
    }
}

#[test]
fn statistics_of_given_clusters() {
    let lines = vec![vec!["a".to_string(), " ".to_string(), "\r\n".to_string(), "b".to_string()]];
    assert_eq!(
        statistics_of_clusters(&lines),
        DocumentStatistics { word_count: 2, character_count: 4, character_count_no_spaces: 2, line_count: 1 }
    );
}

#[test]
fn white_space_is_unicode_white_space() {
    for c in ['\t', '\n', '\u{b}', '\u{c}', '\r', ' ', '\u{85}', '\u{a0}', '\u{1680}', '\u{2000}', '\u{200a}', '\u{2028}', '\u{2029}', '\u{202f}', '\u{205f}', '\u{3000}', 'a', '\u{200b}', '\u{feff}', '\u{180e}'] {
        assert_eq!(is_whitespace(c), c.is_whitespace(), "{:?}", c);
    }
}

#[test]
fn app_theme_positions() {
    for t in [AppTheme::Dark, AppTheme::Light, AppTheme::System] {
        assert_eq!(AppTheme::from_index(t.index()), t);
    }
    assert_eq!(AppTheme::System.index(), 0);
}

#[test]
fn config_defaults_and_themes() {
    let c = Config::default();
    assert_eq!(c.syntax_theme(true), "COSMIC Dark");
    assert_eq!(c.syntax_theme(false), "COSMIC Light");
    assert_eq!(c.font_size, 14);
    assert_eq!(c.tab_width, 4);
    assert!(!c.find_use_regex);
}

#[test]
fn find_patterns_and_regexes() {
    let mut c = Config::default();
    assert_eq!(c.find_pattern("a.b"), "a\\.b");
    assert_eq!(c.find_pattern("a.b"), regex::escape("a.b"));
    let re = c.find_regex("A.B").unwrap();
    assert!(re.is_match("xa.by"));
    assert!(!re.is_match("axb"));
    c.find_case_sensitive = true;
    assert!(!c.find_regex("A.B").unwrap().is_match("a.b"));
    c.find_use_regex = true;
    assert_eq!(c.find_pattern("a.b"), "a.b");
    assert!(c.find_regex("(").is_err());
    assert!(c.find_regex("a.b").unwrap().is_match("axb"));
}

#[test]
fn recent_list_compares_entries_as_paths() {
    let mut list: VecDeque<String> = ["/a/b/", "/c"].iter().map(|s| s.to_string()).collect();
    push_recent(&mut list, "/a/b".to_string());
    assert_eq!(list, ["/a/b", "/c"].iter().map(|s| s.to_string()).collect::<VecDeque<_>>());
    push_recent(&mut list, "/c/./".to_string());
    assert_eq!(list, ["/c/./", "/a/b"].iter().map(|s| s.to_string()).collect::<VecDeque<_>>());
}

#[test]
fn recent_list_moves_path_to_front() {
    let mut list: VecDeque<String> = ["a", "b", "c"].iter().map(|s| s.to_string()).collect();
    push_recent(&mut list, "b".to_string());
    assert_eq!(list, ["b", "a", "c"].iter().map(|s| s.to_string()).collect::<VecDeque<_>>());
    push_recent(&mut list, "b".to_string());
    assert_eq!(list, ["b", "a", "c"].iter().map(|s| s.to_string()).collect::<VecDeque<_>>());
}

#[test]
fn recent_list_is_capped() {
    let mut state = ConfigState::default();
    for i in 0..15 {
        push_recent(&mut state.recent_files, format!("/f{}", i));
    }
    assert_eq!(state.recent_files.len(), RECENT_LIMIT);
    assert_eq!(state.recent_files[0], "/f14");
    assert_eq!(state.recent_files[9], "/f5");
}

#[test]
fn project_nodes() {
    let folder = ProjectNode::new("/p/src", true).unwrap();
    assert_eq!(folder.name(), "src");
    assert_eq!(folder.icon_name(), "go-next-symbolic");
    let file = ProjectNode::new("/p/src/main.rs", false).unwrap();
    assert_eq!(file.name(), "main.rs");
    assert_eq!(file.icon_name(), "text-x-generic");
    assert!(folder.folder_before_file(&file));
    assert!(!file.folder_before_file(&folder));
    assert_eq!(ProjectNode::new("/", true), Err(ProjectNodeError::NoFileName));
    let open = ProjectNode::Folder { name: "x".to_string(), path: "/x".to_string(), open: true, root: true };
    assert_eq!(open.icon_name(), "go-down-symbolic");
}

#[test]
fn document_search_uses_find_settings() {
    let config = Config::default();
    let re = config.find_regex("foo").unwrap();
    let lines = vec!["a foo b".to_string(), "FOO".to_string(), "none".to_string()];
    assert_eq!(line_matches(&re, &lines), vec![vec![(2, 5)], vec![(0, 3)], vec![]]);
    assert_eq!(search_document(&re, &lines, CursorPosition::new(0, 3), false, true, false), Some((1, 0, 3)));
    assert_eq!(search_document(&re, &lines, CursorPosition::new(0, 2), false, true, false), Some((0, 2, 5)));
    assert_eq!(search_document(&re, &lines, CursorPosition::new(2, 0), false, true, false), None);
    assert_eq!(search_document(&re, &lines, CursorPosition::new(2, 0), false, true, true), Some((0, 2, 5)));
    assert_eq!(search_document(&re, &lines, CursorPosition::new(1, 0), true, false, false), Some((0, 2, 5)));
}

#[test]
fn document_replacement_targets() {
    let mut config = Config::default();
    config.find_use_regex = true;
    let re = config.find_regex("^$").unwrap();
    let lines = vec!["one".to_string(), String::new(), "three".to_string()];
    assert_eq!(
        replace_target(&re, &lines, CursorPosition::new(0, 1), false),
        Some((CursorPosition::new(0, 3), CursorPosition::new(1, 0)))
    );
    let words = config.find_regex("t[a-z]+").unwrap();
    assert_eq!(
        replace_target(&words, &lines, CursorPosition::new(0, 0), false),
        Some((CursorPosition::new(2, 0), CursorPosition::new(2, 5)))
    );
}

#[test]
fn saved_text_and_change_detection() {
    let lines = vec![("a".to_string(), LineEnding::CrLf), ("b".to_string(), LineEnding::Lf), (String::new(), LineEnding::NoEnding)];
    let text = document_text(&lines);
    assert_eq!(text, "a\r\nb\n");
    assert!(content_unchanged(Some(cosmic_edit::backup::compute_content_hash(&text)), &text));
    assert!(!content_unchanged(Some(1), &text));
    assert!(!content_unchanged(None, &text));
}

#[test]
fn open_files_are_not_opened_twice() {
    let paths = vec![None, Some("/a/b.txt".to_string()), Some("/a/c.txt".to_string())];
    assert_eq!(existing_tab(&paths, "/a/c.txt"), Some(2));
    assert_eq!(existing_tab(&paths, "/a//b.txt"), Some(1));
    assert_eq!(existing_tab(&paths, "/a/d.txt"), None);
}

#[test]
fn gutter_skips_wrapped_continuations() {
    assert_eq!(gutter_numbers(&vec![4, 5, 5, 5, 6]), vec![5, 6, 7]);
    assert_eq!(gutter_numbers(&vec![]), Vec::<usize>::new());
    assert_eq!(gutter_numbers(&vec![usize::MAX, usize::MAX]), vec![usize::MAX]);
}

#[test]
fn scrollbar_thumb_extent() {
    assert_eq!(scrollbar_span(&vec![10, 11, 19], 100, 500), (50, 100));
    assert_eq!(scrollbar_span(&vec![], 1, 300), (0, 300));
    let (start, end) = scrollbar_span(&vec![0, 99], 100, 777);
    assert!(start <= end && end <= 777);
}

#[test]
fn escape_closes_drawer_then_find() {
    assert_eq!(escape(true, Find::Find), (false, Find::Find));
    assert_eq!(escape(false, Find::FindAndReplace), (false, Find::Hidden));
    assert_eq!(escape(false, Find::Hidden), (false, Find::Hidden));
}

#[test]
fn drawer_pages_toggle() {
    assert_eq!(toggle_context_page(ContextPage::Settings, true, ContextPage::Settings), (ContextPage::Settings, false, false));
    assert_eq!(toggle_context_page(ContextPage::Settings, true, ContextPage::GitManagement), (ContextPage::GitManagement, true, true));
    assert_eq!(toggle_context_page(ContextPage::GitManagement, true, ContextPage::GitManagement), (ContextPage::GitManagement, false, false));
    assert_eq!(toggle_context_page(ContextPage::About, false, ContextPage::About), (ContextPage::About, true, false));
}

#[test]
fn asking_twice_for_a_page_restores_the_drawer() {
    for shown in [false, true] {
        let (page, once, _) = toggle_context_page(ContextPage::Settings, shown, ContextPage::Settings);
        let (_, twice, _) = toggle_context_page(page, once, ContextPage::Settings);
        assert_eq!(twice, shown);
    }
}

#[test]
fn found_matches_exist_on_their_line() {
    let m = matches();
    for line in 0..3 {
        for index in 0..12 {
            for sel in [false, true] {
                for fwd in [false, true] {
                    for wrap in [false, true] {
                        if let Some((l, s, e)) = find_match(&m, CursorPosition::new(line, index), sel, fwd, wrap) {
                            assert!(m[l].contains(&(s, e)));
                        }
                    }
                }
            }
        }
    }
}

#[test]
fn search_without_wrap_keeps_its_direction() {
    let m = matches();
    for line in 0..3 {
        for index in 0..12 {
            for sel in [false, true] {
                if let Some((l, _, _)) = find_match(&m, CursorPosition::new(line, index), sel, true, false) {
                    assert!(l >= line);
                }
                if let Some((l, _, _)) = find_match(&m, CursorPosition::new(line, index), sel, false, false) {
                    assert!(l <= line);
                }
            }
        }
    }
}
