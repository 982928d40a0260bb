use cosmic_edit::git::{
    changed_projects, diff_from_output, diff_tab_title, replaced_diff_tabs, status_label, status_marker, DiffRange, GitDiffError, GitDiffLine, GitRepository, GitStatus,
    GitStatusKind, StatusMarker,
};
use cosmic_edit::search::{
    file_search_result, search_matcher, search_plan, search_result_target, unique_roots, FileSearchResult, LineSearchResult, MatchRange,
    ProjectSearchResult,
};
use cosmic_edit::diff_text::patch_input_screened;
use cosmic_edit::tab::CursorPosition;

const DIFF: &str = "--- a/src/lib.rs\n+++ b/src/lib.rs\n@@ -3,3 +3,4 @@\n fn a() {}\n-fn b() {}\n+fn b2() {}\n+fn c() {}\n fn d() {}\n";

#[test]
fn status_letters() {
    assert_eq!(GitStatusKind::try_from_char('M'), Ok(GitStatusKind::Modified));
    assert_eq!(GitStatusKind::try_from_char(' '), Ok(GitStatusKind::Unmodified));
    assert_eq!(GitStatusKind::try_from_char('?'), Ok(GitStatusKind::Untracked));
    assert_eq!(GitStatusKind::try_from_char('m'), Ok(GitStatusKind::SubmoduleModified));
    assert_eq!(GitStatusKind::try_from_char('x'), Err('x'));
}

#[test]
fn status_output_is_parsed() {
    let repo = GitRepository::from_canonical("/repo".to_string());
    let out = " M src/a.rs\0R  new.rs\0old.rs\0?? notes.txt\0XY bad\0";
    let status = repo.parse_status(out);
    assert_eq!(
        status,
        vec![
            GitStatus {
                path: "/repo/src/a.rs".to_string(),
                old_path: None,
                staged: GitStatusKind::Unmodified,
                unstaged: GitStatusKind::Modified,
            },
            GitStatus {
                path: "/repo/new.rs".to_string(),
                old_path: Some("/repo/old.rs".to_string()),
                staged: GitStatusKind::Renamed,
                unstaged: GitStatusKind::Unmodified,
            },
            GitStatus {
                path: "/repo/notes.txt".to_string(),
                old_path: None,
                staged: GitStatusKind::Untracked,
                unstaged: GitStatusKind::Untracked,
            },
        ]
    );
}

#[test]
fn status_rename_without_old_path_ends() {
    let repo = GitRepository::from_canonical("/repo".to_string());
    assert_eq!(repo.parse_status("R  new.rs"), vec![]);
    assert_eq!(repo.parse_status(""), vec![]);
}

#[test]
fn status_markers() {
    assert_eq!(status_marker(GitStatusKind::Untracked, false), Some(StatusMarker::Added));
    assert_eq!(status_marker(GitStatusKind::Untracked, true), None);
    assert_eq!(status_marker(GitStatusKind::Deleted, true), Some(StatusMarker::Deleted));
    assert_eq!(status_marker(GitStatusKind::Renamed, false), Some(StatusMarker::Modified));
    assert_eq!(status_marker(GitStatusKind::Unmodified, false), None);
}

#[test]
fn status_labels_are_relative() {
    let renamed = GitStatus {
        path: "/repo/src/new.rs".to_string(),
        old_path: Some("/repo/old.rs".to_string()),
        staged: GitStatusKind::Renamed,
        unstaged: GitStatusKind::Unmodified,
    };
    assert_eq!(status_label(&renamed, "/repo"), "old.rs -> src/new.rs");
    let outside = GitStatus { path: "/elsewhere/x".to_string(), old_path: None, staged: GitStatusKind::Added, unstaged: GitStatusKind::Unmodified };
    assert_eq!(status_label(&outside, "/repo"), "/elsewhere/x");
}

#[test]
fn diff_lines_are_numbered() {
    let diff = diff_from_output("/repo/src/lib.rs".to_string(), true, DIFF).unwrap();
    assert_eq!(diff.path, "/repo/src/lib.rs");
    assert!(diff.staged);
    assert_eq!(diff.hunks.len(), 1);
    let h = &diff.hunks[0];
    assert_eq!(h.old_range, DiffRange { start: 3, count: 3 });
    assert_eq!(h.new_range, DiffRange { start: 3, count: 4 });
    assert_eq!(
        h.lines,
        vec![
            GitDiffLine::Context { old_line: 3, new_line: 3, text: "fn a() {}".to_string() },
            GitDiffLine::Deleted { old_line: 4, text: "fn b() {}".to_string() },
            GitDiffLine::Added { new_line: 4, text: "fn b2() {}".to_string() },
            GitDiffLine::Added { new_line: 5, text: "fn c() {}".to_string() },
            GitDiffLine::Context { old_line: 5, new_line: 6, text: "fn d() {}".to_string() },
        ]
    );
}

#[test]
fn diff_parse_errors() {
    assert!(matches!(diff_from_output("p".to_string(), false, "not a diff"), Err(GitDiffError::Parse(_))));
}

#[test]
fn diff_line_numbers_past_u64_are_refused() {
    let text = "--- a/x\n+++ b/x\n@@ -18446744073709551615,2 +1,2 @@\n a\n b\n";
    assert_eq!(diff_from_output("x".to_string(), false, text), Err(GitDiffError::LineNumberOverflow));
}

#[test]
fn file_results_keep_matching_lines() {
    let matcher = search_matcher("fo+").unwrap();
    let reported = vec![(1u64, "foo bar".to_string()), (3, "nothing".to_string()), (7, "a fooo".to_string())];
    let result = file_search_result(&matcher, "/p/a.txt".to_string(), reported).unwrap();
    assert_eq!(result.path, "/p/a.txt");
    assert_eq!(result.lines.len(), 2);
    assert_eq!((result.lines[0].number, result.lines[0].first), (1, MatchRange { start: 0, end: 3 }));
    assert_eq!(result.lines[1].text, "a fooo");
    assert_eq!((result.lines[1].number, result.lines[1].first), (7, MatchRange { start: 2, end: 6 }));
}

#[test]
fn file_without_matches_gives_nothing() {
    let matcher = search_matcher("zzz").unwrap();
    assert!(file_search_result(&matcher, "/p/a.txt".to_string(), vec![(1, "abc".to_string())]).is_none());
    assert!(file_search_result(&matcher, "/p/a.txt".to_string(), vec![]).is_none());
}

#[test]
fn bad_search_patterns_are_refused() {
    assert!(search_matcher("(").is_none());
    assert!(search_matcher("a|b").is_some());
}

#[test]
fn project_roots_are_walked_once() {
    let projects = vec![
        ("a".to_string(), "/p/a".to_string()),
        ("b".to_string(), "/p/b".to_string()),
        ("a2".to_string(), "/p/a".to_string()),
    ];
    assert_eq!(unique_roots(&projects), vec!["/p/a".to_string(), "/p/b".to_string()]);
}

#[test]
fn finishing_a_search() {
    let mut search = ProjectSearchResult::new("x".to_string());
    assert!(search.in_progress);
    let files = vec![FileSearchResult { path: "/a".to_string(), lines: vec![] }];
    search.finish(Some(files.clone()));
    assert!(!search.in_progress);
    assert_eq!(search.files, files);
    let mut again = search.clone();
    again.in_progress = true;
    again.finish(None);
    assert!(!again.in_progress);
    assert_eq!(again.files, files);
}

#[test]
fn diff_tabs_are_titled_and_replaced() {
    let diff = diff_from_output("/repo/src/lib.rs".to_string(), true, DIFF).unwrap();
    assert_eq!(diff_tab_title(&diff, "/repo", "Staged changes", "Unstaged changes"), "Staged changes: src/lib.rs");
    let tabs = vec![None, Some("/repo/src/lib.rs".to_string()), Some("/repo/x".to_string()), Some("/repo/src/lib.rs".to_string())];
    assert_eq!(replaced_diff_tabs(&tabs, "/repo/src/lib.rs"), vec![1, 3]);
}

#[test]
fn opening_a_search_result() {
    let mut search = ProjectSearchResult::new("x".to_string());
    search.finish(Some(vec![FileSearchResult {
        path: "/p/a.txt".to_string(),
        lines: vec![LineSearchResult { number: 3, text: "a x".to_string(), first: MatchRange { start: 2, end: 3 } }],
    }]));
    assert_eq!(search_result_target(&search, 0, 0), Some(("/p/a.txt".to_string(), CursorPosition::new(2, 2))));
    assert_eq!(search_result_target(&search, 0, 1), None);
    assert_eq!(search_result_target(&search, 1, 0), None);
}

#[test]
fn empty_searches_are_not_run() {
    assert!(ProjectSearchResult::submit(String::new()).is_none());
    let s = ProjectSearchResult::submit("x".to_string()).unwrap();
    assert!(s.in_progress && s.files.is_empty() && s.value == "x");
}

#[test]
fn only_projects_with_changes_are_listed() {
    let change = GitStatus { path: "/a/x".to_string(), old_path: None, staged: GitStatusKind::Added, unstaged: GitStatusKind::Unmodified };
    let statuses = vec![
        ("a".to_string(), "/a".to_string(), vec![change.clone()]),
        ("b".to_string(), "/b".to_string(), vec![]),
        ("c".to_string(), "/c".to_string(), vec![change.clone(), change.clone()]),
    ];
    let kept: Vec<String> = changed_projects(statuses).into_iter().map(|p| p.0).collect();
    assert_eq!(kept, vec!["a".to_string(), "c".to_string()]);
}

#[test]
fn diff_text_shapes_the_parser_is_handed() {
    assert!(patch_input_screened(DIFF));
    let git = "diff --git a/x b/x\nindex 1..2 100644\n--- a/x\n+++ b/x\n@@ -1,2 +1,2 @@ fn main\n a\n-b\n+c\n@@ -9 +9 @@\n z\n\\ No newline at end of file\n\n";
    assert!(patch_input_screened(git));
    assert!(patch_input_screened("--- a/x\r\n+++ b/x\r\n@@ -1 +1 @@\r\n-a\r\n+b\r\n"));
    assert!(patch_input_screened("--- a/x\n+++ b/x\n@@ -1 +1 @@\n-a\n+b\n\\ No newline at end of file"));
    assert!(patch_input_screened(""));
    assert!(patch_input_screened("no hunks here"));
    assert!(patch_input_screened("--- a/x\n+++ b/x\n@@ -18446744073709551615 +1 @@\n a\n"));
    // a marker in the middle of a hunk leaves lines the parser does not read
    assert!(!patch_input_screened("--- a/x\n+++ b/x\n@@ -1 +1 @@\n-a\n\\ No newline at end of file\n+a\n"));
    // text after the hunks
    assert!(!patch_input_screened("--- a/x\n+++ b/x\n@@ -1 +1 @@\n-a\n+b\nthe end\n"));
    // a second file
    assert!(!patch_input_screened("--- a/x\n+++ b/x\n@@ -1 +1 @@\n-a\n--- a/y\n+++ b/y\n@@ -1 +1 @@\n-a\n"));
    // a number past u64
    assert!(!patch_input_screened("--- a/x\n+++ b/x\n@@ -18446744073709551616 +1 @@\n a\n"));
    assert!(!patch_input_screened("--- a/x\n+++ b/x\n@@ -1,99999999999999999999 +1 @@\n a\n"));
    // a header without lines, an unterminated line, a stray carriage return
    assert!(!patch_input_screened("--- a/x\n+++ b/x\n@@ -1 +1 @@\n"));
    assert!(!patch_input_screened("--- a/x\n+++ b/x\n@@ -1 +1 @@\n+a"));
    assert!(!patch_input_screened("--- a/x\n+++ b/x\n@@ -1 +1 @@\n+a\rb\n"));
    assert!(!patch_input_screened("--- a/x\n+++ b/x\n@@ -1 +1 @@\n+a\n\\ No newline at end of file!\n"));
}

#[test]
fn diff_text_before_the_headers_is_not_read() {
    let text = "@@ -x\n--- a\n+++ b\n@@ -1 +1 @@\n-a\n+b\n";
    assert!(patch_input_screened(text));
    let diff = diff_from_output("b".to_string(), false, text).unwrap();
    assert_eq!(diff.hunks.len(), 1);
    assert_eq!(
        diff.hunks[0].lines,
        vec![GitDiffLine::Deleted { old_line: 1, text: "a".to_string() }, GitDiffLine::Added { new_line: 1, text: "b".to_string() }]
    );
    let preamble = "@@ -99999999999999999999999 +1 @@\nstray\n--- a\n+++ b\n@@ -2,1 +2,1 @@\n x\n";
    assert!(patch_input_screened(preamble));
    assert_eq!(diff_from_output("b".to_string(), false, preamble).unwrap().hunks.len(), 1);
    // the line after the headers does not open a hunk: the parser fails there
    let no_hunk = "--- a\n+++ b\nbinary files differ\n@@ -99999999999999999999999 +1 @@\n";
    assert!(patch_input_screened(no_hunk));
    assert!(matches!(diff_from_output("b".to_string(), false, no_hunk), Err(GitDiffError::Parse(_))));
}

#[test]
fn diff_text_of_another_shape_is_refused() {
    let text = "--- a/x\n+++ b/x\n@@ -1 +1 @@\n-a\n\\ No newline at end of file\n+a\n";
    assert_eq!(diff_from_output("x".to_string(), false, text), Err(GitDiffError::Unsupported));
    let big = "--- a/x\n+++ b/x\n@@ -99999999999999999999 +1 @@\n a\n";
    assert_eq!(diff_from_output("x".to_string(), false, big), Err(GitDiffError::Unsupported));
}

#[test]
fn diff_with_missing_newline_marker_at_the_end() {
    let text = "--- a/x\n+++ b/x\n@@ -1 +1 @@\n-a\n+b\n\\ No newline at end of file\n";
    let diff = diff_from_output("x".to_string(), false, text).unwrap();
    assert_eq!(
        diff.hunks[0].lines,
        vec![GitDiffLine::Deleted { old_line: 1, text: "a".to_string() }, GitDiffLine::Added { new_line: 1, text: "b".to_string() }]
    );
}

#[test]
fn project_search_plan() {
    let projects = vec![("a".to_string(), "/p".to_string()), ("b".to_string(), "/q".to_string()), ("c".to_string(), "/p".to_string())];
    let (matcher, roots) = search_plan("fo+", &projects).unwrap();
    assert_eq!(roots, vec!["/p".to_string(), "/q".to_string()]);
    assert!(file_search_result(&matcher, "/p/f".to_string(), vec![(1, "foo".to_string())]).is_some());
    assert!(search_plan("fo+", &Vec::new()).is_none());
    assert!(search_plan("(", &projects).is_none());
}
