use cosmic_edit::autosave::AutoSaver;
use cosmic_edit::backup::{
    backup_dir, backup_file_path, compute_content_hash, contains_string, extract_session_id_from_backup,
    frame_backup_file, is_safe_id, is_session_backup, session_backup_prefix, split_backup_file,
    unreferenced_backup_id, BackupPathError, CachedDocument, CachedDocumentMeta,
};
use cosmic_edit::hotexit::{
    backup_content_hash, determine_startup_action, extract_session_id_from_path, graceful_close_policy,
    limit_session_state, load_session_tabs, lock_file, other_session_ids, referenced_backup_ids,
    restore_session_tab, session_file, session_id_of_entry, sessions_dir, split_restore_sessions,
    stale_backup_action, write_tab_backup, write_tab_backup_generation, BackupRequest, GracefulClosePolicy,
    RestoreDialogState, RestoreOption, RestoredTab, SessionProject, SessionState, SessionTab, SessionTabView,
    StaleBackupAction, StartupAction, MAX_PROJECTS_PER_SESSION, MAX_TABS_PER_SESSION,
};
use cosmic_edit::orphans::order_orphaned_sessions;

fn tab(path: Option<&str>, unsaved: bool, backup: Option<&str>) -> SessionTab {
    SessionTab {
        path: path.map(|p| p.to_string()),
        has_unsaved_changes: unsaved,
        backup_id: backup.map(|b| b.to_string()),
        view: None,
    }
}

fn state(tabs: Vec<SessionTab>) -> SessionState {
    SessionState { tabs, projects: Vec::new(), active_tab: 0, active_project_path: None }
}

fn doc(id: &str, session_id: u64, content: &str) -> CachedDocument {
    CachedDocument {
        meta: CachedDocumentMeta { id: id.to_string(), session_id, cursor_line: 3, cursor_index: 4, zoom_adj: -1 },
        content: content.to_string(),
    }
}

#[test]
fn content_hash_is_fnv1a() {
    assert_eq!(compute_content_hash(""), 0xcbf2_9ce4_8422_2325);
    assert_eq!(compute_content_hash("a"), 0xaf63_dc4c_8601_ec8c);
    assert_eq!(compute_content_hash("hello"), 0xa430_d846_80aa_bd0b);
}

#[test]
fn backup_directory_under_cache() {
    assert_eq!(backup_dir(Some("/home/u/.cache")), Some("/home/u/.cache/cosmic-edit/backups".to_string()));
    assert_eq!(backup_dir(None), None);
    assert_eq!(sessions_dir(Some("/c")), Some("/c/cosmic-edit/sessions".to_string()));
}

#[test]
fn backup_paths_and_their_errors() {
    assert_eq!(backup_file_path(Some("/b"), "00000000000000ff_abc"), Ok("/b/00000000000000ff_abc.backup".to_string()));
    assert_eq!(backup_file_path(Some("/b"), "../escape"), Err(BackupPathError::InvalidId));
    assert_eq!(backup_file_path(Some("/b"), ""), Err(BackupPathError::InvalidId));
    assert_eq!(backup_file_path(None, "abc"), Err(BackupPathError::NoBackupDir));
    assert_eq!(backup_file_path(None, "a/b"), Err(BackupPathError::InvalidId));
}

#[test]
fn safe_ids() {
    assert!(is_safe_id("abc_DEF-123"));
    assert!(!is_safe_id("a.b"));
    assert!(!is_safe_id("a/b"));
    assert!(!is_safe_id(""));
}

#[test]
fn backup_names_carry_their_session() {
    assert_eq!(extract_session_id_from_backup("00000000000000ff_0123.backup"), Some(255));
    assert_eq!(extract_session_id_from_backup("00000000000000ff_0123.json"), None);
    assert_eq!(extract_session_id_from_backup("ff_0123.backup"), None);
    assert_eq!(session_backup_prefix(255), "00000000000000ff_");
    assert!(is_session_backup("00000000000000ff_x.backup", 255));
    assert!(!is_session_backup("00000000000000fe_x.backup", 255));
}

#[test]
fn unreferenced_backups_are_found() {
    let referenced = vec!["00000000000000ff_keep".to_string()];
    assert!(contains_string(&referenced, "00000000000000ff_keep"));
    assert_eq!(unreferenced_backup_id("00000000000000ff_keep.backup", 255, &referenced), None);
    assert_eq!(
        unreferenced_backup_id("00000000000000ff_old.backup", 255, &referenced),
        Some("00000000000000ff_old".to_string())
    );
    assert_eq!(unreferenced_backup_id("00000000000000aa_old.backup", 255, &referenced), None);
    assert_eq!(unreferenced_backup_id("00000000000000ff_old.json", 255, &referenced), None);
}

#[test]
fn backup_file_round_trip() {
    let file = frame_backup_file("{\"id\":\"x\"}", "line one\nline two");
    assert_eq!(file, "{\"id\":\"x\"}\nline one\nline two");
    assert_eq!(split_backup_file(&file), ("{\"id\":\"x\"}".to_string(), "line one\nline two".to_string()));
    assert_eq!(split_backup_file("no newline"), ("no newline".to_string(), String::new()));
}

#[test]
fn close_policy() {
    assert_eq!(graceful_close_policy(true, false, true), GracefulClosePolicy::HotExit);
    assert_eq!(graceful_close_policy(true, true, true), GracefulClosePolicy::Prompt);
    assert_eq!(graceful_close_policy(false, false, true), GracefulClosePolicy::Prompt);
    assert_eq!(graceful_close_policy(false, false, false), GracefulClosePolicy::CleanExit);
    assert_eq!(graceful_close_policy(true, false, false), GracefulClosePolicy::HotExit);
    assert_eq!(graceful_close_policy(true, true, false), GracefulClosePolicy::CleanExit);
}

#[test]
fn unsaved_changes_are_never_dropped() {
    for recovery in [false, true] {
        for others in [false, true] {
            assert_ne!(graceful_close_policy(recovery, others, true), GracefulClosePolicy::CleanExit);
        }
    }
}

#[test]
fn session_and_lock_files() {
    assert_eq!(session_file(Some("/s"), 255), Some("/s/00000000000000ff.json".to_string()));
    assert_eq!(lock_file(Some("/s"), 255), Some("/s/00000000000000ff.lock".to_string()));
    assert_eq!(session_file(None, 1), None);
    assert_eq!(extract_session_id_from_path("00000000000000ff.json"), Some(255));
    assert_eq!(extract_session_id_from_path("notes.json"), None);
    assert_eq!(extract_session_id_from_path("/home/u/.cache/cosmic-edit/sessions/00000000000000ff.json"), Some(255));
    assert_eq!(extract_session_id_from_path("/home/u/.cache/cosmic-edit/sessions/"), None);
    assert_eq!(extract_session_id_from_path("/home/u/0000000000000001.d/notes.json"), None);
}

#[test]
fn session_file_names_session_again() {
    for id in [0u64, 7, 0xdead_beef, u64::MAX] {
        let file = session_file(Some("/s"), id).unwrap();
        let name = file.rsplit('/').next().unwrap();
        assert_eq!(extract_session_id_from_path(&file), Some(id));
        assert_eq!(extract_session_id_from_path(name), Some(id));
        assert_eq!(session_id_of_entry(&file, "json"), Some(id));
        let lock = lock_file(Some("/home/u/.cache/cosmic-edit/sessions"), id).unwrap();
        assert_eq!(extract_session_id_from_path(&lock), Some(id));
        assert_eq!(session_id_of_entry(&lock, "lock"), Some(id));
    }
}

#[test]
fn session_entries_by_extension() {
    assert_eq!(session_id_of_entry("00000000000000ff.lock", "lock"), Some(255));
    assert_eq!(session_id_of_entry("00000000000000ff.lock", "json"), None);
    assert_eq!(session_id_of_entry("readme", "json"), None);
    assert_eq!(session_id_of_entry("/s/00000000000000ff.lock", "lock"), Some(255));
    assert_eq!(session_id_of_entry("/s.json/readme", "json"), None);
}

#[test]
fn editor_state_becomes_session_tab() {
    let view = SessionTabView::default();
    let kept = SessionTab::from_editor_state(Some("/a".to_string()), true, Some("b".to_string()), true, view).unwrap();
    assert!(kept.has_unsaved_changes);
    assert_eq!(kept.backup_id, Some("b".to_string()));
    let clean = SessionTab::from_editor_state(Some("/a".to_string()), true, Some("b".to_string()), false, view).unwrap();
    assert!(!clean.has_unsaved_changes);
    assert_eq!(clean.backup_id, None);
    assert!(SessionTab::from_editor_state(None, true, None, true, view).is_none());
    assert!(SessionTab::from_editor_state(None, false, Some("b".to_string()), true, view).is_none());
}

#[test]
fn session_limits() {
    let mut s = state((0..MAX_TABS_PER_SESSION + 5).map(|_| tab(Some("/f"), false, None)).collect());
    s.projects = (0..MAX_PROJECTS_PER_SESSION + 1)
        .map(|_| SessionProject { path: "/p".to_string(), expanded_folders: Vec::new() })
        .collect();
    s.active_tab = MAX_TABS_PER_SESSION + 2;
    let limited = limit_session_state(s);
    assert_eq!(limited.tabs.len(), MAX_TABS_PER_SESSION);
    assert_eq!(limited.projects.len(), MAX_PROJECTS_PER_SESSION);
    assert_eq!(limited.active_tab, 0);
}

#[test]
fn restore_dialog_counts() {
    let d = RestoreDialogState::new(5, 3, RestoreOption::RestoreFirstN);
    assert_eq!(d.sessions_to_restore, 3);
    assert_eq!(d.sessions_to_discard, 2);
    assert_eq!(d.restore_n_count(), 3);
    let all = RestoreDialogState::new(5, 3, RestoreOption::RestoreAll);
    assert_eq!(all.sessions_to_restore, 5);
    let none = RestoreDialogState::new(5, 3, RestoreOption::DiscardAll);
    assert_eq!((none.sessions_to_restore, none.sessions_to_discard), (0, 5));
    assert_eq!(RestoreDialogState::new(2, 3, RestoreOption::RestoreFirstN).restore_n_count(), 2);
    assert_eq!(RestoreOption::default(), RestoreOption::RestoreFirstN);
}

#[test]
fn split_restore_sessions_partitions() {
    assert_eq!(split_restore_sessions(vec![1, 2, 3, 4], Some(2)), (vec![1, 2], vec![3, 4]));
    assert_eq!(split_restore_sessions(vec![1, 2], Some(5)), (vec![1, 2], vec![]));
    assert_eq!(split_restore_sessions(vec![1, 2, 3], None), (vec![1, 2, 3], vec![]));
    let (a, b) = split_restore_sessions(vec![9, 8, 7], Some(1));
    assert_eq!([a, b].concat(), vec![9, 8, 7]);
}

#[test]
fn startup_actions() {
    assert!(matches!(determine_startup_action(false, 3, vec![(1, state(vec![]))]), StartupAction::Normal));
    assert!(matches!(determine_startup_action(true, 3, vec![]), StartupAction::Normal));
    match determine_startup_action(true, 3, vec![(7, state(vec![]))]) {
        StartupAction::RestoreSingle(id, _) => assert_eq!(id, 7),
        _ => panic!("expected a single restore"),
    }
    match determine_startup_action(true, 3, vec![(1, state(vec![])), (2, state(vec![])), (3, state(vec![]))]) {
        StartupAction::RestoreMultiple { first_session, spawn_sessions } => {
            assert_eq!(first_session.0, 1);
            assert_eq!(spawn_sessions, vec![2, 3]);
        }
        _ => panic!("expected a multiple restore"),
    }
    match determine_startup_action(true, 1, vec![(1, state(vec![])), (2, state(vec![]))]) {
        StartupAction::PromptUser(ids) => assert_eq!(ids, vec![1, 2]),
        _ => panic!("expected a prompt"),
    }
}

#[test]
fn restoring_tabs_from_backups_and_files() {
    let t = tab(Some("/a.txt"), true, Some("00000000000000ff_x"));
    match restore_session_tab(255, &t, Some(doc("00000000000000ff_x", 255, "text")), false) {
        Some(RestoredTab::FromBackup { path_opt, content, view, backup_id, content_hash }) => {
            assert_eq!(path_opt, Some("/a.txt".to_string()));
            assert_eq!(content, "text");
            assert_eq!(backup_id, "00000000000000ff_x");
            assert_eq!(content_hash, compute_content_hash("text"));
            assert_eq!((view.cursor_line, view.cursor_index, view.zoom_adj), (3, 4, -1));
            assert_eq!(view.content_hash, Some(content_hash));
        }
        _ => panic!("expected a backup restore"),
    }
    // A backup of another session is not used; the file is.
    match restore_session_tab(255, &t, Some(doc("00000000000000ff_x", 254, "text")), true) {
        Some(RestoredTab::FromFile { path, .. }) => assert_eq!(path, "/a.txt"),
        _ => panic!("expected a file restore"),
    }
    assert!(restore_session_tab(255, &t, None, false).is_none());
    assert!(restore_session_tab(255, &tab(None, false, None), None, true).is_none());
}

#[test]
fn load_session_tabs_drops_missing_ones() {
    let s = state(vec![tab(Some("/a"), false, None), tab(Some("/gone"), false, None), tab(None, true, Some("00000000000000ff_u"))]);
    let tabs = load_session_tabs(255, &s, vec![None, None, Some(doc("00000000000000ff_u", 255, "draft"))], vec![true, false, false]);
    assert_eq!(tabs.len(), 2);
    assert!(matches!(&tabs[0], RestoredTab::FromFile { path, .. } if path == "/a"));
    assert!(matches!(&tabs[1], RestoredTab::FromBackup { content, .. } if content == "draft"));
}

#[test]
fn backup_hash_only_for_matching_backup() {
    assert_eq!(backup_content_hash(1, "id", Some(doc("id", 1, "abc"))), Some(compute_content_hash("abc")));
    assert_eq!(backup_content_hash(1, "id", Some(doc("other", 1, "abc"))), None);
    assert_eq!(backup_content_hash(1, "id", Some(doc("id", 2, "abc"))), None);
    assert_eq!(backup_content_hash(1, "id", None), None);
}

fn request(path: Option<&str>, existing: Option<&str>) -> BackupRequest {
    BackupRequest {
        path_opt: path.map(|p| p.to_string()),
        content: "body".to_string(),
        cursor_line: 1,
        cursor_index: 2,
        zoom_adj: 0,
        existing_backup_id: existing.map(|e| e.to_string()),
    }
}

#[test]
fn tab_backup_ids() {
    let named = write_tab_backup(Some("/b"), 255, request(Some("/a.txt"), None), 0).unwrap();
    let expected = format!("00000000000000ff_{:016x}", compute_content_hash("/a.txt"));
    assert_eq!(named.backup_id, expected);
    assert_eq!(named.path, format!("/b/{}.backup", expected));
    assert_eq!(named.document.meta.session_id, 255);
    assert_eq!(named.document.content, "body");
    let untitled = write_tab_backup(Some("/b"), 1, request(None, None), 16).unwrap();
    assert_eq!(untitled.backup_id, "0000000000000001_untitled_0000000000000010");
    let reused = write_tab_backup(Some("/b"), 1, request(None, Some("kept_id")), 16).unwrap();
    assert_eq!(reused.backup_id, "kept_id");
    let fresh = write_tab_backup_generation(Some("/b"), 1, request(None, Some("kept_id")), 16, 2).unwrap();
    assert_eq!(fresh.backup_id, "0000000000000001_untitled_0000000000000010_0000000000000002");
}

#[test]
fn tab_backup_errors() {
    assert!(matches!(write_tab_backup(None, 1, request(None, None), 0), Err(BackupPathError::NoBackupDir)));
    assert!(matches!(write_tab_backup(Some("/b"), 1, request(None, Some("../x")), 0), Err(BackupPathError::InvalidId)));
}

#[test]
fn generated_backups_belong_to_their_session() {
    let plan = write_tab_backup_generation(Some("/b"), 77, request(Some("/x"), None), 5, 6).unwrap();
    let name = format!("{}.backup", plan.backup_id);
    assert!(is_safe_id(&plan.backup_id));
    assert!(is_session_backup(&name, 77));
    assert_eq!(extract_session_id_from_backup(&name), Some(77));
}

#[test]
fn cleanup_keeps_what_tabs_refer_to() {
    let s = state(vec![tab(Some("/a"), true, Some("00000000000000ff_a")), tab(Some("/b"), false, None)]);
    let ids = referenced_backup_ids(&s);
    assert_eq!(ids, vec!["00000000000000ff_a".to_string()]);
    assert_eq!(unreferenced_backup_id("00000000000000ff_a.backup", 255, &ids), None);
    match stale_backup_action(true, true, Some(s.clone())) {
        StaleBackupAction::RemoveUnreferenced(keep) => assert_eq!(keep, ids),
        _ => panic!("expected selective removal"),
    }
    assert!(matches!(stale_backup_action(false, true, Some(s.clone())), StaleBackupAction::Skip));
    assert!(matches!(stale_backup_action(true, true, None), StaleBackupAction::Skip));
    assert!(matches!(stale_backup_action(true, false, None), StaleBackupAction::RemoveAll));
}

#[test]
fn other_sessions_exclude_own() {
    assert_eq!(other_session_ids(2, vec![1, 2, 3, 2]), vec![1, 3]);
}

#[test]
fn orphaned_sessions_oldest_first() {
    let found = vec![
        (30i128, 1u64, state(vec![])),
        (10, 9, state(vec![])),
        (10, 2, state(vec![])),
        (-5, 4, state(vec![])),
    ];
    let ids: Vec<u64> = order_orphaned_sessions(found).into_iter().map(|(id, _)| id).collect();
    assert_eq!(ids, vec![4, 2, 9, 1]);
}

#[test]
fn orphaned_sessions_equal_keys_keep_order() {
    let found = vec![
        (5i128, 3u64, state(vec![tab(Some("/first"), false, None)])),
        (5, 3, state(vec![tab(Some("/second"), false, None)])),
    ];
    let ordered = order_orphaned_sessions(found);
    assert_eq!(ordered[0].1.tabs[0].path, Some("/first".to_string()));
    assert_eq!(ordered[1].1.tabs[0].path, Some("/second".to_string()));
}

#[test]
fn autosave_register_cancel_and_next() {
    let mut saver = AutoSaver::new(10);
    assert_eq!(saver.next_due(), None);
    saver.register(1, 100);
    saver.register(2, 95);
    assert_eq!(saver.next_due(), Some((2, 105)));
    saver.register(2, 120);
    assert_eq!(saver.next_due(), Some((1, 110)));
    saver.cancel(1);
    assert_eq!(saver.next_due(), Some((2, 130)));
    saver.cancel(2);
    assert_eq!(saver.next_due(), None);
}

#[test]
fn autosave_delay_applies_to_new_registrations() {
    let mut saver = AutoSaver::new(10);
    saver.register(1, 0);
    saver.set_delay(100);
    saver.register(2, 0);
    assert_eq!(saver.next_due(), Some((1, 10)));
    saver.cancel(1);
    assert_eq!(saver.next_due(), Some((2, 100)));
    saver.register(3, u64::MAX);
    saver.cancel(2);
    assert_eq!(saver.next_due(), Some((3, u64::MAX)));
}

#[test]
fn autosave_saves_once_after_the_last_change() {
    let mut saver = AutoSaver::new(10);
    saver.register(1, 100);
    assert_eq!(saver.pop_due(105), None);
    saver.register(1, 108);
    assert_eq!(saver.pop_due(110), None);
    assert_eq!(saver.pop_due(118), Some(1));
    assert_eq!(saver.pop_due(1000), None);
    assert_eq!(saver.next_due(), None);
}

#[test]
fn autosave_cancelled_tab_is_not_saved() {
    let mut saver = AutoSaver::new(5);
    saver.register(1, 0);
    saver.register(2, 1);
    saver.cancel(1);
    assert_eq!(saver.pop_due(100), Some(2));
    assert_eq!(saver.pop_due(100), None);
}
