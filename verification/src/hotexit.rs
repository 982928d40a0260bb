//! Session recovery ("hot exit"): what is remembered about open tabs, how a
//! remembered session is restored, and how its backups are named and cleaned up.

use vstd::prelude::*;
use vstd::string::StringSliceAdditionalSpecFns;
use crate::backup::{
    backup_ext, backup_file_path, backup_file_path_spec, backup_session_id_spec, compute_content_hash,
    fnv1a, safe_id_spec, session_backup_prefix_spec, BackupPathError, CachedDocument, CachedDocumentMeta,
};
use crate::hex::{format_hex16, hex16, lemma_hex16_round_trip, hex_digit_value, all_hex_digits};
use crate::paths::{join_path, join_spec};
use crate::text::{concat2, concat3, seq_ends_with, seq_starts_with};

verus! {

/// What the restore dialog offers to do with several orphaned sessions.
#[derive(Clone, Copy, Debug, PartialEq, Eq, Structural)]
pub enum RestoreOption {
    DiscardAll,
    RestoreFirstN,
    RestoreAll,
}

impl Default for RestoreOption {
    fn default() -> (r: Self)
        ensures
            r == RestoreOption::RestoreFirstN,
    {
        RestoreOption::RestoreFirstN
    }
}

/// How the editor closes gracefully.
#[derive(Clone, Copy, Debug, PartialEq, Eq, Structural)]
pub enum GracefulClosePolicy {
    /// Ask the user about unsaved changes.
    Prompt,
    /// Keep the session for recovery and close without asking.
    HotExit,
    /// Close without keeping anything.
    CleanExit,
}

/// The close policy: unsaved changes are prompted for unless recovery is on
/// and no other window shares the session; recovery alone means hot exit.
pub open spec fn graceful_close_policy_spec(recovery_enabled: bool, has_other_live_windows: bool, has_unsaved_changes: bool) -> GracefulClosePolicy {
    if has_unsaved_changes && (!recovery_enabled || has_other_live_windows) {
        GracefulClosePolicy::Prompt
    } else if recovery_enabled && !has_other_live_windows {
        GracefulClosePolicy::HotExit
    } else {
        GracefulClosePolicy::CleanExit
    }
}

/// Decides how to close (see [`graceful_close_policy_spec`]).
pub fn graceful_close_policy(recovery_enabled: bool, has_other_live_windows: bool, has_unsaved_changes: bool) -> (r: GracefulClosePolicy)
    ensures
        r == graceful_close_policy_spec(recovery_enabled, has_other_live_windows, has_unsaved_changes),
{
    if has_unsaved_changes && (!recovery_enabled || has_other_live_windows) {
        GracefulClosePolicy::Prompt
    } else if recovery_enabled && !has_other_live_windows {
        GracefulClosePolicy::HotExit
    } else {
        GracefulClosePolicy::CleanExit
    }
}

/// Law: unsaved changes are never dropped silently. With unsaved changes the
/// editor either asks, or keeps them for recovery.
pub proof fn lemma_unsaved_changes_never_lost(recovery_enabled: bool, has_other_live_windows: bool)
    ensures
        graceful_close_policy_spec(recovery_enabled, has_other_live_windows, true) != GracefulClosePolicy::CleanExit,
        graceful_close_policy_spec(recovery_enabled, has_other_live_windows, true) == GracefulClosePolicy::HotExit
            ==> recovery_enabled && !has_other_live_windows,
{
}

/// Law: how a window closes. It keeps its work for recovery (hot exit)
/// exactly when recovery is on and no other window shares its session; it
/// asks about unsaved changes exactly when there are some and it cannot keep
/// them; it simply closes only when there is nothing to keep.
pub proof fn lemma_close_policy_cases(recovery_enabled: bool, has_other_live_windows: bool, has_unsaved_changes: bool)
    ensures
        ({
            let p = graceful_close_policy_spec(recovery_enabled, has_other_live_windows, has_unsaved_changes);
            &&& (p == GracefulClosePolicy::HotExit) <==> (recovery_enabled && !has_other_live_windows)
            &&& (p == GracefulClosePolicy::Prompt) <==> (has_unsaved_changes && !(recovery_enabled && !has_other_live_windows))
            &&& (p == GracefulClosePolicy::CleanExit) <==> (!has_unsaved_changes && !(recovery_enabled && !has_other_live_windows))
        }),
{
}

/// Where a tab's view stood: cursor, scroll, zoom and the anchors used to
/// find the same place again. The two scroll offsets are kept as the bit
/// patterns of their `f32` values.
#[derive(Clone, Copy, Debug, PartialEq, Eq)]
pub struct SessionTabView {
    pub cursor_line: usize,
    pub cursor_index: usize,
    pub scroll_line: usize,
    pub scroll_vertical_bits: u32,
    pub scroll_horizontal_bits: u32,
    pub zoom_adj: i8,
    pub content_hash: Option<u64>,
    pub scroll_anchor: Option<u64>,
    pub cursor_anchor: Option<u64>,
}

pub open spec fn default_view() -> SessionTabView {
    SessionTabView {
        cursor_line: 0,
        cursor_index: 0,
        scroll_line: 0,
        scroll_vertical_bits: 0,
        scroll_horizontal_bits: 0,
        zoom_adj: 0,
        content_hash: None,
        scroll_anchor: None,
        cursor_anchor: None,
    }
}

impl Default for SessionTabView {
    fn default() -> (r: Self)
        ensures
            r == default_view(),
    {
        SessionTabView {
            cursor_line: 0,
            cursor_index: 0,
            scroll_line: 0,
            scroll_vertical_bits: 0,
            scroll_horizontal_bits: 0,
            zoom_adj: 0,
            content_hash: None,
            scroll_anchor: None,
            cursor_anchor: None,
        }
    }
}

/// One tab of a remembered session.
#[derive(Clone, Debug, PartialEq, Eq)]
pub struct SessionTab {
    pub path: Option<String>,
    pub has_unsaved_changes: bool,
    pub backup_id: Option<String>,
    pub view: Option<SessionTabView>,
}

impl SessionTab {
    /// Builds the session entry for a tab. Unsaved changes are kept only when
    /// they are to be preserved and a backup holds them; a named file is kept
    /// either way, an untitled document only with its unsaved changes.
    pub fn from_editor_state(
        path: Option<String>,
        changed: bool,
        backup_id: Option<String>,
        preserve_unsaved_changes: bool,
        view: SessionTabView,
    ) -> (r: Option<Self>)
        ensures
            ({
                let keep = changed && preserve_unsaved_changes && backup_id is Some;
                if path is None && !keep {
                    r is None
                } else {
                    &&& r is Some
                    &&& r->0.path == path
                    &&& r->0.has_unsaved_changes == keep
                    &&& r->0.backup_id == (if keep { backup_id } else { None })
                    &&& r->0.view == Some(view)
                }
            }),
    {
        let has_unsaved_changes = changed && preserve_unsaved_changes && backup_id.is_some();
        if path.is_none() && !has_unsaved_changes {
            return None;
        }
        let backup_id = if has_unsaved_changes { backup_id } else { None };
        Some(SessionTab { path, has_unsaved_changes, backup_id, view: Some(view) })
    }
}

/// An open project of a remembered session.
#[derive(Clone, Debug, PartialEq, Eq)]
pub struct SessionProject {
    pub path: String,
    pub expanded_folders: Vec<String>,
}

/// Everything remembered about one editor window.
#[derive(Clone, Debug, PartialEq, Eq)]
pub struct SessionState {
    pub tabs: Vec<SessionTab>,
    pub projects: Vec<SessionProject>,
    pub active_tab: usize,
    pub active_project_path: Option<String>,
}

/// At most this many tabs are restored from one session file.
pub const MAX_TABS_PER_SESSION: usize = 1000;

/// At most this many projects are restored from one session file.
pub const MAX_PROJECTS_PER_SESSION: usize = 100;

/// Applies the limits to a session read from disk: tabs and projects beyond
/// the limits are dropped, and an active tab out of range becomes the first.
pub fn limit_session_state(state: SessionState) -> (r: SessionState)
    ensures
        r.tabs@ == state.tabs@.take(if state.tabs@.len() > MAX_TABS_PER_SESSION { MAX_TABS_PER_SESSION as int } else { state.tabs@.len() as int }),
        r.projects@ == state.projects@.take(if state.projects@.len() > MAX_PROJECTS_PER_SESSION { MAX_PROJECTS_PER_SESSION as int } else { state.projects@.len() as int }),
        r.active_tab == (if state.active_tab < r.tabs@.len() { state.active_tab } else { 0 }),
        r.active_project_path == state.active_project_path,
        r.tabs@.len() <= MAX_TABS_PER_SESSION,
        r.projects@.len() <= MAX_PROJECTS_PER_SESSION,
{
    let mut state = state;
    let ghost tabs0 = state.tabs@;
    let ghost projects0 = state.projects@;
    if state.tabs.len() > MAX_TABS_PER_SESSION {
        state.tabs.truncate(MAX_TABS_PER_SESSION);
    } else {
        assert(tabs0.take(tabs0.len() as int) =~= tabs0);
    }
    if state.projects.len() > MAX_PROJECTS_PER_SESSION {
        state.projects.truncate(MAX_PROJECTS_PER_SESSION);
    } else {
        assert(projects0.take(projects0.len() as int) =~= projects0);
    }
    if state.active_tab >= state.tabs.len() {
        state.active_tab = 0;
    }
    state
}

/// `<cache>/cosmic-edit/sessions`.
pub open spec fn sessions_dir_spec(cache_dir: Seq<char>) -> Seq<char> {
    join_spec(join_spec(cache_dir, "cosmic-edit"@), "sessions"@)
}

/// The directory holding session files, given the user's cache directory.
pub fn sessions_dir(cache_dir: Option<&str>) -> (r: Option<String>)
    ensures
        match cache_dir {
            Some(c) => r is Some && r->0@ == sessions_dir_spec(c@),
            None => r is None,
        },
{
    match cache_dir {
        Some(c) => {
            let app = join_path(c, "cosmic-edit");
            Some(join_path(app.as_str(), "sessions"))
        }
        None => None,
    }
}

pub open spec fn json_ext() -> Seq<char> {
    seq!['.', 'j', 's', 'o', 'n']
}

pub open spec fn lock_ext() -> Seq<char> {
    seq!['.', 'l', 'o', 'c', 'k']
}

/// The file a session is saved to: `<sessions>/<id as 16 hex digits>.json`.
pub fn session_file(sessions_dir: Option<&str>, session_id: u64) -> (r: Option<String>)
    ensures
        match sessions_dir {
            Some(d) => r is Some && r->0@ == join_spec(d@, hex16(session_id) + json_ext()),
            None => r is None,
        },
{
    match sessions_dir {
        Some(d) => {
            let ext = ".json";
            proof {
                reveal_strlit(".json");
            }
            assert(ext@ =~= json_ext());
            let hex = format_hex16(session_id);
            let name = concat2(hex.as_str(), ext);
            Some(join_path(d, name.as_str()))
        }
        None => None,
    }
}

/// The lock file a running window holds for its session: `<sessions>/<id>.lock`.
pub fn lock_file(sessions_dir: Option<&str>, session_id: u64) -> (r: Option<String>)
    ensures
        match sessions_dir {
            Some(d) => r is Some && r->0@ == join_spec(d@, hex16(session_id) + lock_ext()),
            None => r is None,
        },
{
    match sessions_dir {
        Some(d) => {
            let ext = ".lock";
            proof {
                reveal_strlit(".lock");
            }
            assert(ext@ =~= lock_ext());
            let hex = format_hex16(session_id);
            let name = concat2(hex.as_str(), ext);
            Some(join_path(d, name.as_str()))
        }
        None => None,
    }
}

/// The session id a file name holds: its stem, read as hexadecimal.
pub open spec fn session_id_in_name(name: Seq<char>) -> Option<u64> {
    crate::hex::parse_hex_spec(crate::paths::file_stem_spec(name))
}

/// The session id written in the name of a session or lock file at `path`:
/// the stem of the path's file name, read as hexadecimal. `None` when the
/// path has no file name.
pub fn extract_session_id_from_path(path: &str) -> (r: Option<u64>)
    ensures
        r == match crate::paths::spec_file_name(path@) {
            Some(n) => session_id_in_name(n),
            None => None,
        },
        crate::paths::plain_name(crate::paths::last_component(path@))
            ==> r == session_id_in_name(crate::paths::last_component(path@)),
{
    match crate::paths::path_file_name(path) {
        Some(name) => {
            let stem = crate::paths::file_stem(name.as_str());
            crate::hex::parse_hex_u64(stem.as_str())
        }
        None => None,
    }
}

/// The session a file found in the sessions directory belongs to, counting
/// only files with extension `ext`: the stem of its file name read as
/// hexadecimal.
pub fn session_id_of_entry(path: &str, ext: &str) -> (r: Option<u64>)
    ensures
        r == match crate::paths::spec_file_name(path@) {
            Some(n) => if crate::paths::file_extension_spec(n) == Some(ext@) { session_id_in_name(n) } else { None },
            None => None,
        },
{
    match crate::paths::path_file_name(path) {
        Some(name) => match crate::paths::file_extension(name.as_str()) {
            Some(e) => {
                if crate::text::str_eq(e.as_str(), ext) {
                    let stem = crate::paths::file_stem(name.as_str());
                    crate::hex::parse_hex_u64(stem.as_str())
                } else {
                    None
                }
            }
            None => None,
        },
        None => None,
    }
}

/// Law: the path of a session's file, or of its lock file, in any
/// directory, names that session again: its last component is a plain name
/// whose stem reads back as the session id.
pub proof fn lemma_session_file_names_session(dir: Seq<char>, session_id: u64)
    ensures
        crate::paths::plain_name(crate::paths::last_component(join_spec(dir, hex16(session_id) + json_ext()))),
        session_id_in_name(crate::paths::last_component(join_spec(dir, hex16(session_id) + json_ext()))) == Some(session_id),
        crate::paths::plain_name(crate::paths::last_component(join_spec(dir, hex16(session_id) + lock_ext()))),
        session_id_in_name(crate::paths::last_component(join_spec(dir, hex16(session_id) + lock_ext()))) == Some(session_id),
{
    lemma_hex_file_names_session(dir, session_id, json_ext());
    lemma_hex_file_names_session(dir, session_id, lock_ext());
}

proof fn lemma_hex_file_names_session(dir: Seq<char>, session_id: u64, ext: Seq<char>)
    requires
        ext.len() >= 1,
        ext[0] == '.',
        forall|j: int| 1 <= j < ext.len() ==> ext[j] != '.',
        forall|j: int| 0 <= j < ext.len() ==> ext[j] != '/',
    ensures
        crate::paths::plain_name(crate::paths::last_component(join_spec(dir, hex16(session_id) + ext))),
        session_id_in_name(crate::paths::last_component(join_spec(dir, hex16(session_id) + ext))) == Some(session_id),
{
    lemma_hex16_round_trip(session_id);
    let h = hex16(session_id);
    let name = h + ext;
    lemma_stem_of_hex_name(h, ext);
    lemma_hex_name_has_no_slash(h, ext);
    crate::paths::lemma_last_component_of_join(dir, name);
    assert(crate::paths::last_component(join_spec(dir, name)) == name);
    assert(name.len() > 2);
    assert(name != seq!['.']);
    assert(name != seq!['.', '.']);
}

proof fn lemma_hex_name_has_no_slash(h: Seq<char>, ext: Seq<char>)
    requires
        all_hex_digits(h),
        forall|j: int| 0 <= j < ext.len() ==> ext[j] != '/',
    ensures
        forall|i: int| 0 <= i < (h + ext).len() ==> (h + ext)[i] != '/',
{
    assert forall|i: int| 0 <= i < (h + ext).len() implies (h + ext)[i] != '/' by {
        if i < h.len() {
            assert(hex_digit_value(h[i]) is Some);
        } else {
            assert((h + ext)[i] == ext[i - h.len()]);
        }
    }
}

proof fn lemma_stem_of_hex_name(h: Seq<char>, ext: Seq<char>)
    requires
        h.len() == 16,
        all_hex_digits(h),
        ext.len() >= 1,
        ext[0] == '.',
        forall|j: int| 1 <= j < ext.len() ==> ext[j] != '.',
    ensures
        crate::paths::file_stem_spec(h + ext) == h,
{
    let name = h + ext;
    let k = 16int;
    assert(name[k] == '.');
    assert(0 < k < name.len());
    let c = choose|c: int| 0 < c < name.len() && name[c] == '.' && forall|j: int| c < j < name.len() ==> name[j] != '.';
    assert(0 < k < name.len() && name[k] == '.' && forall|j: int| k < j < name.len() ==> name[j] != '.') by {
        assert forall|j: int| k < j < name.len() implies name[j] != '.' by {
            assert(name[j] == ext[j - 16]);
        }
    }
    if c < k {
        assert(name[c] == h[c]);
        assert(hex_digit_value(h[c]) is Some);
    } else if c > k {
        assert(name[k] != '.');
    }
    assert(name.take(16) =~= h);
}

/// The counts shown by the restore dialog.
#[derive(Clone, Copy, Debug)]
pub struct RestoreDialogState {
    pub total_sessions: usize,
    pub max_auto_restore: usize,
    pub sessions_to_restore: usize,
    pub sessions_to_discard: usize,
}

pub open spec fn min_nat(a: int, b: int) -> int {
    if a <= b { a } else { b }
}

impl RestoreDialogState {
    /// The counts for `total_sessions` orphaned sessions under `selected_option`:
    /// none, the first `max_auto_restore`, or all are restored; the rest discarded.
    pub fn new(total_sessions: usize, max_auto_restore: usize, selected_option: RestoreOption) -> (r: Self)
        ensures
            r.total_sessions == total_sessions,
            r.max_auto_restore == max_auto_restore,
            r.sessions_to_restore == match selected_option {
                RestoreOption::DiscardAll => 0,
                RestoreOption::RestoreAll => total_sessions as int,
                RestoreOption::RestoreFirstN => min_nat(max_auto_restore as int, total_sessions as int),
            },
            r.sessions_to_restore + r.sessions_to_discard == total_sessions,
    {
        let sessions_to_restore = match selected_option {
            RestoreOption::DiscardAll => 0,
            RestoreOption::RestoreAll => total_sessions,
            RestoreOption::RestoreFirstN => if max_auto_restore < total_sessions { max_auto_restore } else { total_sessions },
        };
        RestoreDialogState {
            total_sessions,
            max_auto_restore,
            sessions_to_restore,
            sessions_to_discard: total_sessions - sessions_to_restore,
        }
    }

    /// How many sessions "restore the first N" would restore.
    pub fn restore_n_count(&self) -> (r: usize)
        ensures
            r == min_nat(self.max_auto_restore as int, self.total_sessions as int),
    {
        if self.max_auto_restore < self.total_sessions { self.max_auto_restore } else { self.total_sessions }
    }
}

/// Splits the orphaned sessions into those restored (the first `limit`, or
/// all when there is no limit) and those discarded.
pub fn split_restore_sessions(session_ids: Vec<u64>, limit: Option<usize>) -> (r: (Vec<u64>, Vec<u64>))
    ensures
        ({
            let k = match limit {
                Some(l) => min_nat(l as int, session_ids@.len() as int),
                None => session_ids@.len() as int,
            };
            r.0@ == session_ids@.take(k) && r.1@ == session_ids@.skip(k)
        }),
{
    let mut session_ids = session_ids;
    let len = session_ids.len();
    let restore_count = match limit {
        Some(l) => if l < len { l } else { len },
        None => len,
    };
    let discard = session_ids.split_off(restore_count);
    (session_ids, discard)
}

/// Law: splitting loses no session and invents none.
pub proof fn lemma_split_restore_sessions_partitions(ids: Seq<u64>, k: int)
    requires
        0 <= k <= ids.len(),
    ensures
        ids.take(k) + ids.skip(k) == ids,
{
    assert(ids.take(k) + ids.skip(k) =~= ids);
}

/// What the editor does at start-up about sessions left by windows that are gone.
pub enum StartupAction {
    /// Start with nothing restored.
    Normal,
    /// Restore the one orphaned session here.
    RestoreSingle(u64, SessionState),
    /// Restore the first session here and each other one in a new window.
    RestoreMultiple { first_session: (u64, SessionState), spawn_sessions: Vec<u64> },
    /// Too many sessions: let the user choose.
    PromptUser(Vec<u64>),
}

pub open spec fn ids_of(orphaned: Seq<(u64, SessionState)>) -> Seq<u64> {
    orphaned.map_values(|p: (u64, SessionState)| p.0)
}

/// Chooses the start-up action from the orphaned sessions found (oldest first).
/// Nothing is restored when restoring is off or nothing was found; more than
/// `max_auto_restore` sessions are left to the user; otherwise all are
/// restored, the first in this window.
pub fn determine_startup_action(reopen_on_start: bool, max_auto_restore: usize, orphaned: Vec<(u64, SessionState)>) -> (r: StartupAction)
    ensures
        !reopen_on_start || orphaned@.len() == 0 ==> r is Normal,
        reopen_on_start && orphaned@.len() > max_auto_restore ==> (r matches StartupAction::PromptUser(ids) && ids@ == ids_of(orphaned@)),
        reopen_on_start && orphaned@.len() == 1 && max_auto_restore >= 1 ==> r == StartupAction::RestoreSingle(orphaned@[0].0, orphaned@[0].1),
        reopen_on_start && 2 <= orphaned@.len() <= max_auto_restore ==> (match r {
            StartupAction::RestoreMultiple { first_session, spawn_sessions } =>
                first_session == orphaned@[0] && spawn_sessions@ == ids_of(orphaned@).skip(1),
            _ => false,
        }),
{
    if !reopen_on_start || orphaned.len() == 0 {
        return StartupAction::Normal;
    }
    let n = orphaned.len();
    if n > max_auto_restore {
        let mut ids: Vec<u64> = Vec::new();
        let mut i: usize = 0;
        while i < n
            invariant
                n == orphaned@.len(),
                i <= n,
                ids@ == ids_of(orphaned@).take(i as int),
            decreases n - i,
        {
            ids.push(orphaned[i].0);
            assert(ids_of(orphaned@).take(i + 1) =~= ids_of(orphaned@).take(i as int).push(orphaned@[i as int].0));
            i = i + 1;
        }
        assert(ids_of(orphaned@).take(n as int) =~= ids_of(orphaned@));
        return StartupAction::PromptUser(ids);
    }
    let mut orphaned = orphaned;
    let ghost all = orphaned@;
    let mut spawn_sessions: Vec<u64> = Vec::new();
    let mut i: usize = 1;
    while i < n
        invariant
            orphaned@ == all,
            n == all.len(),
            1 <= i <= n,
            spawn_sessions@ == ids_of(all).subrange(1, i as int),
        decreases n - i,
    {
        spawn_sessions.push(orphaned[i].0);
        assert(ids_of(all).subrange(1, i + 1) =~= ids_of(all).subrange(1, i as int).push(all[i as int].0));
        i = i + 1;
    }
    assert(ids_of(all).subrange(1, n as int) =~= ids_of(all).skip(1));
    orphaned.truncate(1);
    let first = orphaned.pop().unwrap();
    if n == 1 {
        StartupAction::RestoreSingle(first.0, first.1)
    } else {
        StartupAction::RestoreMultiple { first_session: first, spawn_sessions }
    }
}

/// A tab as it is reopened: from its backup, or from its file on disk.
#[derive(Debug)]
pub enum RestoredTab {
    FromBackup {
        path_opt: Option<String>,
        content: String,
        view: SessionTabView,
        backup_id: String,
        content_hash: u64,
    },
    FromFile {
        path: String,
        view: Option<SessionTabView>,
    },
}

/// A copy of an optional string.
pub fn clone_opt_string(s: &Option<String>) -> (r: Option<String>)
    ensures
        r == *s,
{
    match s {
        Some(v) => Some(v.clone()),
        None => None,
    }
}

/// Whether a backup document really belongs to the tab that names it: same
/// id, same session.
pub open spec fn backup_matches(doc: CachedDocument, backup_id: Seq<char>, session_id: u64) -> bool {
    doc.meta.id@ == backup_id && doc.meta.session_id == session_id
}

/// The view a tab restored from a backup starts with when the session
/// recorded none: cursor and zoom from the backup, the rest at rest.
pub open spec fn backup_view(meta: CachedDocumentMeta, hash: u64) -> SessionTabView {
    SessionTabView {
        cursor_line: meta.cursor_line,
        cursor_index: meta.cursor_index,
        zoom_adj: meta.zoom_adj,
        content_hash: Some(hash),
        ..default_view()
    }
}

/// Whether a tab is reopened from its backup: it has unsaved changes, names a
/// backup, and that backup was found and belongs to it.
pub open spec fn restores_from_backup(session_id: u64, tab: SessionTab, cached: Option<CachedDocument>) -> bool {
    tab.has_unsaved_changes && tab.backup_id is Some && cached is Some
        && backup_matches(cached->0, tab.backup_id->0@, session_id)
}

/// How one tab of a session is reopened (see [`restore_session_tab`]).
pub open spec fn restored_tab_spec(session_id: u64, tab: SessionTab, cached: Option<CachedDocument>, path_exists: bool) -> Option<RestoredTab> {
    if restores_from_backup(session_id, tab, cached) {
        let doc = cached->0;
        let hash = fnv1a(vstd::utf8::encode_utf8(doc.content@));
        Some(RestoredTab::FromBackup {
            path_opt: tab.path,
            content: doc.content,
            view: match tab.view {
                Some(v) => v,
                None => backup_view(doc.meta, hash),
            },
            backup_id: doc.meta.id,
            content_hash: hash,
        })
    } else if tab.path is Some && path_exists {
        Some(RestoredTab::FromFile { path: tab.path->0, view: tab.view })
    } else {
        None
    }
}

/// Reopens one tab of session `session_id`. `cached` is the backup read for
/// the tab's backup id, if any; `path_exists` tells whether its file exists.
/// A tab with unsaved changes comes back from its backup when that backup
/// belongs to it; any other tab comes back from its file when the file
/// exists, and is dropped otherwise.
pub fn restore_session_tab(session_id: u64, tab: &SessionTab, cached: Option<CachedDocument>, path_exists: bool) -> (r: Option<RestoredTab>)
    ensures
        r == restored_tab_spec(session_id, *tab, cached, path_exists),
{
    if tab.has_unsaved_changes {
        if let Some(backup_id) = &tab.backup_id {
            if let Some(doc) = cached {
                if crate::text::str_eq(doc.meta.id.as_str(), backup_id.as_str()) && doc.meta.session_id == session_id {
                    let CachedDocument { meta, content } = doc;
                    let content_hash = compute_content_hash(content.as_str());
                    let view = match tab.view {
                        Some(v) => v,
                        None => SessionTabView {
                            cursor_line: meta.cursor_line,
                            cursor_index: meta.cursor_index,
                            zoom_adj: meta.zoom_adj,
                            content_hash: Some(content_hash),
                            ..SessionTabView::default()
                        },
                    };
                    return Some(RestoredTab::FromBackup {
                        path_opt: clone_opt_string(&tab.path),
                        content,
                        view,
                        backup_id: meta.id,
                        content_hash,
                    });
                }
            }
        }
    }
    match &tab.path {
        Some(path) => {
            if path_exists {
                Some(RestoredTab::FromFile { path: path.clone(), view: tab.view })
            } else {
                None
            }
        }
        None => None,
    }
}

/// Law: a tab is reopened from a backup only when that backup carries the
/// tab's own backup id and session, and then with the backup's text; a tab
/// without unsaved changes always comes from its file.
pub proof fn lemma_restore_uses_only_own_backup(session_id: u64, tab: SessionTab, cached: Option<CachedDocument>, path_exists: bool)
    ensures
        restored_tab_spec(session_id, tab, cached, path_exists) matches Some(RestoredTab::FromBackup { content, backup_id, .. })
            ==> tab.has_unsaved_changes && (tab.backup_id matches Some(b) && b@ == backup_id@) && cached is Some
                && backup_matches(cached->0, backup_id@, session_id) && content == cached->0.content,
        !tab.has_unsaved_changes ==> !(restored_tab_spec(session_id, tab, cached, path_exists) matches Some(RestoredTab::FromBackup { .. })),
{
}

/// Law: a tab whose file still exists is never dropped. It comes back from
/// its own backup (see [`lemma_restore_uses_only_own_backup`]) or from its
/// file; a tab that was saved, or whose backup was not found, comes back
/// from its file with its view. A tab reopened from a file is reopened from
/// its own path, which exists, with the view the session recorded.
pub proof fn lemma_restore_keeps_tabs_with_files(session_id: u64, tab: SessionTab, cached: Option<CachedDocument>, path_exists: bool)
    ensures
        tab.path is Some && path_exists ==> restored_tab_spec(session_id, tab, cached, path_exists) is Some,
        tab.path is Some && path_exists && (!tab.has_unsaved_changes || tab.backup_id is None || cached is None)
            ==> restored_tab_spec(session_id, tab, cached, path_exists) == Some(RestoredTab::FromFile { path: tab.path->0, view: tab.view }),
        restored_tab_spec(session_id, tab, cached, path_exists) matches Some(RestoredTab::FromFile { path, view })
            ==> tab.path == Some(path) && path_exists && view == tab.view,
        tab.path is None && !(tab.has_unsaved_changes && tab.backup_id is Some && cached is Some)
            ==> restored_tab_spec(session_id, tab, cached, path_exists) is None,
{
}

/// The tabs of a session as reopened, in order, without those that cannot be.
pub open spec fn restored_tabs_spec(session_id: u64, tabs: Seq<SessionTab>, cached: Seq<Option<CachedDocument>>, path_exists: Seq<bool>) -> Seq<RestoredTab>
    decreases tabs.len(),
{
    if tabs.len() == 0 || cached.len() == 0 || path_exists.len() == 0 {
        Seq::empty()
    } else {
        restored_tabs_spec(session_id, tabs.drop_last(), cached.drop_last(), path_exists.drop_last())
            + match restored_tab_spec(session_id, tabs.last(), cached.last(), path_exists.last()) {
                Some(t) => seq![t],
                None => Seq::empty(),
            }
    }
}

/// Reopens the tabs of a session in order, dropping those that cannot be
/// reopened. `cached[i]` and `path_exists[i]` are what was found on disk
/// for tab `i` (see [`restore_session_tab`]).
pub fn load_session_tabs(session_id: u64, session: &SessionState, cached: Vec<Option<CachedDocument>>, path_exists: Vec<bool>) -> (r: Vec<RestoredTab>)
    requires
        cached@.len() == session.tabs@.len(),
        path_exists@.len() == session.tabs@.len(),
    ensures
        r@ == restored_tabs_spec(session_id, session.tabs@, cached@, path_exists@),
{
    let mut tabs: Vec<RestoredTab> = Vec::new();
    let mut cached = cached;
    let n = session.tabs.len();
    let ghost cached0 = cached@;
    let mut rev: Vec<Option<CachedDocument>> = Vec::new();
    while cached.len() > 0
        invariant
            rev@.len() + cached@.len() == n,
            cached0.len() == n,
            forall|j: int| 0 <= j < cached@.len() ==> cached@[j] == cached0[j],
            forall|j: int| 0 <= j < rev@.len() ==> rev@[j] == cached0[n - 1 - j],
        decreases cached@.len(),
    {
        let d = cached.pop().unwrap();
        rev.push(d);
    }
    let mut i: usize = 0;
    while i < n
        invariant
            n == session.tabs@.len(),
            n == path_exists@.len(),
            cached0.len() == n,
            i <= n,
            rev@.len() == n - i,
            forall|j: int| 0 <= j < rev@.len() ==> rev@[j] == cached0[n - 1 - j],
            tabs@ == restored_tabs_spec(session_id, session.tabs@.take(i as int), cached0.take(i as int), path_exists@.take(i as int)),
        decreases n - i,
    {
        let d = rev.pop().unwrap();
        assert(d == cached0[i as int]);
        let t = restore_session_tab(session_id, &session.tabs[i], d, path_exists[i]);
        proof {
            let ts = session.tabs@.take(i + 1);
            let cs = cached0.take(i + 1);
            let ps = path_exists@.take(i + 1);
            assert(ts.drop_last() =~= session.tabs@.take(i as int));
            assert(cs.drop_last() =~= cached0.take(i as int));
            assert(ps.drop_last() =~= path_exists@.take(i as int));
            assert(ts.last() == session.tabs@[i as int]);
            assert(cs.last() == cached0[i as int]);
            assert(ps.last() == path_exists@[i as int]);
        }
        let ghost before = tabs@;
        match t {
            Some(t) => {
                tabs.push(t);
                assert(tabs@ =~= before + seq![t]);
            }
            None => {
                assert(tabs@ =~= before + Seq::<RestoredTab>::empty());
            }
        }
        i = i + 1;
    }
    assert(session.tabs@.take(n as int) =~= session.tabs@);
    assert(cached0.take(n as int) =~= cached0);
    assert(path_exists@.take(n as int) =~= path_exists@);
    tabs
}

/// The content hash of the backup `backup_id` of session `session_id`, given
/// the backup read from disk; none when the backup is missing or belongs to
/// another tab or session.
pub fn backup_content_hash(session_id: u64, backup_id: &str, cached: Option<CachedDocument>) -> (r: Option<u64>)
    ensures
        match cached {
            Some(doc) => if backup_matches(doc, backup_id@, session_id) {
                r == Some(fnv1a(vstd::utf8::encode_utf8(doc.content@)))
            } else {
                r is None
            },
            None => r is None,
        },
{
    match cached {
        Some(doc) => {
            if crate::text::str_eq(doc.meta.id.as_str(), backup_id) && doc.meta.session_id == session_id {
                Some(compute_content_hash(doc.content.as_str()))
            } else {
                None
            }
        }
        None => None,
    }
}

/// What a tab hands over to be backed up.
#[derive(Debug)]
pub struct BackupRequest {
    pub path_opt: Option<String>,
    pub content: String,
    pub cursor_line: usize,
    pub cursor_index: usize,
    pub zoom_adj: i8,
    pub existing_backup_id: Option<String>,
}

/// A backup ready to be stored: its id, its file and the document it holds.
#[derive(Debug)]
pub struct BackupPlan {
    pub backup_id: String,
    pub path: String,
    pub document: CachedDocument,
}

pub open spec fn untitled_prefix() -> Seq<char> {
    seq!['u', 'n', 't', 'i', 't', 'l', 'e', 'd', '_']
}

/// The part of a backup id that names the document: the hash of its path,
/// or `untitled_` and a fresh number for a document without one.
pub open spec fn document_id_spec(path_opt: Option<Seq<char>>, untitled_nonce: u64) -> Seq<char> {
    match path_opt {
        Some(p) => hex16(fnv1a(vstd::utf8::encode_utf8(p))),
        None => untitled_prefix() + hex16(untitled_nonce),
    }
}

/// A fresh backup id: the session id, `_`, the document id, and for a new
/// generation `_` and a fresh number.
pub open spec fn generated_backup_id(session_id: u64, path_opt: Option<Seq<char>>, new_generation: bool, untitled_nonce: u64, generation_nonce: u64) -> Seq<char> {
    let base = hex16(session_id) + seq!['_'] + document_id_spec(path_opt, untitled_nonce);
    if new_generation {
        base + seq!['_'] + hex16(generation_nonce)
    } else {
        base
    }
}

/// The id a backup is written under: a fresh one for a new generation,
/// else the tab's existing id, else a fresh one.
pub open spec fn backup_id_spec(session_id: u64, request: BackupRequest, new_generation: bool, untitled_nonce: u64, generation_nonce: u64) -> Seq<char> {
    let path_opt = match request.path_opt { Some(p) => Some(p@), None => None };
    if new_generation || request.existing_backup_id is None {
        generated_backup_id(session_id, path_opt, new_generation, untitled_nonce, generation_nonce)
    } else {
        request.existing_backup_id->0@
    }
}

fn generate_backup_id(session_id: u64, path_opt: &Option<String>, new_generation: bool, untitled_nonce: u64, generation_nonce: u64) -> (r: String)
    ensures
        r@ == generated_backup_id(session_id, match path_opt { Some(p) => Some(p@), None => None }, new_generation, untitled_nonce, generation_nonce),
{
    let doc_id = match path_opt {
        Some(p) => format_hex16(compute_content_hash(p.as_str())),
        None => {
            let prefix = "untitled_";
            proof {
                reveal_strlit("untitled_");
            }
            assert(prefix@ =~= untitled_prefix());
            let hex = format_hex16(untitled_nonce);
            concat2(prefix, hex.as_str())
        }
    };
    let underscore = "_";
    proof {
        reveal_strlit("_");
    }
    assert(underscore@ =~= seq!['_']);
    let session_hex = format_hex16(session_id);
    let base = concat3(session_hex.as_str(), underscore, doc_id.as_str());
    if new_generation {
        let generation_hex = format_hex16(generation_nonce);
        concat3(base.as_str(), underscore, generation_hex.as_str())
    } else {
        base
    }
}

/// Prepares a backup of a tab for session `session_id` under the given
/// backup directory, reusing the tab's backup id. `untitled_nonce` is the
/// fresh number an untitled document's id takes. Fails when the id is unsafe
/// or there is no backup directory (see [`backup_file_path`]).
pub fn write_tab_backup(backup_dir: Option<&str>, session_id: u64, request: BackupRequest, untitled_nonce: u64) -> (r: Result<BackupPlan, BackupPathError>)
    ensures
        backup_plan_ok(backup_dir, session_id, request, false, untitled_nonce, 0, r),
{
    plan_tab_backup(backup_dir, session_id, request, false, untitled_nonce, 0)
}

/// Prepares a backup of a tab under a fresh id of a new generation, so that
/// the previous backup stays untouched until the new one is stored.
pub fn write_tab_backup_generation(backup_dir: Option<&str>, session_id: u64, request: BackupRequest, untitled_nonce: u64, generation_nonce: u64) -> (r: Result<BackupPlan, BackupPathError>)
    ensures
        backup_plan_ok(backup_dir, session_id, request, true, untitled_nonce, generation_nonce, r),
{
    plan_tab_backup(backup_dir, session_id, request, true, untitled_nonce, generation_nonce)
}

/// What preparing a backup yields: the id of [`backup_id_spec`], its file
/// under the backup directory, and a document holding the request's text and
/// cursor; or the reason no file could be named.
pub open spec fn backup_plan_ok(backup_dir: Option<&str>, session_id: u64, request: BackupRequest, new_generation: bool, untitled_nonce: u64, generation_nonce: u64, r: Result<BackupPlan, BackupPathError>) -> bool {
    let id = backup_id_spec(session_id, request, new_generation, untitled_nonce, generation_nonce);
    if !safe_id_spec(id) {
        r == Err::<BackupPlan, BackupPathError>(BackupPathError::InvalidId)
    } else if backup_dir is None {
        r == Err::<BackupPlan, BackupPathError>(BackupPathError::NoBackupDir)
    } else {
        match r {
            Ok(plan) => {
                &&& plan.backup_id@ == id
                &&& plan.path@ == backup_file_path_spec(backup_dir->0@, id)
                &&& plan.document.meta.id@ == id
                &&& plan.document.meta.session_id == session_id
                &&& plan.document.meta.cursor_line == request.cursor_line
                &&& plan.document.meta.cursor_index == request.cursor_index
                &&& plan.document.meta.zoom_adj == request.zoom_adj
                &&& plan.document.content == request.content
            },
            Err(_) => false,
        }
    }
}

fn plan_tab_backup(backup_dir: Option<&str>, session_id: u64, request: BackupRequest, new_generation: bool, untitled_nonce: u64, generation_nonce: u64) -> (r: Result<BackupPlan, BackupPathError>)
    ensures
        backup_plan_ok(backup_dir, session_id, request, new_generation, untitled_nonce, generation_nonce, r),
{
    let ghost req = request;
    let backup_id = if new_generation {
        generate_backup_id(session_id, &request.path_opt, true, untitled_nonce, generation_nonce)
    } else {
        match clone_opt_string(&request.existing_backup_id) {
            Some(id) => id,
            None => generate_backup_id(session_id, &request.path_opt, false, untitled_nonce, generation_nonce),
        }
    };
    let path = backup_file_path(backup_dir, backup_id.as_str());
    match path {
        Ok(path) => {
            let meta = CachedDocumentMeta {
                id: backup_id.clone(),
                session_id,
                cursor_line: request.cursor_line,
                cursor_index: request.cursor_index,
                zoom_adj: request.zoom_adj,
            };
            Ok(BackupPlan { backup_id, path, document: CachedDocument { meta, content: request.content } })
        }
        Err(e) => Err(e),
    }
}

proof fn lemma_hex16_id_chars(v: u64)
    ensures
        hex16(v).len() == 16,
        forall|i: int| 0 <= i < hex16(v).len() ==> #[trigger] crate::backup::is_id_char(hex16(v)[i]),
{
    lemma_hex16_round_trip(v);
    assert forall|i: int| 0 <= i < hex16(v).len() implies #[trigger] crate::backup::is_id_char(hex16(v)[i]) by {
        assert(hex_digit_value(hex16(v)[i]) is Some);
    }
}

/// Law: every backup id the editor makes up is safe as a file name and
/// starts with its session's prefix, so the backup is found again as one of
/// that session's (see `lemma_session_backup_names_carry_id`).
pub proof fn lemma_generated_backup_ids_are_safe(session_id: u64, path_opt: Option<Seq<char>>, new_generation: bool, untitled_nonce: u64, generation_nonce: u64)
    ensures
        safe_id_spec(generated_backup_id(session_id, path_opt, new_generation, untitled_nonce, generation_nonce)),
        seq_starts_with(generated_backup_id(session_id, path_opt, new_generation, untitled_nonce, generation_nonce), session_backup_prefix_spec(session_id)),
        seq_starts_with(generated_backup_id(session_id, path_opt, new_generation, untitled_nonce, generation_nonce) + backup_ext(), session_backup_prefix_spec(session_id)),
        seq_ends_with(generated_backup_id(session_id, path_opt, new_generation, untitled_nonce, generation_nonce) + backup_ext(), backup_ext()),
{
    let id = generated_backup_id(session_id, path_opt, new_generation, untitled_nonce, generation_nonce);
    let sh = hex16(session_id);
    let doc = document_id_spec(path_opt, untitled_nonce);
    lemma_hex16_id_chars(session_id);
    lemma_hex16_id_chars(untitled_nonce);
    lemma_hex16_id_chars(generation_nonce);
    match path_opt {
        Some(p) => lemma_hex16_id_chars(fnv1a(vstd::utf8::encode_utf8(p))),
        None => {},
    }
    assert forall|i: int| 0 <= i < doc.len() implies #[trigger] crate::backup::is_id_char(doc[i]) by {
        match path_opt {
            Some(p) => {},
            None => {
                if i < 9 {
                    assert(doc[i] == untitled_prefix()[i]);
                } else {
                    assert(doc[i] == hex16(untitled_nonce)[i - 9]);
                }
            },
        }
    }
    let base = sh + seq!['_'] + doc;
    assert forall|i: int| 0 <= i < base.len() implies #[trigger] crate::backup::is_id_char(base[i]) by {
        if i < 16 {
            assert(base[i] == sh[i]);
        } else if i == 16 {
        } else {
            assert(base[i] == doc[i - 17]);
        }
    }
    if new_generation {
        let gh = hex16(generation_nonce);
        let full = base + seq!['_'] + gh;
        assert forall|i: int| 0 <= i < full.len() implies #[trigger] crate::backup::is_id_char(full[i]) by {
            if i < base.len() {
                assert(full[i] == base[i]);
            } else if i == base.len() {
            } else {
                assert(full[i] == gh[i - base.len() - 1]);
            }
        }
        assert(full.take(17) =~= session_backup_prefix_spec(session_id));
        assert((full + backup_ext()).take(17) =~= session_backup_prefix_spec(session_id));
        assert((full + backup_ext()).skip((full + backup_ext()).len() - 7) =~= backup_ext());
    } else {
        assert(base.take(17) =~= session_backup_prefix_spec(session_id));
        assert((base + backup_ext()).take(17) =~= session_backup_prefix_spec(session_id));
        assert((base + backup_ext()).skip((base + backup_ext()).len() - 7) =~= backup_ext());
    }
}

/// The backup ids a session's tabs refer to, in tab order.
pub open spec fn referenced_ids_spec(tabs: Seq<SessionTab>) -> Seq<Seq<char>>
    decreases tabs.len(),
{
    if tabs.len() == 0 {
        Seq::empty()
    } else {
        referenced_ids_spec(tabs.drop_last()) + match tabs.last().backup_id {
            Some(b) => seq![b@],
            None => Seq::empty(),
        }
    }
}

/// Collects the backup ids a session's tabs refer to.
pub fn referenced_backup_ids(state: &SessionState) -> (r: Vec<String>)
    ensures
        r@.map_values(|s: String| s@) == referenced_ids_spec(state.tabs@),
{
    let mut ids: Vec<String> = Vec::new();
    let mut i: usize = 0;
    while i < state.tabs.len()
        invariant
            i <= state.tabs@.len(),
            ids@.map_values(|s: String| s@) == referenced_ids_spec(state.tabs@.take(i as int)),
        decreases state.tabs@.len() - i,
    {
        let ghost before = ids@;
        assert(state.tabs@.take(i + 1).drop_last() =~= state.tabs@.take(i as int));
        match &state.tabs[i].backup_id {
            Some(b) => {
                ids.push(b.clone());
                assert(ids@.map_values(|s: String| s@) =~= before.map_values(|s: String| s@) + seq![b@]);
            }
            None => {
                assert(ids@.map_values(|s: String| s@) =~= before.map_values(|s: String| s@) + Seq::<Seq<char>>::empty());
            }
        }
        i = i + 1;
    }
    assert(state.tabs@.take(state.tabs@.len() as int) =~= state.tabs@);
    ids
}

proof fn lemma_referenced_contains(tabs: Seq<SessionTab>, k: int)
    requires
        0 <= k < tabs.len(),
        tabs[k].backup_id is Some,
    ensures
        referenced_ids_spec(tabs).contains(tabs[k].backup_id->0@),
    decreases tabs.len(),
{
    let b = tabs[k].backup_id->0@;
    if k == tabs.len() - 1 {
        let r = referenced_ids_spec(tabs);
        let pre = referenced_ids_spec(tabs.drop_last());
        assert(r == pre + seq![b]);
        assert(r[pre.len() as int] == b);
    } else {
        lemma_referenced_contains(tabs.drop_last(), k);
        let pre = referenced_ids_spec(tabs.drop_last());
        let j = choose|j: int| 0 <= j < pre.len() && pre[j] == b;
        assert(referenced_ids_spec(tabs)[j] == b);
    }
}

/// Law: cleaning up a session never removes a backup that one of its saved
/// tabs still refers to.
pub proof fn lemma_cleanup_keeps_referenced_backups(session_id: u64, state: SessionState, k: int)
    requires
        0 <= k < state.tabs@.len(),
        state.tabs@[k].backup_id is Some,
    ensures
        unreferenced_backup_spec_for(state.tabs@[k].backup_id->0@ + backup_ext(), session_id, state) is None,
{
    let b = state.tabs@[k].backup_id->0@;
    let name = b + backup_ext();
    lemma_referenced_contains(state.tabs@, k);
    assert(seq_ends_with(name, backup_ext())) by {
        assert(name.skip(name.len() - 7) =~= backup_ext());
    }
    assert(name.take(name.len() - 7) =~= b);
}

/// Which backup file of `session_id` may go, judged against a saved session.
pub open spec fn unreferenced_backup_spec_for(name: Seq<char>, session_id: u64, state: SessionState) -> Option<Seq<char>> {
    crate::backup::unreferenced_backup_spec(name, session_id, referenced_ids_spec(state.tabs@))
}

/// What to do with the backups of one session found on disk at start-up.
#[derive(Debug)]
pub enum StaleBackupAction {
    /// Leave them: the session is in use, or its file could not be read.
    Skip,
    /// Remove those the saved session no longer refers to.
    RemoveUnreferenced(Vec<String>),
    /// The session file is gone: remove them all.
    RemoveAll,
}

/// Decides what to do with a session's backups. Nothing is touched unless
/// the session's lock could be taken. With its session file present the
/// backups it refers to are kept (`loaded` is that file, when it could be
/// read); with the file gone all are removed.
pub fn stale_backup_action(lock_acquired: bool, session_file_present: bool, loaded: Option<SessionState>) -> (r: StaleBackupAction)
    ensures
        !lock_acquired ==> r is Skip,
        lock_acquired && !session_file_present ==> r is RemoveAll,
        lock_acquired && session_file_present && loaded is None ==> r is Skip,
        lock_acquired && session_file_present && loaded is Some ==> (match r {
            StaleBackupAction::RemoveUnreferenced(ids) => ids@.map_values(|s: String| s@) == referenced_ids_spec(loaded->0.tabs@),
            _ => false,
        }),
{
    if !lock_acquired {
        return StaleBackupAction::Skip;
    }
    if session_file_present {
        match loaded {
            Some(state) => StaleBackupAction::RemoveUnreferenced(referenced_backup_ids(&state)),
            None => StaleBackupAction::Skip,
        }
    } else {
        StaleBackupAction::RemoveAll
    }
}

/// The other sessions among `session_ids`: those whose liveness decides
/// whether this window shares its work with another.
pub fn other_session_ids(session_id: u64, session_ids: Vec<u64>) -> (r: Vec<u64>)
    ensures
        r@ == session_ids@.filter(|id: u64| id != session_id),
{
    let mut r: Vec<u64> = Vec::new();
    let mut i: usize = 0;
    while i < session_ids.len()
        invariant
            i <= session_ids@.len(),
            r@ == session_ids@.take(i as int).filter(|id: u64| id != session_id),
        decreases session_ids@.len() - i,
    {
        proof {
            reveal_with_fuel(Seq::filter, 1);
            assert(session_ids@.take(i + 1).drop_last() =~= session_ids@.take(i as int));
        }
        if session_ids[i] != session_id {
            r.push(session_ids[i]);
        }
        i = i + 1;
    }
    assert(session_ids@.take(session_ids@.len() as int) =~= session_ids@);
    r
}

} // verus!
