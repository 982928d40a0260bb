//! Git integration: reading `git status -z` output and numbering the lines
//! of a diff.

use vstd::prelude::*;
use crate::paths::{join_path, join_spec};
use crate::text::{split_on, split_spec, str_eq, string_from_chars, to_chars};
use crate::diff_text::{patch_input_ok, patch_input_screened};

verus! {

/// The state of a file on one side (index or work tree) of `git status`.
#[derive(Clone, Copy, Debug, PartialEq, Eq, Structural)]
pub enum GitStatusKind {
    Unmodified,
    Modified,
    FileTypeChanged,
    Added,
    Deleted,
    Renamed,
    Copied,
    Updated,
    Untracked,
    SubmoduleModified,
}

/// The status letter of `git status --short` for each kind.
pub open spec fn status_kind_spec(c: char) -> Option<GitStatusKind> {
    if c == ' ' {
        Some(GitStatusKind::Unmodified)
    } else if c == 'M' {
        Some(GitStatusKind::Modified)
    } else if c == 'T' {
        Some(GitStatusKind::FileTypeChanged)
    } else if c == 'A' {
        Some(GitStatusKind::Added)
    } else if c == 'D' {
        Some(GitStatusKind::Deleted)
    } else if c == 'R' {
        Some(GitStatusKind::Renamed)
    } else if c == 'C' {
        Some(GitStatusKind::Copied)
    } else if c == 'U' {
        Some(GitStatusKind::Updated)
    } else if c == '?' {
        Some(GitStatusKind::Untracked)
    } else if c == 'm' {
        Some(GitStatusKind::SubmoduleModified)
    } else {
        None
    }
}

impl GitStatusKind {
    /// Reads a status letter; any other character is handed back as the error.
    pub fn try_from_char(c: char) -> (r: Result<GitStatusKind, char>)
        ensures
            match status_kind_spec(c) {
                Some(k) => r == Ok::<GitStatusKind, char>(k),
                None => r == Err::<GitStatusKind, char>(c),
            },
    {
        if c == ' ' {
            Ok(GitStatusKind::Unmodified)
        } else if c == 'M' {
            Ok(GitStatusKind::Modified)
        } else if c == 'T' {
            Ok(GitStatusKind::FileTypeChanged)
        } else if c == 'A' {
            Ok(GitStatusKind::Added)
        } else if c == 'D' {
            Ok(GitStatusKind::Deleted)
        } else if c == 'R' {
            Ok(GitStatusKind::Renamed)
        } else if c == 'C' {
            Ok(GitStatusKind::Copied)
        } else if c == 'U' {
            Ok(GitStatusKind::Updated)
        } else if c == '?' {
            Ok(GitStatusKind::Untracked)
        } else if c == 'm' {
            Ok(GitStatusKind::SubmoduleModified)
        } else {
            Err(c)
        }
    }
}

/// The status of one file in a repository.
#[derive(Clone, Debug, PartialEq, Eq)]
pub struct GitStatus {
    pub path: String,
    pub old_path: Option<String>,
    pub staged: GitStatusKind,
    pub unstaged: GitStatusKind,
}

/// A status entry with its paths as character sequences.
pub struct GitStatusView {
    pub path: Seq<char>,
    pub old_path: Option<Seq<char>>,
    pub staged: GitStatusKind,
    pub unstaged: GitStatusKind,
}

impl View for GitStatus {
    type V = GitStatusView;

    open spec fn view(&self) -> GitStatusView {
        GitStatusView {
            path: self.path@,
            old_path: match self.old_path { Some(p) => Some(p@), None => None },
            staged: self.staged,
            unstaged: self.unstaged,
        }
    }
}

/// The two status letters and the space that begin a status record.
pub open spec fn record_head(f: Seq<char>) -> Option<(GitStatusKind, GitStatusKind)> {
    if f.len() >= 3 && status_kind_spec(f[0]) is Some && status_kind_spec(f[1]) is Some && f[2] == ' ' {
        Some((status_kind_spec(f[0])->0, status_kind_spec(f[1])->0))
    } else {
        None
    }
}

/// Law: the status letters read as `git status` documents its short
/// format: ` ` unmodified, `M` modified, `T` file type changed, `A` added,
/// `D` deleted, `R` renamed, `C` copied, `U` updated but unmerged, `?`
/// untracked, `m` submodule modified; no other character is a status, and
/// no two letters read as the same kind.
pub proof fn lemma_status_letters_as_documented(c: char, d: char)
    ensures
        status_kind_spec(' ') == Some(GitStatusKind::Unmodified),
        status_kind_spec('M') == Some(GitStatusKind::Modified),
        status_kind_spec('T') == Some(GitStatusKind::FileTypeChanged),
        status_kind_spec('A') == Some(GitStatusKind::Added),
        status_kind_spec('D') == Some(GitStatusKind::Deleted),
        status_kind_spec('R') == Some(GitStatusKind::Renamed),
        status_kind_spec('C') == Some(GitStatusKind::Copied),
        status_kind_spec('U') == Some(GitStatusKind::Updated),
        status_kind_spec('?') == Some(GitStatusKind::Untracked),
        status_kind_spec('m') == Some(GitStatusKind::SubmoduleModified),
        !(c == ' ' || c == 'M' || c == 'T' || c == 'A' || c == 'D' || c == 'R' || c == 'C' || c == 'U' || c == '?' || c == 'm')
            ==> status_kind_spec(c) is None,
        status_kind_spec(c) is Some && status_kind_spec(c) == status_kind_spec(d) ==> c == d,
{
}

/// The entries `git status -z` output describes, given its NUL-separated
/// fields: each record is two status letters, a space and a path relative to
/// the repository; a rename is followed by a field with the old path. Empty
/// and malformed records are skipped; a rename missing its old path ends the list.
pub open spec fn status_entries(repo: Seq<char>, fields: Seq<Seq<char>>) -> Seq<GitStatusView>
    decreases fields.len(),
{
    if fields.len() == 0 {
        Seq::empty()
    } else {
        let f = fields[0];
        let rest = fields.drop_first();
        if f.len() == 0 {
            status_entries(repo, rest)
        } else {
            match record_head(f) {
                None => status_entries(repo, rest),
                Some((staged, unstaged)) => {
                    let path = join_spec(repo, f.skip(3));
                    if staged == GitStatusKind::Renamed || unstaged == GitStatusKind::Renamed {
                        if rest.len() == 0 {
                            Seq::empty()
                        } else {
                            seq![GitStatusView { path, old_path: Some(join_spec(repo, rest[0])), staged, unstaged }]
                                + status_entries(repo, rest.drop_first())
                        }
                    } else {
                        seq![GitStatusView { path, old_path: None, staged, unstaged }] + status_entries(repo, rest)
                    }
                }
            }
        }
    }
}

/// A git work tree, by the canonical path of its top directory.
#[derive(Clone, Debug, PartialEq, Eq)]
pub struct GitRepository {
    pub path: String,
}

impl GitRepository {
    /// The repository at `canonical_path` (already known to hold `.git`).
    pub fn from_canonical(canonical_path: String) -> (r: Self)
        ensures
            r.path == canonical_path,
    {
        GitRepository { path: canonical_path }
    }

    /// The file statuses that `git status -z` printed (see [`status_entries`]).
    pub fn parse_status(&self, stdout: &str) -> (r: Vec<GitStatus>)
        ensures
            r@.map_values(|s: GitStatus| s@) == status_entries(self.path@, split_spec(stdout@, '\0')),
    {
        let fields = split_on(stdout, '\0');
        let ghost fs = fields@.map_values(|p: String| p@);
        let n = fields.len();
        let mut out: Vec<GitStatus> = Vec::new();
        let mut i: usize = 0;
        assert(fs.skip(0) =~= fs);
        while i < n
            invariant
                n == fields@.len(),
                fs == fields@.map_values(|p: String| p@),
                fs == split_spec(stdout@, '\0'),
                i <= n,
                out@.map_values(|s: GitStatus| s@) + status_entries(self.path@, fs.skip(i as int)) == status_entries(self.path@, fs),
            decreases n - i,
        {
            let f = fields[i].as_str();
            let ghost rest = fs.skip(i as int);
            assert(rest[0] == f@);
            assert(rest.drop_first() =~= fs.skip(i + 1));
            let chars = to_chars(f);
            if chars.len() == 0 {
                i = i + 1;
                continue;
            }
            let head = if chars.len() >= 3 && chars[2] == ' ' {
                match (GitStatusKind::try_from_char(chars[0]), GitStatusKind::try_from_char(chars[1])) {
                    (Ok(a), Ok(b)) => Some((a, b)),
                    _ => None,
                }
            } else {
                None
            };
            assert(head == record_head(f@));
            match head {
                None => {
                    i = i + 1;
                }
                Some((staged, unstaged)) => {
                    let relative = string_from_chars(&chars, 3, chars.len());
                    assert(relative@ =~= f@.skip(3));
                    let path = join_path(self.path.as_str(), relative.as_str());
                    let ghost before = out@.map_values(|s: GitStatus| s@);
                    if staged == GitStatusKind::Renamed || unstaged == GitStatusKind::Renamed {
                        if i + 1 >= n {
                            assert(rest.drop_first().len() == 0);
                            assert(out@.map_values(|s: GitStatus| s@) + Seq::<GitStatusView>::empty() =~= out@.map_values(|s: GitStatus| s@));
                            return out;
                        }
                        let old = join_path(self.path.as_str(), fields[i + 1].as_str());
                        assert(rest.drop_first()[0] == fs[i + 1]);
                        assert(rest.drop_first().drop_first() =~= fs.skip(i + 2));
                        let entry = GitStatus { path, old_path: Some(old), staged, unstaged };
                        out.push(entry);
                        assert(out@.map_values(|s: GitStatus| s@) =~= before + seq![entry@]);
                        i = i + 2;
                    } else {
                        let entry = GitStatus { path, old_path: None, staged, unstaged };
                        out.push(entry);
                        assert(out@.map_values(|s: GitStatus| s@) =~= before + seq![entry@]);
                        i = i + 1;
                    }
                }
            }
        }
        assert(fs.skip(n as int) =~= Seq::<Seq<char>>::empty());
        assert(out@.map_values(|s: GitStatus| s@) + Seq::<GitStatusView>::empty() =~= out@.map_values(|s: GitStatus| s@));
        out
    }
}

/// Which marker the git management page shows for a file: added, deleted or modified.
#[derive(Clone, Copy, Debug, PartialEq, Eq, Structural)]
pub enum StatusMarker {
    Added,
    Deleted,
    Modified,
}

/// The marker for a work-tree change; none when the file is unmodified there.
pub open spec fn unstaged_marker_spec(kind: GitStatusKind) -> Option<StatusMarker> {
    match kind {
        GitStatusKind::Unmodified => None,
        GitStatusKind::Added | GitStatusKind::Untracked => Some(StatusMarker::Added),
        GitStatusKind::Deleted => Some(StatusMarker::Deleted),
        _ => Some(StatusMarker::Modified),
    }
}

/// The marker for a staged change; none when nothing is staged (an untracked
/// file has nothing staged).
pub open spec fn staged_marker_spec(kind: GitStatusKind) -> Option<StatusMarker> {
    match kind {
        GitStatusKind::Unmodified | GitStatusKind::Untracked => None,
        GitStatusKind::Added => Some(StatusMarker::Added),
        GitStatusKind::Deleted => Some(StatusMarker::Deleted),
        _ => Some(StatusMarker::Modified),
    }
}

/// The marker shown for a file's change in the index (`staged`) or in the work tree.
pub fn status_marker(kind: GitStatusKind, staged: bool) -> (r: Option<StatusMarker>)
    ensures
        r == (if staged { staged_marker_spec(kind) } else { unstaged_marker_spec(kind) }),
{
    match kind {
        GitStatusKind::Unmodified => None,
        GitStatusKind::Untracked => if staged { None } else { Some(StatusMarker::Added) },
        GitStatusKind::Added => Some(StatusMarker::Added),
        GitStatusKind::Deleted => Some(StatusMarker::Deleted),
        _ => Some(StatusMarker::Modified),
    }
}

/// Law: the marker names the change. A file shows the deleted marker
/// exactly when it was deleted; the added marker exactly when it was added,
/// or is untracked in the work tree; no marker exactly when nothing changed
/// (an untracked file has nothing staged); every other change shows the
/// modified marker.
pub proof fn lemma_status_marker_names_change(kind: GitStatusKind, staged: bool)
    ensures
        ({
            let r = if staged { staged_marker_spec(kind) } else { unstaged_marker_spec(kind) };
            &&& (r == Some(StatusMarker::Deleted)) <==> kind == GitStatusKind::Deleted
            &&& (r == Some(StatusMarker::Added)) <==> (kind == GitStatusKind::Added || (kind == GitStatusKind::Untracked && !staged))
            &&& r is None <==> (kind == GitStatusKind::Unmodified || (kind == GitStatusKind::Untracked && staged))
            &&& (r == Some(StatusMarker::Modified)) <==> (kind == GitStatusKind::Modified || kind == GitStatusKind::FileTypeChanged
                || kind == GitStatusKind::Renamed || kind == GitStatusKind::Copied || kind == GitStatusKind::Updated
                || kind == GitStatusKind::SubmoduleModified)
        }),
{
}

/// A path shown relative to its project, or whole when it lies outside it.
pub open spec fn relative_or_full(path: Seq<char>, project: Seq<char>) -> Seq<char> {
    match crate::paths::spec_strip_prefix(path, project) {
        Some(rel) => rel,
        None => path,
    }
}

pub open spec fn arrow() -> Seq<char> {
    seq![' ', '-', '>', ' ']
}

/// The text shown for a status entry: its path relative to the project, and
/// for a rename the old path first, as `old -> new`.
pub open spec fn status_label_spec(s: GitStatusView, project: Seq<char>) -> Seq<char> {
    match s.old_path {
        Some(old) => relative_or_full(old, project) + arrow() + relative_or_full(s.path, project),
        None => relative_or_full(s.path, project),
    }
}

fn relative_path(path: &str, project: &str) -> (r: String)
    ensures
        r@ == relative_or_full(path@, project@),
{
    match crate::paths::path_strip_prefix(path, project) {
        Some(rel) => rel,
        None => path.to_string(),
    }
}

/// The label of a status entry in the project at `project_path` (see [`status_label_spec`]).
pub fn status_label(item: &GitStatus, project_path: &str) -> (r: String)
    ensures
        r@ == status_label_spec(item@, project_path@),
{
    let rel = relative_path(item.path.as_str(), project_path);
    match &item.old_path {
        Some(old) => {
            let old_rel = relative_path(old.as_str(), project_path);
            let sep = " -> ";
            proof {
                reveal_strlit(" -> ");
            }
            assert(sep@ =~= arrow());
            crate::text::concat3(old_rel.as_str(), sep, rel.as_str())
        }
        None => rel,
    }
}

/// What a line of a diff hunk is.
#[derive(Clone, Copy, Debug, PartialEq, Eq, Structural)]
pub enum PatchLineKind {
    Context,
    Add,
    Remove,
}

/// A hunk as the diff text gives it: its ranges and its lines.
#[derive(Clone, Debug, PartialEq, Eq)]
pub struct PatchHunk {
    pub old_start: u64,
    pub old_count: u64,
    pub new_start: u64,
    pub new_count: u64,
    pub lines: Vec<(PatchLineKind, String)>,
}

pub struct PatchHunkView {
    pub old_start: u64,
    pub old_count: u64,
    pub new_start: u64,
    pub new_count: u64,
    pub lines: Seq<(PatchLineKind, Seq<char>)>,
}

impl View for PatchHunk {
    type V = PatchHunkView;

    open spec fn view(&self) -> PatchHunkView {
        PatchHunkView {
            old_start: self.old_start,
            old_count: self.old_count,
            new_start: self.new_start,
            new_count: self.new_count,
            lines: self.lines@.map_values(|l: (PatchLineKind, String)| (l.0, l.1@)),
        }
    }
}

/// The hunks the `patch` crate reads from the diff of one file, or `None`
/// when it cannot read it.
pub uninterp spec fn spec_parse_patch(text: Seq<char>) -> Option<Seq<PatchHunkView>>;

/// Calls `patch::Patch::from_single` and hands back each hunk's ranges and
/// lines as plain values, or the parse error's message. What it accepts and
/// how it splits the text is named, not stated. The parser panics when a
/// hunk number does not fit in a `u64` and when text it does not read is
/// left after the hunks; `requires` admits only text of the shape that
/// [`patch_input_ok`] describes, on which neither happens.
#[verifier::external_body]
fn parse_patch(text: &str) -> (r: Result<Vec<PatchHunk>, String>)
    requires
        patch_input_ok(text@),
    ensures
        match r {
            Ok(h) => spec_parse_patch(text@) == Some(h@.map_values(|x: PatchHunk| x@)),
            Err(_) => spec_parse_patch(text@) is None,
        },
{
    let patch = patch::Patch::from_single(text).map_err(|e| e.to_string())?;
    Ok(patch.hunks.iter().map(|h| PatchHunk {
        old_start: h.old_range.start, old_count: h.old_range.count,
        new_start: h.new_range.start, new_count: h.new_range.count,
        lines: h.lines.iter().map(|l| match l {
            patch::Line::Context(t) => (PatchLineKind::Context, t.to_string()),
            patch::Line::Add(t) => (PatchLineKind::Add, t.to_string()),
            patch::Line::Remove(t) => (PatchLineKind::Remove, t.to_string()),
        }).collect(),
    }).collect())
}

/// The start and length of a hunk in the old or the new file.
#[derive(Clone, Copy, Debug, PartialEq, Eq, Structural)]
pub struct DiffRange {
    pub start: u64,
    pub count: u64,
}

/// A line of a hunk with its line numbers in the old and new file.
#[derive(Clone, Debug, PartialEq, Eq)]
pub enum GitDiffLine {
    Context { old_line: u64, new_line: u64, text: String },
    Added { new_line: u64, text: String },
    Deleted { old_line: u64, text: String },
}

pub enum GitDiffLineView {
    Context { old_line: u64, new_line: u64, text: Seq<char> },
    Added { new_line: u64, text: Seq<char> },
    Deleted { old_line: u64, text: Seq<char> },
}

impl View for GitDiffLine {
    type V = GitDiffLineView;

    open spec fn view(&self) -> GitDiffLineView {
        match self {
            GitDiffLine::Context { old_line, new_line, text } => GitDiffLineView::Context { old_line: *old_line, new_line: *new_line, text: text@ },
            GitDiffLine::Added { new_line, text } => GitDiffLineView::Added { new_line: *new_line, text: text@ },
            GitDiffLine::Deleted { old_line, text } => GitDiffLineView::Deleted { old_line: *old_line, text: text@ },
        }
    }
}

/// A hunk ready to be shown.
#[derive(Clone, Debug, PartialEq, Eq)]
pub struct GitDiffHunk {
    pub old_range: DiffRange,
    pub new_range: DiffRange,
    pub lines: Vec<GitDiffLine>,
}

/// The diff of one file, staged or not.
#[derive(Clone, Debug, PartialEq, Eq)]
pub struct GitDiff {
    pub path: String,
    pub staged: bool,
    pub hunks: Vec<GitDiffHunk>,
}

/// How many lines of the old file (context and removed lines) `lines` cover.
pub open spec fn old_steps(lines: Seq<(PatchLineKind, Seq<char>)>) -> nat
    decreases lines.len(),
{
    if lines.len() == 0 { 0 } else { old_steps(lines.drop_first()) + if lines[0].0 != PatchLineKind::Add { 1nat } else { 0nat } }
}

/// How many lines of the new file (context and added lines) `lines` cover.
pub open spec fn new_steps(lines: Seq<(PatchLineKind, Seq<char>)>) -> nat
    decreases lines.len(),
{
    if lines.len() == 0 { 0 } else { new_steps(lines.drop_first()) + if lines[0].0 != PatchLineKind::Remove { 1nat } else { 0nat } }
}

/// The lines of a hunk numbered from `old` and `new`: a context line takes
/// the next number of both files, an added line the next new one, a removed
/// line the next old one.
pub open spec fn numbered_lines(lines: Seq<(PatchLineKind, Seq<char>)>, old: int, new: int) -> Seq<GitDiffLineView>
    decreases lines.len(),
{
    if lines.len() == 0 {
        Seq::empty()
    } else {
        let (k, t) = lines[0];
        let head = match k {
            PatchLineKind::Context => GitDiffLineView::Context { old_line: old as u64, new_line: new as u64, text: t },
            PatchLineKind::Add => GitDiffLineView::Added { new_line: new as u64, text: t },
            PatchLineKind::Remove => GitDiffLineView::Deleted { old_line: old as u64, text: t },
        };
        seq![head] + numbered_lines(lines.drop_first(), if k != PatchLineKind::Add { old + 1 } else { old }, if k != PatchLineKind::Remove { new + 1 } else { new })
    }
}

/// Whether the line numbers of a hunk stay within 64 bits.
pub open spec fn hunk_fits(h: PatchHunkView) -> bool {
    h.old_start + old_steps(h.lines) <= u64::MAX && h.new_start + new_steps(h.lines) <= u64::MAX
}

proof fn lemma_steps_drop_first(lines: Seq<(PatchLineKind, Seq<char>)>)
    requires
        lines.len() > 0,
    ensures
        old_steps(lines) == old_steps(lines.drop_first()) + if lines[0].0 != PatchLineKind::Add { 1nat } else { 0nat },
        new_steps(lines) == new_steps(lines.drop_first()) + if lines[0].0 != PatchLineKind::Remove { 1nat } else { 0nat },
{
}

/// Whether `hunk`'s line numbers stay within 64 bits.
pub fn hunk_numbers_fit(hunk: &PatchHunk) -> (r: bool)
    ensures
        r == hunk_fits(hunk@),
{
    let ghost ls = hunk@.lines;
    let n = hunk.lines.len();
    let mut old_total: u64 = hunk.old_start;
    let mut new_total: u64 = hunk.new_start;
    let mut i: usize = 0;
    assert(ls.skip(0) =~= ls);
    while i < n
        invariant
            n == hunk.lines@.len(),
            ls == hunk@.lines,
            ls.len() == n,
            i <= n,
            old_total + old_steps(ls.skip(i as int)) == hunk.old_start + old_steps(ls),
            new_total + new_steps(ls.skip(i as int)) == hunk.new_start + new_steps(ls),
        decreases n - i,
    {
        let kind = hunk.lines[i].0;
        proof {
            lemma_steps_drop_first(ls.skip(i as int));
            assert(ls.skip(i as int).drop_first() =~= ls.skip(i + 1));
            assert(ls.skip(i as int)[0].0 == kind);
        }
        if kind != PatchLineKind::Add {
            if old_total == u64::MAX {
                return false;
            }
            old_total = old_total + 1;
        }
        if kind != PatchLineKind::Remove {
            if new_total == u64::MAX {
                return false;
            }
            new_total = new_total + 1;
        }
        i = i + 1;
    }
    true
}

pub open spec fn hunk_view(h: PatchHunkView) -> (DiffRange, DiffRange, Seq<GitDiffLineView>) {
    (DiffRange { start: h.old_start, count: h.old_count }, DiffRange { start: h.new_start, count: h.new_count }, numbered_lines(h.lines, h.old_start as int, h.new_start as int))
}

/// Numbers the lines of a hunk (see [`numbered_lines`]); its numbers must
/// stay within 64 bits.
pub fn number_hunk(hunk: &PatchHunk) -> (r: GitDiffHunk)
    requires
        hunk_fits(hunk@),
    ensures
        (r.old_range, r.new_range, r.lines@.map_values(|l: GitDiffLine| l@)) == hunk_view(hunk@),
{
    let ghost ls = hunk@.lines;
    let n = hunk.lines.len();
    let mut old_line: u64 = hunk.old_start;
    let mut new_line: u64 = hunk.new_start;
    let mut lines: Vec<GitDiffLine> = Vec::new();
    let mut i: usize = 0;
    assert(ls.skip(0) =~= ls);
    while i < n
        invariant
            n == hunk.lines@.len(),
            ls == hunk@.lines,
            ls.len() == n,
            i <= n,
            old_line + old_steps(ls.skip(i as int)) <= u64::MAX,
            new_line + new_steps(ls.skip(i as int)) <= u64::MAX,
            lines@.map_values(|l: GitDiffLine| l@) + numbered_lines(ls.skip(i as int), old_line as int, new_line as int)
                == numbered_lines(ls, hunk.old_start as int, hunk.new_start as int),
        decreases n - i,
    {
        let (kind, text) = &hunk.lines[i];
        let ghost rest = ls.skip(i as int);
        proof {
            lemma_steps_drop_first(rest);
            assert(rest.drop_first() =~= ls.skip(i + 1));
            assert(rest[0] == (*kind, text@));
        }
        let line = match kind {
            PatchLineKind::Context => GitDiffLine::Context { old_line, new_line, text: text.clone() },
            PatchLineKind::Add => GitDiffLine::Added { new_line, text: text.clone() },
            PatchLineKind::Remove => GitDiffLine::Deleted { old_line, text: text.clone() },
        };
        let ghost before = lines@.map_values(|l: GitDiffLine| l@);
        lines.push(line);
        assert(lines@.map_values(|l: GitDiffLine| l@) =~= before.push(line@));
        assert(numbered_lines(rest, old_line as int, new_line as int) =~= seq![line@] + numbered_lines(ls.skip(i + 1),
            if *kind != PatchLineKind::Add { old_line + 1 } else { old_line as int },
            if *kind != PatchLineKind::Remove { new_line + 1 } else { new_line as int }));
        if *kind != PatchLineKind::Add {
            old_line = old_line + 1;
        }
        if *kind != PatchLineKind::Remove {
            new_line = new_line + 1;
        }
        assert(before.push(line@) + numbered_lines(ls.skip(i + 1), old_line as int, new_line as int)
            =~= before + (seq![line@] + numbered_lines(ls.skip(i + 1), old_line as int, new_line as int)));
        i = i + 1;
    }
    assert(ls.skip(n as int) =~= Seq::<(PatchLineKind, Seq<char>)>::empty());
    assert(lines@.map_values(|l: GitDiffLine| l@) + Seq::<GitDiffLineView>::empty() =~= lines@.map_values(|l: GitDiffLine| l@));
    GitDiffHunk {
        old_range: DiffRange { start: hunk.old_start, count: hunk.old_count },
        new_range: DiffRange { start: hunk.new_start, count: hunk.new_count },
        lines,
    }
}

/// Why a diff could not be shown.
#[derive(Clone, Debug, PartialEq, Eq)]
pub enum GitDiffError {
    /// The diff text could not be parsed; the parser's message.
    Parse(String),
    /// The diff text is not of the shape the parser is handed (see
    /// [`patch_input_ok`]).
    Unsupported,
    /// A hunk's line numbers would pass the largest 64-bit number.
    LineNumberOverflow,
}

pub open spec fn diff_hunks_view(d: GitDiff) -> Seq<(DiffRange, DiffRange, Seq<GitDiffLineView>)> {
    d.hunks@.map_values(|h: GitDiffHunk| (h.old_range, h.new_range, h.lines@.map_values(|l: GitDiffLine| l@)))
}

/// Builds the diff of `path` from the output of `git diff`: every hunk the
/// parser reads, numbered (see [`numbered_lines`]). Fails when the text is
/// not of the shape the parser is handed, when it cannot be parsed, or when
/// a hunk's numbers would not fit in 64 bits.
pub fn diff_from_output(path: String, staged: bool, diff_text: &str) -> (r: Result<GitDiff, GitDiffError>)
    ensures
        !patch_input_ok(diff_text@) ==> r == Err::<GitDiff, GitDiffError>(GitDiffError::Unsupported),
        patch_input_ok(diff_text@) ==> match spec_parse_patch(diff_text@) {
            None => r matches Err(GitDiffError::Parse(_)),
            Some(hs) => if forall|j: int| 0 <= j < hs.len() ==> #[trigger] hunk_fits(hs[j]) {
                r matches Ok(d) && d.path == path && d.staged == staged
                    && diff_hunks_view(d) == hs.map_values(|h: PatchHunkView| hunk_view(h))
            } else {
                r == Err::<GitDiff, GitDiffError>(GitDiffError::LineNumberOverflow)
            },
        },
{
    if !patch_input_screened(diff_text) {
        return Err(GitDiffError::Unsupported);
    }
    let hunks = match parse_patch(diff_text) {
        Ok(h) => h,
        Err(msg) => return Err(GitDiffError::Parse(msg)),
    };
    let ghost hs = hunks@.map_values(|x: PatchHunk| x@);
    let n = hunks.len();
    let mut i: usize = 0;
    while i < n
        invariant
            n == hunks@.len(),
            hs == hunks@.map_values(|x: PatchHunk| x@),
            spec_parse_patch(diff_text@) == Some(hs),
            patch_input_ok(diff_text@),
            hs.len() == n,
            i <= n,
            forall|j: int| 0 <= j < i ==> #[trigger] hunk_fits(hs[j]),
        decreases n - i,
    {
        if !hunk_numbers_fit(&hunks[i]) {
            assert(!hunk_fits(hs[i as int]));
            assert(!(forall|j: int| 0 <= j < hs.len() ==> #[trigger] hunk_fits(hs[j])));
            let r: Result<GitDiff, GitDiffError> = Err(GitDiffError::LineNumberOverflow);
            assert(match spec_parse_patch(diff_text@) {
                None => false,
                Some(hs2) => hs2 == hs,
            });
            return r;
        }
        i = i + 1;
    }
    let mut out: Vec<GitDiffHunk> = Vec::new();
    let mut k: usize = 0;
    while k < n
        invariant
            n == hunks@.len(),
            hs == hunks@.map_values(|x: PatchHunk| x@),
            k <= n,
            forall|j: int| 0 <= j < n ==> #[trigger] hunk_fits(hs[j]),
            out@.map_values(|h: GitDiffHunk| (h.old_range, h.new_range, h.lines@.map_values(|l: GitDiffLine| l@)))
                == hs.take(k as int).map_values(|h: PatchHunkView| hunk_view(h)),
        decreases n - k,
    {
        assert(hs[k as int] == hunks@[k as int]@);
        let h = number_hunk(&hunks[k]);
        let ghost before = out@.map_values(|h: GitDiffHunk| (h.old_range, h.new_range, h.lines@.map_values(|l: GitDiffLine| l@)));
        let ghost hv = (h.old_range, h.new_range, h.lines@.map_values(|l: GitDiffLine| l@));
        assert(hv == hunk_view(hs[k as int]));
        out.push(h);
        assert(out@.map_values(|h: GitDiffHunk| (h.old_range, h.new_range, h.lines@.map_values(|l: GitDiffLine| l@)))
            =~= before.push(hv));
        assert(hs.take(k + 1) =~= hs.take(k as int).push(hs[k as int]));
        assert(hs.take(k + 1).map_values(|h: PatchHunkView| hunk_view(h))
            =~= hs.take(k as int).map_values(|h: PatchHunkView| hunk_view(h)).push(hunk_view(hs[k as int])));
        k = k + 1;
    }
    assert(hs.take(n as int) =~= hs);
    Ok(GitDiff { path, staged, hunks: out })
}

pub open spec fn colon_space() -> Seq<char> {
    seq![':', ' ']
}

/// The title of a diff tab: which changes it shows (`staged_label` or
/// `unstaged_label`), `: `, and the file's path relative to its project.
pub fn diff_tab_title(diff: &GitDiff, project_path: &str, staged_label: &str, unstaged_label: &str) -> (r: String)
    ensures
        r@ == (if diff.staged { staged_label@ } else { unstaged_label@ }) + colon_space() + relative_or_full(diff.path@, project_path@),
{
    let rel = relative_path(diff.path.as_str(), project_path);
    let sep = ": ";
    proof {
        reveal_strlit(": ");
    }
    assert(sep@ =~= colon_space());
    let label = if diff.staged { staged_label } else { unstaged_label };
    crate::text::concat3(label, sep, rel.as_str())
}

/// The open diff tabs that a new diff of the same file replaces, given the
/// path each diff tab shows (`None` for other tabs).
pub fn replaced_diff_tabs(tab_diff_paths: &Vec<Option<String>>, path: &str) -> (r: Vec<usize>)
    ensures
        forall|k: int| 0 <= k < r@.len() ==> (#[trigger] r@[k]) < tab_diff_paths@.len()
            && (tab_diff_paths@[r@[k] as int] matches Some(p) && crate::paths::spec_path_eq(p@, path@)),
        forall|t: int| 0 <= t < tab_diff_paths@.len() && (#[trigger] tab_diff_paths@[t] matches Some(p) && crate::paths::spec_path_eq(p@, path@))
            ==> r@.contains(t as usize),
        forall|a: int, b: int| 0 <= a < b < r@.len() ==> r@[a] < r@[b],
{
    let n: usize = tab_diff_paths.len();
    let mut out: Vec<usize> = Vec::new();
    let mut i: usize = 0;
    while i < n
        invariant
            n == tab_diff_paths@.len(),
            i <= n,
            forall|k: int| 0 <= k < out@.len() ==> (#[trigger] out@[k]) < i
                && (tab_diff_paths@[out@[k] as int] matches Some(p) && crate::paths::spec_path_eq(p@, path@)),
            forall|t: int| 0 <= t < i && (#[trigger] tab_diff_paths@[t] matches Some(p) && crate::paths::spec_path_eq(p@, path@))
                ==> out@.contains(t as usize),
            forall|a: int, b: int| 0 <= a < b < out@.len() ==> out@[a] < out@[b],
        decreases n - i,
    {
        let ghost before = out@;
        match &tab_diff_paths[i] {
            Some(p) => {
                if crate::paths::path_eq(p.as_str(), path) {
                    out.push(i);
                    assert forall|t: int| 0 <= t < i + 1 && (#[trigger] tab_diff_paths@[t] matches Some(p) && crate::paths::spec_path_eq(p@, path@))
                        implies out@.contains(t as usize) by {
                        if t < i {
                            let k = choose|k: int| 0 <= k < before.len() && before[k] == t as usize;
                            assert(out@[k] == before[k]);
                        } else {
                            assert(out@[before.len() as int] == i);
                        }
                    }
                }
            }
            None => {}
        }
        i = i + 1;
    }
    out
}

/// A project's name, folder and file statuses.
pub type ProjectStatus = (String, String, Vec<GitStatus>);

pub open spec fn has_changes(p: ProjectStatus) -> bool {
    p.2@.len() > 0
}

/// The projects the git page lists: those with at least one changed file, in order.
pub fn changed_projects(statuses: Vec<ProjectStatus>) -> (r: Vec<ProjectStatus>)
    ensures
        r@ == statuses@.filter(|p: ProjectStatus| has_changes(p)),
{
    let ghost all = statuses@;
    let mut statuses = statuses;
    let mut rev: Vec<ProjectStatus> = Vec::new();
    while statuses.len() > 0
        invariant
            all == statuses@ + rev@.reverse(),
        decreases statuses@.len(),
    {
        let p = statuses.pop().unwrap();
        let ghost before = rev@;
        rev.push(p);
        assert(rev@.reverse() =~= seq![p] + before.reverse());
        assert(all =~= statuses@ + rev@.reverse());
    }
    assert(rev@.reverse() =~= all);
    let mut out: Vec<ProjectStatus> = Vec::new();
    let ghost mut done: int = 0;
    while rev.len() > 0
        invariant
            0 <= done <= all.len(),
            rev@.reverse() == all.skip(done),
            out@ == all.take(done).filter(|p: ProjectStatus| has_changes(p)),
        decreases rev@.len(),
    {
        let ghost before = rev@;
        let p = rev.pop().unwrap();
        proof {
            assert(before.reverse() =~= seq![p] + rev@.reverse());
            assert(all.skip(done)[0] == p);
            assert(all.take(done + 1).drop_last() =~= all.take(done));
            assert(all.take(done + 1).last() == p);
            reveal_with_fuel(Seq::filter, 1);
        }
        let keep = p.2.len() > 0;
        if keep {
            out.push(p);
        }
        proof {
            assert(all.skip(done + 1) =~= all.skip(done).drop_first());
            assert((seq![p] + rev@.reverse()).drop_first() =~= rev@.reverse());
            assert(rev@.reverse() =~= all.skip(done + 1));
            done = done + 1;
        }
    }
    assert(all.take(done) =~= all);
    out
}

} // verus!
