//! The project tree of the navigation bar, kept as a list of rows: each row
//! a node and its indentation, a folder's contents shown as the rows right
//! after it that are indented deeper.

use vstd::prelude::*;
use crate::project::ProjectNode;
use crate::paths::{path_eq, path_parent, path_starts_with, spec_parent, spec_path_eq, spec_path_starts_with};

verus! {

/// A row of the tree.
#[derive(Clone, Debug, PartialEq, Eq)]
pub struct TreeEntry {
    pub node: ProjectNode,
    pub indent: u16,
}

/// The first row at or after `from` that is not indented deeper than `indent`
/// (the number of rows when there is none).
pub open spec fn subtree_end_from(rows: Seq<TreeEntry>, indent: u16, from: int) -> int
    decreases rows.len() - from,
{
    if from >= rows.len() || rows[from].indent <= indent {
        from
    } else {
        subtree_end_from(rows, indent, from + 1)
    }
}

/// The end of the rows shown inside row `position`.
pub open spec fn subtree_end(rows: Seq<TreeEntry>, position: int) -> int {
    subtree_end_from(rows, rows[position].indent, position + 1)
}

/// The node with its folder marked open or closed (a file stays as it is).
pub open spec fn with_open(n: ProjectNode, open: bool) -> ProjectNode {
    match n {
        ProjectNode::Folder { name, path, root, .. } => ProjectNode::Folder { name, path, open, root },
        ProjectNode::File { name, path } => ProjectNode::File { name, path },
    }
}

/// The rows after closing the folder at `position`: it is marked closed and
/// the rows shown inside it are gone.
pub open spec fn close_folder_spec(rows: Seq<TreeEntry>, position: int) -> Seq<TreeEntry> {
    rows.take(position) + seq![TreeEntry { node: with_open(rows[position].node, false), indent: rows[position].indent }]
        + rows.skip(subtree_end(rows, position))
}

pub open spec fn rows_of(nodes: Seq<ProjectNode>, indent: u16) -> Seq<TreeEntry> {
    nodes.map_values(|n: ProjectNode| TreeEntry { node: n, indent })
}

/// The rows with `nodes` shown at `position`, indented by `indent`.
pub open spec fn insert_children_spec(rows: Seq<TreeEntry>, position: int, indent: u16, nodes: Seq<ProjectNode>) -> Seq<TreeEntry> {
    rows.take(position) + rows_of(nodes, indent) + rows.skip(position)
}

proof fn lemma_subtree_end_from(rows: Seq<TreeEntry>, indent: u16, from: int)
    requires
        0 <= from <= rows.len(),
    ensures
        from <= subtree_end_from(rows, indent, from) <= rows.len(),
        forall|i: int| from <= i < subtree_end_from(rows, indent, from) ==> (#[trigger] rows[i]).indent > indent,
        subtree_end_from(rows, indent, from) < rows.len() ==> rows[subtree_end_from(rows, indent, from)].indent <= indent,
    decreases rows.len() - from,
{
    if from < rows.len() && rows[from].indent > indent {
        lemma_subtree_end_from(rows, indent, from + 1);
    }
}

/// Where the rows shown inside row `position` end.
pub fn subtree_end_index(rows: &Vec<TreeEntry>, position: usize) -> (r: usize)
    requires
        position < rows@.len(),
    ensures
        r == subtree_end(rows@, position as int),
        position < r <= rows@.len(),
{
    let n: usize = rows.len();
    let indent = rows[position].indent;
    let mut i: usize = position + 1;
    while i < rows.len() && rows[i].indent > indent
        invariant
            position < i <= rows@.len(),
            indent == rows@[position as int].indent,
            subtree_end_from(rows@, indent, i as int) == subtree_end(rows@, position as int),
        decreases rows@.len() - i,
    {
        i = i + 1;
    }
    i
}

fn set_open(rows: &mut Vec<TreeEntry>, position: usize, open: bool)
    requires
        position < old(rows)@.len(),
    ensures
        final(rows)@ == old(rows)@.update(position as int, TreeEntry { node: with_open(old(rows)@[position as int].node, open), indent: old(rows)@[position as int].indent }),
{
    let e = rows.remove(position);
    let node = match e.node {
        ProjectNode::Folder { name, path, root, .. } => ProjectNode::Folder { name, path, open, root },
        ProjectNode::File { name, path } => ProjectNode::File { name, path },
    };
    let ghost before = rows@;
    rows.insert(position, TreeEntry { node, indent: e.indent });
    assert(rows@ =~= old(rows)@.update(position as int, TreeEntry { node: with_open(old(rows)@[position as int].node, open), indent: old(rows)@[position as int].indent }));
}

/// Closes the folder at `position` (see [`close_folder_spec`]).
pub fn close_folder(rows: &mut Vec<TreeEntry>, position: usize)
    requires
        position < old(rows)@.len(),
    ensures
        final(rows)@ == close_folder_spec(old(rows)@, position as int),
{
    let ghost orig = rows@;
    let end = subtree_end_index(rows, position);
    proof {
        lemma_subtree_end_from(orig, orig[position as int].indent, position + 1);
    }
    let mut k: usize = position + 1;
    while k < end
        invariant
            position < k <= end <= orig.len(),
            end == subtree_end(orig, position as int),
            rows@ == orig.take(position + 1) + orig.skip(k as int),
        decreases end - k,
    {
        rows.remove(position + 1);
        assert(rows@ =~= orig.take(position + 1) + orig.skip(k + 1));
        k = k + 1;
    }
    set_open(rows, position, false);
    assert(rows@ =~= close_folder_spec(orig, position as int));
}

/// Shows `nodes` at `position` with indentation `indent` (see [`insert_children_spec`]).
pub fn insert_children(rows: &mut Vec<TreeEntry>, position: usize, indent: u16, nodes: Vec<ProjectNode>)
    requires
        position <= old(rows)@.len(),
    ensures
        final(rows)@ == insert_children_spec(old(rows)@, position as int, indent, nodes@),
{
    let ghost orig = rows@;
    let ghost all = nodes@;
    let mut nodes = nodes;
    assert(all.skip(all.len() as int) =~= Seq::<ProjectNode>::empty());
    assert(rows@ =~= orig.take(position as int) + rows_of(all.skip(all.len() as int), indent) + orig.skip(position as int));
    while nodes.len() > 0
        invariant
            position <= orig.len(),
            nodes@ == all.take(nodes@.len() as int),
            nodes@.len() <= all.len(),
            rows@ == orig.take(position as int) + rows_of(all.skip(nodes@.len() as int), indent) + orig.skip(position as int),
        decreases nodes@.len(),
    {
        let ghost n = nodes@.len();
        let node = nodes.pop().unwrap();
        assert(node == all[n - 1]);
        rows.insert(position, TreeEntry { node, indent });
        assert(all.skip(n - 1) =~= seq![all[n - 1]] + all.skip(n as int));
        assert(rows_of(all.skip(n - 1), indent) =~= seq![TreeEntry { node, indent }] + rows_of(all.skip(n as int), indent));
        assert(rows@ =~= orig.take(position as int) + rows_of(all.skip(n - 1), indent) + orig.skip(position as int));
        assert(nodes@ =~= all.take(n - 1));
    }
    assert(all.skip(0) =~= all);
}

/// What selecting a row asks of the caller.
#[derive(Debug, PartialEq, Eq)]
pub enum NavSelect {
    /// A folder was opened: list `path` and show its entries at `position`
    /// with indentation `indent`.
    OpenFolder { path: String, position: usize, indent: u16 },
    /// A folder was closed.
    FolderClosed,
    /// Open the file at this path.
    OpenFile(String),
}

/// Selecting row `position`: a file is opened; a folder is toggled, its
/// contents hidden when it closes, and listed by the caller when it opens.
/// An opened folder's contents go one level deeper than the folder, so its
/// indentation must leave room for one more.
pub fn select(rows: &mut Vec<TreeEntry>, position: usize) -> (r: NavSelect)
    requires
        position < old(rows)@.len(),
        old(rows)@[position as int].indent < u16::MAX,
    ensures
        match old(rows)@[position as int].node {
            ProjectNode::File { path, .. } => r == NavSelect::OpenFile(path) && final(rows)@ == old(rows)@,
            ProjectNode::Folder { path, open, .. } => if open {
                r == NavSelect::FolderClosed && final(rows)@ == close_folder_spec(old(rows)@, position as int)
            } else {
                r == NavSelect::OpenFolder { path, position: (position + 1) as usize, indent: (old(rows)@[position as int].indent + 1) as u16 }
                    && final(rows)@ == old(rows)@.update(position as int, TreeEntry { node: with_open(old(rows)@[position as int].node, true), indent: old(rows)@[position as int].indent })
            },
        },
{
    let len: usize = rows.len();
    let indent = rows[position].indent;
    let (is_folder, is_open, path) = match &rows[position].node {
        ProjectNode::Folder { path, open, .. } => (true, *open, path.clone()),
        ProjectNode::File { path, .. } => (false, false, path.clone()),
    };
    if !is_folder {
        return NavSelect::OpenFile(path);
    }
    if is_open {
        close_folder(rows, position);
        NavSelect::FolderClosed
    } else {
        set_open(rows, position, true);
        NavSelect::OpenFolder { path, position: position + 1, indent: indent + 1 }
    }
}

pub open spec fn folder_path_is(n: ProjectNode, path: Seq<char>) -> bool {
    n matches ProjectNode::Folder { path: p, .. } && spec_path_eq(p@, path)
}

pub open spec fn is_root_folder(n: ProjectNode) -> bool {
    n matches ProjectNode::Folder { root, .. } && root
}

/// The first row at or after `from` holding the folder at `path` (the number
/// of rows when there is none).
pub open spec fn first_project_row(rows: Seq<TreeEntry>, path: Seq<char>, from: int) -> int
    decreases rows.len() - from,
{
    if from >= rows.len() || folder_path_is(rows[from].node, path) {
        from
    } else {
        first_project_row(rows, path, from + 1)
    }
}

/// The first row at or after `from` holding a project's root folder.
pub open spec fn first_root_row(rows: Seq<TreeEntry>, from: int) -> int
    decreases rows.len() - from,
{
    if from >= rows.len() || is_root_folder(rows[from].node) {
        from
    } else {
        first_root_row(rows, from + 1)
    }
}

/// The rows after closing the project at `root_path`: from its folder up to
/// the next project's root folder, all rows go; nothing changes when no
/// folder has that path.
pub open spec fn close_project_spec(rows: Seq<TreeEntry>, root_path: Seq<char>) -> Seq<TreeEntry> {
    let k = first_project_row(rows, root_path, 0);
    if k >= rows.len() {
        rows
    } else {
        rows.take(k) + rows.skip(first_root_row(rows, k + 1))
    }
}

proof fn lemma_first_root_row(rows: Seq<TreeEntry>, from: int)
    requires
        0 <= from <= rows.len(),
    ensures
        from <= first_root_row(rows, from) <= rows.len(),
        forall|i: int| from <= i < first_root_row(rows, from) ==> !is_root_folder((#[trigger] rows[i]).node),
        first_root_row(rows, from) < rows.len() ==> is_root_folder(rows[first_root_row(rows, from)].node),
    decreases rows.len() - from,
{
    if from < rows.len() && !is_root_folder(rows[from].node) {
        lemma_first_root_row(rows, from + 1);
    }
}

fn is_folder_at(node: &ProjectNode, root_path: &str) -> (r: bool)
    ensures
        r == folder_path_is(*node, root_path@),
{
    match node {
        ProjectNode::Folder { path, .. } => path_eq(path.as_str(), root_path),
        ProjectNode::File { .. } => false,
    }
}

/// Removes the rows of the project whose root folder is at `root_path`
/// (see [`close_project_spec`]).
pub fn close_project(rows: &mut Vec<TreeEntry>, root_path: &str)
    ensures
        final(rows)@ == close_project_spec(old(rows)@, root_path@),
{
    let ghost orig = rows@;
    let n: usize = rows.len();
    let mut k: usize = 0;
    while k < n && !is_folder_at(&rows[k].node, root_path)
        invariant
            n == rows@.len(),
            rows@ == orig,
            k <= n,
            first_project_row(orig, root_path@, k as int) == first_project_row(orig, root_path@, 0),
        decreases n - k,
    {
        k = k + 1;
    }
    if k >= n {
        return;
    }
    proof {
        lemma_first_root_row(orig, k + 1);
    }
    let ghost end = first_root_row(orig, k + 1);
    rows.remove(k);
    assert(rows@ =~= orig.take(k as int) + orig.skip(k + 1));
    let mut next: usize = k + 1;
    while next < n && !is_root_at(&rows[k].node)
        invariant
            k < next <= end <= n,
            n == orig.len(),
            end == first_root_row(orig, k + 1),
            end < n ==> is_root_folder(orig[end].node),
            rows@ == orig.take(k as int) + orig.skip(next as int),
            next < n ==> rows@[k as int] == orig[next as int],
        decreases n - next,
    {
        rows.remove(k);
        assert(rows@ =~= orig.take(k as int) + orig.skip(next + 1));
        next = next + 1;
    }
}

fn is_root_at(node: &ProjectNode) -> (r: bool)
    ensures
        r == is_root_folder(*node),
{
    match node {
        ProjectNode::Folder { root, .. } => *root,
        ProjectNode::File { .. } => false,
    }
}

/// Where making the tree show the file at `path` goes next.
#[derive(Debug, PartialEq, Eq)]
pub enum NavTarget {
    /// Open the folder at this row: it holds the file but is closed.
    Expand(usize),
    /// The file is shown at this row.
    Select(usize),
    /// The file is not in the tree.
    NotFound,
}

/// Whether row `node` decides where to show the file at `tab_path`: a closed
/// folder that holds it, or the file itself.
pub open spec fn targets(node: ProjectNode, tab_path: Seq<char>) -> bool {
    match node {
        ProjectNode::Folder { path, open, .. } => spec_path_starts_with(tab_path, path@) && !open,
        ProjectNode::File { path, .. } => spec_path_eq(path@, tab_path),
    }
}

/// The first row that decides where the file at `tab_path` is shown: a
/// closed folder holding it is to be opened, the file's own row selected.
pub open spec fn first_target_row(rows: Seq<TreeEntry>, tab_path: Seq<char>, from: int) -> int
    decreases rows.len() - from,
{
    if from >= rows.len() || targets(rows[from].node, tab_path) {
        from
    } else {
        first_target_row(rows, tab_path, from + 1)
    }
}

pub fn nav_target(rows: &Vec<TreeEntry>, tab_path: &str) -> (r: NavTarget)
    ensures
        ({
            let i = first_target_row(rows@, tab_path@, 0);
            if i >= rows@.len() {
                r == NavTarget::NotFound
            } else if rows@[i].node is Folder {
                r == NavTarget::Expand(i as usize)
            } else {
                r == NavTarget::Select(i as usize)
            }
        }),
{
    let n: usize = rows.len();
    let mut i: usize = 0;
    while i < n
        invariant
            n == rows@.len(),
            i <= n,
            first_target_row(rows@, tab_path@, i as int) == first_target_row(rows@, tab_path@, 0),
        decreases n - i,
    {
        match &rows[i].node {
            ProjectNode::Folder { path, open, .. } => {
                if !*open && path_starts_with(tab_path, path.as_str()) {
                    return NavTarget::Expand(i);
                }
            }
            ProjectNode::File { path, .. } => {
                if path_eq(path.as_str(), tab_path) {
                    return NavTarget::Select(i);
                }
            }
        }
        i = i + 1;
    }
    NavTarget::NotFound
}

/// Whether a change at `event` concerns the open folder `node`: the folder
/// itself changed, or an entry directly inside it.
pub open spec fn reload_wanted(node: ProjectNode, event: Seq<char>) -> bool {
    match node {
        ProjectNode::Folder { path, open, .. } => open && concerns(event, path@),
        ProjectNode::File { .. } => false,
    }
}

/// Whether a change at `event` is the folder `folder` itself or an entry directly in it.
pub open spec fn concerns(event: Seq<char>, folder: Seq<char>) -> bool {
    spec_path_eq(event, folder) || (spec_parent(event) matches Some(p) && spec_path_eq(p, folder))
}

fn event_concerns(event: &str, folder: &str) -> (r: bool)
    ensures
        r == concerns(event@, folder@),
{
    if path_eq(event, folder) {
        return true;
    }
    match path_parent(event) {
        Some(p) => path_eq(p.as_str(), folder),
        None => false,
    }
}

pub open spec fn reload_row(node: ProjectNode, events: Seq<Seq<char>>) -> bool {
    exists|j: int| 0 <= j < events.len() && reload_wanted(node, #[trigger] events[j])
}

/// The rows, in order, whose folder is to be listed again after the changes at `events`.
pub open spec fn reload_rows(rows: Seq<TreeEntry>, events: Seq<Seq<char>>) -> Seq<usize>
    decreases rows.len(),
{
    if rows.len() == 0 {
        Seq::empty()
    } else {
        reload_rows(rows.drop_last(), events) + if reload_row(rows.last().node, events) {
            seq![(rows.len() - 1) as usize]
        } else {
            Seq::empty()
        }
    }
}

fn wants_reload(node: &ProjectNode, events: &Vec<String>) -> (r: bool)
    ensures
        r == reload_row(*node, events@.map_values(|s: String| s@)),
{
    let ghost ev = events@.map_values(|s: String| s@);
    match node {
        ProjectNode::Folder { path, open, .. } => {
            if !*open {
                return false;
            }
            let mut j: usize = 0;
            while j < events.len()
                invariant
                    ev == events@.map_values(|s: String| s@),
                    j <= events@.len(),
                    *open,
                    *node is Folder,
                    (*node)->Folder_path == *path,
                    (*node)->Folder_open == *open,
                    forall|m: int| 0 <= m < j ==> !reload_wanted(*node, #[trigger] ev[m]),
                decreases events@.len() - j,
            {
                let e: &String = &events[j];
                assert(ev[j as int] == e@);
                if event_concerns(e.as_str(), path.as_str()) {
                    assert(reload_wanted(*node, ev[j as int]));
                    return true;
                }
                j = j + 1;
            }
            false
        }
        ProjectNode::File { .. } => false,
    }
}

/// The rows whose folders must be listed again after files changed at
/// `events` (see [`reload_rows`]).
pub fn reload_targets(rows: &Vec<TreeEntry>, events: &Vec<String>) -> (r: Vec<usize>)
    ensures
        r@ == reload_rows(rows@, events@.map_values(|s: String| s@)),
{
    let ghost ev = events@.map_values(|s: String| s@);
    let n: usize = rows.len();
    let mut out: Vec<usize> = Vec::new();
    let mut i: usize = 0;
    while i < n
        invariant
            n == rows@.len(),
            ev == events@.map_values(|s: String| s@),
            i <= n,
            out@ == reload_rows(rows@.take(i as int), ev),
        decreases n - i,
    {
        let ghost pre = rows@.take(i + 1);
        assert(pre.drop_last() =~= rows@.take(i as int));
        assert(pre.last() == rows@[i as int]);
        if wants_reload(&rows[i].node, events) {
            out.push(i);
        }
        assert(out@ =~= reload_rows(pre, ev));
        i = i + 1;
    }
    assert(rows@.take(n as int) =~= rows@);
    out
}

/// Law: after a folder is closed, nothing is shown inside it: the row after
/// it is not indented deeper.
pub proof fn lemma_closed_folder_shows_nothing(rows: Seq<TreeEntry>, position: int)
    requires
        0 <= position < rows.len(),
    ensures
        ({
            let after = close_folder_spec(rows, position);
            &&& after[position].indent == rows[position].indent
            &&& after[position].node == with_open(rows[position].node, false)
            &&& position + 1 < after.len() ==> after[position + 1].indent <= after[position].indent
        }),
{
    lemma_subtree_end_from(rows, rows[position].indent, position + 1);
    let end = subtree_end(rows, position);
    let after = close_folder_spec(rows, position);
    if position + 1 < after.len() {
        assert(after[position + 1] == rows[end]);
    }
}

/// Law: opening a closed folder that shows nothing, showing its entries one
/// level deeper, and closing it again gives back the tree as it was.
pub proof fn lemma_open_then_close(rows: Seq<TreeEntry>, position: int, nodes: Seq<ProjectNode>)
    requires
        0 <= position < rows.len(),
        rows[position].node matches ProjectNode::Folder { open, .. } && !open,
        subtree_end(rows, position) == position + 1,
        rows[position].indent < u16::MAX,
    ensures
        ({
            let e = rows[position];
            let opened = rows.update(position, TreeEntry { node: with_open(e.node, true), indent: e.indent });
            let shown = insert_children_spec(opened, position + 1, (e.indent + 1) as u16, nodes);
            close_folder_spec(shown, position) == rows
        }),
{
    let e = rows[position];
    let indent = (e.indent + 1) as u16;
    let opened = rows.update(position, TreeEntry { node: with_open(e.node, true), indent: e.indent });
    let kids = rows_of(nodes, indent);
    let shown = insert_children_spec(opened, position + 1, indent, nodes);
    assert(shown =~= opened.take(position + 1) + kids + opened.skip(position + 1));
    let k = kids.len() as int;
    assert forall|i: int| position + 1 <= i < position + 1 + k implies shown[i].indent > e.indent by {
        assert(shown[i] == kids[i - position - 1]);
    }
    lemma_subtree_end_from(rows, e.indent, position + 1);
    assert(shown[position].indent == e.indent);
    lemma_subtree_end_skip(shown, e.indent, position + 1, position + 1 + k);
    if position + 1 + k < shown.len() {
        assert(shown[position + 1 + k] == rows[position + 1]);
    }
    assert(subtree_end(shown, position) == position + 1 + k);
    assert(with_open(with_open(e.node, true), false) == e.node);
    assert(close_folder_spec(shown, position) =~= rows);
}

proof fn lemma_subtree_end_skip(rows: Seq<TreeEntry>, indent: u16, from: int, to: int)
    requires
        0 <= from <= to <= rows.len(),
        forall|i: int| from <= i < to ==> (#[trigger] rows[i]).indent > indent,
        to < rows.len() ==> rows[to].indent <= indent,
    ensures
        subtree_end_from(rows, indent, from) == to,
    decreases to - from,
{
    if from < to {
        lemma_subtree_end_skip(rows, indent, from + 1, to);
    }
}

/// The open projects, by name and folder: a folder is added once.
pub fn add_project(projects: &mut Vec<(String, String)>, name: String, path: String) -> (added: bool)
    ensures
        added == !(exists|i: int| 0 <= i < old(projects)@.len() && spec_path_eq((#[trigger] old(projects)@[i]).1@, path@)),
        added ==> final(projects)@ == old(projects)@.push((name, path)),
        !added ==> final(projects)@ == old(projects)@,
{
    let n: usize = projects.len();
    let mut i: usize = 0;
    while i < n
        invariant
            n == projects@.len(),
            projects@ == old(projects)@,
            i <= n,
            forall|j: int| 0 <= j < i ==> !spec_path_eq((#[trigger] projects@[j]).1@, path@),
        decreases n - i,
    {
        if path_eq(projects[i].1.as_str(), path.as_str()) {
            return false;
        }
        i = i + 1;
    }
    projects.push((name, path));
    true
}

/// Closes project `index`: it leaves the list of open projects and its rows
/// leave the tree. An index past the end changes nothing.
pub fn remove_project(projects: &mut Vec<(String, String)>, rows: &mut Vec<TreeEntry>, index: usize) -> (r: Option<(String, String)>)
    ensures
        index < old(projects)@.len() ==> {
            &&& r == Some(old(projects)@[index as int])
            &&& final(projects)@ == old(projects)@.remove(index as int)
            &&& final(rows)@ == close_project_spec(old(rows)@, old(projects)@[index as int].1@)
        },
        index >= old(projects)@.len() ==> r is None && final(projects)@ == old(projects)@ && final(rows)@ == old(rows)@,
{
    if index >= projects.len() {
        return None;
    }
    let removed = projects.remove(index);
    close_project(rows, removed.1.as_str());
    Some(removed)
}

} // verus!
