//! The editor's actions, its pages and find modes, and the arithmetic of
//! moving between tabs and zooming.

use vstd::prelude::*;

verus! {

/// Everything a menu item or a key binding can ask the editor to do.
#[derive(Clone, Copy, Debug, PartialEq, Eq, Hash, PartialOrd, Ord)]
pub enum Action {
    Todo,
    About,
    CloseFile,
    CloseProject(usize),
    Copy,
    Cut,
    Find,
    FindAndReplace,
    NewFile,
    NewWindow,
    OpenFileDialog,
    OpenProjectDialog,
    OpenRecentFile(usize),
    OpenRecentProject(usize),
    Paste,
    Quit,
    Redo,
    RevertAllChanges,
    Save,
    SaveAsDialog,
    SelectAll,
    TabActivate0,
    TabActivate1,
    TabActivate2,
    TabActivate3,
    TabActivate4,
    TabActivate5,
    TabActivate6,
    TabActivate7,
    TabActivate8,
    TabNext,
    TabPrev,
    TabWidth(u16),
    ToggleAutoIndent,
    ToggleDocumentStatistics,
    ToggleGitManagement,
    ToggleHighlightCurrentLine,
    ToggleLineNumbers,
    ToggleProjectSearch,
    ToggleSettingsPage,
    ToggleWordWrap,
    Undo,
    ZoomIn,
    ZoomOut,
    ZoomReset,
}

/// The pages of the side drawer.
#[derive(Clone, Copy, Debug, PartialEq, Eq, Structural)]
pub enum ContextPage {
    About,
    DocumentStatistics,
    GitManagement,
    ProjectSearch,
    Settings,
}

/// What the find bar shows.
#[derive(Clone, Copy, Debug, PartialEq, Eq, Structural)]
pub enum Find {
    /// The find bar is closed.
    Hidden,
    Find,
    FindAndReplace,
}

/// The position a "go to tab N" jump lands on among `len` tabs: tabs one to
/// eight by their number, and the last tab for the ninth or any position
/// past the end.
pub open spec fn tab_jump_spec(pos: int, len: int) -> int {
    if pos >= 8 || pos > len - 1 { len - 1 } else { pos % len }
}

/// Where a jump to tab `pos` lands; there is always at least one tab.
pub fn tab_jump_position(pos: usize, len: usize) -> (r: usize)
    requires
        len >= 1,
    ensures
        r == tab_jump_spec(pos as int, len as int),
        r < len,
{
    if pos >= 8 || pos > len - 1 { len - 1 } else { pos % len }
}

/// Law: the jumps to tabs one to eight land on that tab when it exists; the
/// ninth jump, and any jump past the last tab, lands on the last tab.
pub proof fn lemma_tab_jump_lands(pos: int, len: int)
    requires
        pos >= 0,
        len >= 1,
    ensures
        pos < 8 && pos < len ==> tab_jump_spec(pos, len) == pos,
        pos >= 8 || pos >= len ==> tab_jump_spec(pos, len) == len - 1,
{
    if pos < 8 && pos < len {
        vstd::arithmetic::div_mod::lemma_small_mod(pos as nat, len as nat);
    }
}

/// The tab after the active one, the first after the last.
pub fn next_tab_position(active: usize, len: usize) -> (r: usize)
    requires
        len >= 1,
        active < len,
    ensures
        r == (active + 1) % (len as int),
        r < len,
{
    (active + 1) % len
}

/// The position of the tab before the active one: the last tab before the
/// first, and the last tab when no tab is active (the first when there are none).
pub open spec fn prev_tab_spec(active: Option<usize>, len: int) -> int {
    match active {
        Some(a) if a >= 1 => a - 1,
        _ => if len >= 1 { len - 1 } else { 0 },
    }
}

/// The tab before the active one.
pub fn prev_tab_position(active: Option<usize>, len: usize) -> (r: usize)
    ensures
        r == prev_tab_spec(active, len as int),
{
    match active {
        Some(a) if a >= 1 => a - 1,
        _ => if len >= 1 { len - 1 } else { 0 },
    }
}

/// Law: going to the next tab and back returns to the same tab, and so does
/// going back and then on.
pub proof fn lemma_tab_next_prev_inverse(active: usize, len: usize)
    requires
        len >= 1,
        active < len,
    ensures
        prev_tab_spec(Some(((active + 1) % (len as int)) as usize), len as int) == active,
        (prev_tab_spec(Some(active), len as int) + 1) % (len as int) == active,
{
    if active + 1 == len {
        assert((active + 1) % (len as int) == 0) by {
            vstd::arithmetic::div_mod::lemma_mod_self_0(len as int);
        }
    } else {
        vstd::arithmetic::div_mod::lemma_small_mod((active + 1) as nat, len as nat);
    }
    if active >= 1 {
        vstd::arithmetic::div_mod::lemma_small_mod(active as nat, len as nat);
    } else {
        vstd::arithmetic::div_mod::lemma_mod_self_0(len as int);
    }
}

/// One zoom step in: the adjustment grows by one, stopping at the largest value.
pub open spec fn zoom_in_spec(zoom_adj: i8) -> i8 {
    if zoom_adj < i8::MAX { (zoom_adj + 1) as i8 } else { zoom_adj }
}

/// One zoom step out: the adjustment shrinks by one, stopping at the smallest value.
pub open spec fn zoom_out_spec(zoom_adj: i8) -> i8 {
    if zoom_adj > i8::MIN { (zoom_adj - 1) as i8 } else { zoom_adj }
}

/// The zoom adjustment after one step in.
pub fn zoom_in(zoom_adj: i8) -> (r: i8)
    ensures
        r == zoom_in_spec(zoom_adj),
{
    if zoom_adj < i8::MAX { zoom_adj + 1 } else { zoom_adj }
}

/// The zoom adjustment after one step out.
pub fn zoom_out(zoom_adj: i8) -> (r: i8)
    ensures
        r == zoom_out_spec(zoom_adj),
{
    if zoom_adj > i8::MIN { zoom_adj - 1 } else { zoom_adj }
}

/// Law: a zoom step changes the adjustment by exactly one, in its own
/// direction, and stops at the ends of the range.
pub proof fn lemma_zoom_steps_by_one(z: i8)
    ensures
        z < i8::MAX ==> zoom_in_spec(z) == z + 1,
        z == i8::MAX ==> zoom_in_spec(z) == z,
        z > i8::MIN ==> zoom_out_spec(z) == z - 1,
        z == i8::MIN ==> zoom_out_spec(z) == z,
{
}

/// Law: zooming in and then out again restores the zoom, except at the
/// largest value; zooming out and then in, except at the smallest.
pub proof fn lemma_zoom_round_trip(z: i8)
    ensures
        z < i8::MAX ==> zoom_out_spec(zoom_in_spec(z)) == z,
        z > i8::MIN ==> zoom_in_spec(zoom_out_spec(z)) == z,
{
}

/// What Escape closes: the side drawer when it is shown, else the find bar.
/// Gives whether the drawer stays shown and what the find bar shows.
pub fn escape(show_context: bool, find: Find) -> (r: (bool, Find))
    ensures
        show_context ==> r == (false, find),
        !show_context ==> r == (false, Find::Hidden),
{
    if show_context {
        (false, find)
    } else {
        (false, Find::Hidden)
    }
}

/// Asking for a page of the side drawer: the page shown is hidden again,
/// any other page is shown. Gives the page, whether the drawer is shown, and
/// whether the git status must be refreshed (the git page is now shown).
pub open spec fn toggle_context_spec(current: ContextPage, shown: bool, requested: ContextPage) -> (ContextPage, bool, bool) {
    let show = if current == requested { !shown } else { true };
    (requested, show, show && requested == ContextPage::GitManagement)
}

/// The drawer after asking for `requested` (see [`toggle_context_spec`]).
pub fn toggle_context_page(current: ContextPage, shown: bool, requested: ContextPage) -> (r: (ContextPage, bool, bool))
    ensures
        r == toggle_context_spec(current, shown, requested),
{
    let show = if current == requested { !shown } else { true };
    let refresh = show && requested == ContextPage::GitManagement;
    (requested, show, refresh)
}

/// Law: asking for a page always puts that page in the drawer; the drawer
/// is hidden only when that page was already shown; the git status is
/// refreshed exactly when the git page comes into view.
pub proof fn lemma_toggle_context_page_once(current: ContextPage, shown: bool, requested: ContextPage)
    ensures
        ({
            let r = toggle_context_spec(current, shown, requested);
            &&& r.0 == requested
            &&& !r.1 <==> (current == requested && shown)
            &&& r.2 <==> (r.1 && requested == ContextPage::GitManagement)
        }),
{
}

/// Law: asking twice for the same page leaves the drawer shown or hidden as
/// it was, on that page.
pub proof fn lemma_toggle_context_page_twice(current: ContextPage, shown: bool, page: ContextPage)
    ensures
        ({
            let once = toggle_context_spec(current, shown, page);
            let twice = toggle_context_spec(once.0, once.1, page);
            twice.0 == page && twice.1 == (if current == page { shown } else { false })
        }),
{
}

} // verus!
