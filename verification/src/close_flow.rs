//! Closing tabs and quitting: when to ask about unsaved changes, which tab
//! becomes active when one closes, and when the editor may exit.
//!
//! The tabs are given as plain entries; [`close_step`] takes the state and
//! one event and gives the next state with what the window must do besides
//! (open a new empty tab, exit).

use vstd::prelude::*;

verus! {

/// A tab as the close logic sees it.
#[derive(Clone, Copy, Debug, PartialEq, Eq, Structural)]
pub struct TabEntry {
    pub id: u64,
    /// An editor tab (other tabs, such as diffs, never hold unsaved text).
    pub editor: bool,
    /// Whether its text has changed since it was last saved.
    pub changed: bool,
}

/// Whether closing the tab would lose text.
pub open spec fn unsaved(t: TabEntry) -> bool {
    t.editor && t.changed
}

/// The dialog that asks about unsaved changes.
#[derive(Clone, Debug, PartialEq, Eq)]
pub enum CloseDialog {
    /// Asks whether to save the tab before it closes.
    SaveBeforeClose(u64),
    /// Asks about the tabs with unsaved changes before the editor quits.
    SaveBeforeQuit(Vec<u64>),
}

pub enum CloseDialogView {
    SaveBeforeClose(u64),
    SaveBeforeQuit(Seq<u64>),
}

impl View for CloseDialog {
    type V = CloseDialogView;

    open spec fn view(&self) -> CloseDialogView {
        match self {
            CloseDialog::SaveBeforeClose(id) => CloseDialogView::SaveBeforeClose(*id),
            CloseDialog::SaveBeforeQuit(ids) => CloseDialogView::SaveBeforeQuit(ids@),
        }
    }
}

/// The open tabs in order, the active one, and the dialog shown.
#[derive(Clone, Debug)]
pub struct CloseState {
    pub tabs: Vec<TabEntry>,
    pub active: Option<u64>,
    pub dialog: Option<CloseDialog>,
}

pub struct CloseStateView {
    pub tabs: Seq<TabEntry>,
    pub active: Option<u64>,
    pub dialog: Option<CloseDialogView>,
}

pub open spec fn dialog_view(d: Option<CloseDialog>) -> Option<CloseDialogView> {
    match d {
        Some(x) => Some(x@),
        None => None,
    }
}

impl View for CloseState {
    type V = CloseStateView;

    open spec fn view(&self) -> CloseStateView {
        CloseStateView { tabs: self.tabs@, active: self.active, dialog: dialog_view(self.dialog) }
    }
}

/// What happens to the tabs and the dialog.
#[derive(Clone, Copy, Debug, PartialEq, Eq, Structural)]
pub enum CloseEvent {
    /// A tab is activated.
    Activate(u64),
    /// The user asks to close a tab.
    Close(u64),
    /// A tab is closed whatever it holds.
    CloseForce(u64),
    /// The user asks to quit.
    Quit,
    /// The editor quits whatever the tabs hold.
    QuitForce,
    /// Tabs were saved or changed: the dialog is looked at again.
    Recheck,
}

/// What the window must do besides taking the new state.
#[derive(Clone, Copy, Debug, PartialEq, Eq, Structural)]
pub struct CloseEffect {
    /// The last tab was closed: a new empty one is opened.
    pub open_new_tab: bool,
    /// The editor exits.
    pub quit: bool,
}

pub open spec fn no_effect() -> CloseEffect {
    CloseEffect { open_new_tab: false, quit: false }
}

/// The position of the first tab with `id`.
pub open spec fn find_tab(tabs: Seq<TabEntry>, id: u64) -> Option<int> {
    if exists|i: int| 0 <= i < tabs.len() && tabs[i].id == id {
        Some(choose|i: int| 0 <= i < tabs.len() && tabs[i].id == id && forall|j: int| 0 <= j < i ==> tabs[j].id != id)
    } else {
        None
    }
}

/// What [`find_tab`] gives: the first tab with the id, or `None` when no tab has it.
pub proof fn lemma_find_tab(tabs: Seq<TabEntry>, id: u64)
    ensures
        find_tab(tabs, id) matches Some(p) ==> 0 <= p < tabs.len() && tabs[p].id == id
            && forall|j: int| 0 <= j < p ==> tabs[j].id != id,
        find_tab(tabs, id) is None ==> forall|i: int| 0 <= i < tabs.len() ==> tabs[i].id != id,
{
    if exists|i: int| 0 <= i < tabs.len() && tabs[i].id == id {
        let w = choose|i: int| 0 <= i < tabs.len() && tabs[i].id == id;
        lemma_first_with_id(tabs, id, w);
    }
}

proof fn lemma_first_with_id(tabs: Seq<TabEntry>, id: u64, w: int)
    requires
        0 <= w < tabs.len(),
        tabs[w].id == id,
    ensures
        exists|i: int| 0 <= i < tabs.len() && tabs[i].id == id && forall|j: int| 0 <= j < i ==> tabs[j].id != id,
    decreases w,
{
    if exists|j: int| 0 <= j < w && tabs[j].id == id {
        let j = choose|j: int| 0 <= j < w && tabs[j].id == id;
        lemma_first_with_id(tabs, id, j);
    } else {
        assert(0 <= w < tabs.len() && tabs[w].id == id && forall|j: int| 0 <= j < w ==> tabs[j].id != id);
    }
}

/// The ids, in order, of the tabs with unsaved changes.
pub open spec fn unsaved_ids(tabs: Seq<TabEntry>) -> Seq<u64>
    decreases tabs.len(),
{
    if tabs.len() == 0 {
        Seq::empty()
    } else {
        unsaved_ids(tabs.drop_last()) + if unsaved(tabs.last()) { seq![tabs.last().id] } else { Seq::empty() }
    }
}

/// Activating a tab closes a save dialog that is about another tab.
pub open spec fn activate_spec(s: CloseStateView, id: u64) -> CloseStateView {
    let dialog = if s.dialog == Some(CloseDialogView::SaveBeforeClose(id)) { s.dialog } else { None };
    let active = if find_tab(s.tabs, id) is Some { Some(id) } else { s.active };
    CloseStateView { tabs: s.tabs, active, dialog }
}

/// Closing a tab whatever it holds: the tab before it becomes active (the
/// one after it when it is the first), it is removed, a new empty tab is
/// opened when none is left, and a save dialog about it closes.
pub open spec fn force_close_spec(s: CloseStateView, id: u64) -> (CloseStateView, CloseEffect) {
    let dialog = if s.dialog == Some(CloseDialogView::SaveBeforeClose(id)) { None } else { s.dialog };
    match find_tab(s.tabs, id) {
        Some(p) => {
            let tabs = s.tabs.remove(p);
            let active = if p > 0 {
                Some(s.tabs[p - 1].id)
            } else if p + 1 < s.tabs.len() {
                Some(s.tabs[p + 1].id)
            } else {
                None
            };
            (CloseStateView { tabs, active, dialog }, CloseEffect { open_new_tab: tabs.len() == 0, quit: false })
        },
        None => (CloseStateView { tabs: s.tabs, active: s.active, dialog }, CloseEffect { open_new_tab: s.tabs.len() == 0, quit: false }),
    }
}

/// Looking at the dialog again: a tab asked about that has been saved
/// closes, and the dialog goes when that tab has gone; the quit dialog
/// lists the tabs still unsaved, and the editor exits when there are none.
pub open spec fn recheck_spec(s: CloseStateView) -> (CloseStateView, CloseEffect) {
    match s.dialog {
        Some(CloseDialogView::SaveBeforeClose(id)) => match find_tab(s.tabs, id) {
            Some(p) => if !s.tabs[p].editor {
                (CloseStateView { tabs: s.tabs, active: s.active, dialog: None }, no_effect())
            } else if !s.tabs[p].changed {
                force_close_spec(s, id)
            } else {
                (s, no_effect())
            },
            None => (CloseStateView { tabs: s.tabs, active: s.active, dialog: None }, no_effect()),
        },
        Some(CloseDialogView::SaveBeforeQuit(_)) => {
            let u = unsaved_ids(s.tabs);
            if u.len() == 0 {
                (s, CloseEffect { open_new_tab: false, quit: true })
            } else {
                (CloseStateView { tabs: s.tabs, active: s.active, dialog: Some(CloseDialogView::SaveBeforeQuit(u)) }, no_effect())
            }
        },
        None => (s, no_effect()),
    }
}

/// One step of the close and quit logic.
pub open spec fn close_step_spec(s: CloseStateView, e: CloseEvent) -> (CloseStateView, CloseEffect) {
    match e {
        CloseEvent::Activate(id) => (activate_spec(s, id), no_effect()),
        CloseEvent::Close(id) => match find_tab(s.tabs, id) {
            Some(p) => if unsaved(s.tabs[p]) {
                (CloseStateView { tabs: s.tabs, active: Some(id), dialog: Some(CloseDialogView::SaveBeforeClose(id)) }, no_effect())
            } else {
                force_close_spec(s, id)
            },
            None => force_close_spec(s, id),
        },
        CloseEvent::CloseForce(id) => force_close_spec(s, id),
        CloseEvent::Quit => recheck_spec(CloseStateView { tabs: s.tabs, active: s.active, dialog: Some(CloseDialogView::SaveBeforeQuit(Seq::empty())) }),
        CloseEvent::QuitForce => (s, CloseEffect { open_new_tab: false, quit: true }),
        CloseEvent::Recheck => recheck_spec(s),
    }
}

/// The position of the first tab with `id`, or `None`.
pub fn find_tab_position(tabs: &Vec<TabEntry>, id: u64) -> (r: Option<usize>)
    ensures
        match r {
            Some(p) => find_tab(tabs@, id) == Some(p as int),
            None => find_tab(tabs@, id) is None,
        },
        r matches Some(p) ==> p < tabs@.len() && tabs@[p as int].id == id,
{
    let n = tabs.len();
    let mut i: usize = 0;
    while i < n
        invariant
            n == tabs@.len(),
            i <= n,
            forall|j: int| 0 <= j < i ==> tabs@[j].id != id,
        decreases n - i,
    {
        if tabs[i].id == id {
            proof {
                lemma_find_tab(tabs@, id);
                let c = choose|c: int| 0 <= c < tabs@.len() && tabs@[c].id == id && forall|j: int| 0 <= j < c ==> tabs@[j].id != id;
                assert(0 <= i < tabs@.len() && tabs@[i as int].id == id && forall|j: int| 0 <= j < i ==> tabs@[j].id != id);
                if c < i {
                    assert(tabs@[c].id != id);
                } else if c > i {
                    assert(tabs@[i as int].id != id);
                }
            }
            return Some(i);
        }
        i = i + 1;
    }
    proof {
        lemma_find_tab(tabs@, id);
    }
    None
}

/// The ids, in order, of the tabs with unsaved changes.
pub fn unsaved_tab_ids(tabs: &Vec<TabEntry>) -> (r: Vec<u64>)
    ensures
        r@ == unsaved_ids(tabs@),
{
    let n: usize = tabs.len();
    let mut out: Vec<u64> = Vec::new();
    let mut i: usize = 0;
    while i < n
        invariant
            n == tabs@.len(),
            i <= n,
            out@ == unsaved_ids(tabs@.take(i as int)),
        decreases n - i,
    {
        let ghost pre = tabs@.take(i + 1);
        assert(pre.drop_last() =~= tabs@.take(i as int));
        assert(pre.last() == tabs@[i as int]);
        let t = tabs[i];
        if t.editor && t.changed {
            out.push(t.id);
        }
        assert(out@ =~= unsaved_ids(pre));
        i = i + 1;
    }
    assert(tabs@.take(n as int) =~= tabs@);
    out
}

fn is_close_dialog_for(dialog: &Option<CloseDialog>, id: u64) -> (r: bool)
    ensures
        r == (dialog_view(*dialog) == Some(CloseDialogView::SaveBeforeClose(id))),
{
    match dialog {
        Some(CloseDialog::SaveBeforeClose(d)) => *d == id,
        _ => false,
    }
}

fn force_close(s: CloseState, id: u64) -> (r: (CloseState, CloseEffect))
    ensures
        (r.0@, r.1) == force_close_spec(s@, id),
{
    let mut s = s;
    let ghost s0 = s@;
    if is_close_dialog_for(&s.dialog, id) {
        s.dialog = None;
    }
    match find_tab_position(&s.tabs, id) {
        Some(p) => {
            let len = s.tabs.len();
            let active = if p > 0 {
                Some(s.tabs[p - 1].id)
            } else if p + 1 < len {
                Some(s.tabs[p + 1].id)
            } else {
                None
            };
            s.tabs.remove(p);
            s.active = active;
            let empty = s.tabs.len() == 0;
            (s, CloseEffect { open_new_tab: empty, quit: false })
        }
        None => {
            let empty = s.tabs.len() == 0;
            (s, CloseEffect { open_new_tab: empty, quit: false })
        }
    }
}

fn recheck(s: CloseState) -> (r: (CloseState, CloseEffect))
    ensures
        (r.0@, r.1) == recheck_spec(s@),
{
    let mut s = s;
    let asked: Option<u64> = match &s.dialog {
        Some(CloseDialog::SaveBeforeClose(id)) => Some(*id),
        _ => None,
    };
    match asked {
        Some(id) => match find_tab_position(&s.tabs, id) {
            Some(p) => {
                let t = s.tabs[p];
                if !t.editor {
                    s.dialog = None;
                    (s, CloseEffect { open_new_tab: false, quit: false })
                } else if !t.changed {
                    force_close(s, id)
                } else {
                    (s, CloseEffect { open_new_tab: false, quit: false })
                }
            }
            None => {
                s.dialog = None;
                (s, CloseEffect { open_new_tab: false, quit: false })
            }
        },
        None => {
            if s.dialog.is_some() {
                let u = unsaved_tab_ids(&s.tabs);
                if u.len() == 0 {
                    (s, CloseEffect { open_new_tab: false, quit: true })
                } else {
                    s.dialog = Some(CloseDialog::SaveBeforeQuit(u));
                    (s, CloseEffect { open_new_tab: false, quit: false })
                }
            } else {
                (s, CloseEffect { open_new_tab: false, quit: false })
            }
        }
    }
}

/// Takes one event: see [`close_step_spec`].
pub fn close_step(s: CloseState, e: CloseEvent) -> (r: (CloseState, CloseEffect))
    ensures
        (r.0@, r.1) == close_step_spec(s@, e),
{
    match e {
        CloseEvent::Activate(id) => {
            let mut s = s;
            if !is_close_dialog_for(&s.dialog, id) {
                s.dialog = None;
            }
            if find_tab_position(&s.tabs, id).is_some() {
                s.active = Some(id);
            }
            (s, CloseEffect { open_new_tab: false, quit: false })
        }
        CloseEvent::Close(id) => match find_tab_position(&s.tabs, id) {
            Some(p) => {
                let t = s.tabs[p];
                if t.editor && t.changed {
                    let mut s = s;
                    s.active = Some(id);
                    s.dialog = Some(CloseDialog::SaveBeforeClose(id));
                    (s, CloseEffect { open_new_tab: false, quit: false })
                } else {
                    force_close(s, id)
                }
            }
            None => force_close(s, id),
        },
        CloseEvent::CloseForce(id) => force_close(s, id),
        CloseEvent::Quit => {
            let mut s = s;
            s.dialog = Some(CloseDialog::SaveBeforeQuit(Vec::new()));
            recheck(s)
        }
        CloseEvent::QuitForce => (s, CloseEffect { open_new_tab: false, quit: true }),
        CloseEvent::Recheck => recheck(s),
    }
}

/// Whether some open tab has `id`.
pub open spec fn has_tab(tabs: Seq<TabEntry>, id: u64) -> bool {
    exists|i: int| 0 <= i < tabs.len() && tabs[i].id == id
}

/// A consistent state: no two tabs share an id, and the active tab, when
/// there is one, is open.
pub open spec fn close_state_wf(s: CloseStateView) -> bool {
    &&& forall|i: int, j: int| 0 <= i < j < s.tabs.len() ==> s.tabs[i].id != s.tabs[j].id
    &&& (s.active matches Some(a) ==> has_tab(s.tabs, a))
}

/// No tab is unsaved exactly when the list of unsaved ids is empty.
pub proof fn lemma_unsaved_ids_empty(tabs: Seq<TabEntry>)
    ensures
        unsaved_ids(tabs).len() == 0 <==> forall|i: int| 0 <= i < tabs.len() ==> !unsaved(#[trigger] tabs[i]),
    decreases tabs.len(),
{
    if tabs.len() > 0 {
        let init = tabs.drop_last();
        lemma_unsaved_ids_empty(init);
        if unsaved_ids(tabs).len() == 0 {
            assert forall|i: int| 0 <= i < tabs.len() implies !unsaved(#[trigger] tabs[i]) by {
                if i < init.len() {
                    assert(tabs[i] == init[i]);
                }
            }
        } else if forall|i: int| 0 <= i < tabs.len() ==> !unsaved(#[trigger] tabs[i]) {
            assert forall|i: int| 0 <= i < init.len() implies !unsaved(#[trigger] init[i]) by {
                assert(init[i] == tabs[i]);
            }
            assert(!unsaved(tabs[tabs.len() - 1]));
        }
    }
}

proof fn lemma_remove_keeps_others(tabs: Seq<TabEntry>, p: int, j: int)
    requires
        0 <= p < tabs.len(),
        0 <= j < tabs.len(),
        j != p,
    ensures
        tabs.remove(p).contains(tabs[j]),
{
    if j < p {
        assert(tabs.remove(p)[j] == tabs[j]);
    } else {
        assert(tabs.remove(p)[j - 1] == tabs[j]);
    }
}

/// Law: closing and quitting never leave the window without a tab: after
/// any step from a state with tabs, a tab is left or a new one is opened.
pub proof fn lemma_close_step_keeps_a_tab(s: CloseStateView, e: CloseEvent)
    requires
        s.tabs.len() > 0,
    ensures
        close_step_spec(s, e).0.tabs.len() > 0 || close_step_spec(s, e).1.open_new_tab,
{
    lemma_find_tab(s.tabs, match e { CloseEvent::Activate(id) | CloseEvent::Close(id) | CloseEvent::CloseForce(id) => id, _ => 0 });
    match s.dialog {
        Some(CloseDialogView::SaveBeforeClose(id)) => lemma_find_tab(s.tabs, id),
        _ => {},
    }
}

/// Law: text is lost only when asked for. A step other than a forced close
/// or a forced quit keeps every tab with unsaved changes, and it makes the
/// editor exit only when no tab has unsaved changes.
pub proof fn lemma_close_step_keeps_unsaved(s: CloseStateView, e: CloseEvent)
    requires
        !(e is CloseForce),
        !(e is QuitForce),
    ensures
        forall|j: int| 0 <= j < s.tabs.len() && unsaved(#[trigger] s.tabs[j]) ==> close_step_spec(s, e).0.tabs.contains(s.tabs[j]),
        close_step_spec(s, e).1.quit ==> forall|j: int| 0 <= j < s.tabs.len() ==> !unsaved(#[trigger] s.tabs[j]),
{
    lemma_unsaved_ids_empty(s.tabs);
    let r = close_step_spec(s, e);
    let removed: Option<int> = match e {
        CloseEvent::Close(id) => {
            lemma_find_tab(s.tabs, id);
            match find_tab(s.tabs, id) {
                Some(p) => if unsaved(s.tabs[p]) { None } else { Some(p) },
                None => None,
            }
        },
        CloseEvent::Quit | CloseEvent::Recheck => {
            let d = if e is Quit { Some(CloseDialogView::SaveBeforeQuit(Seq::empty())) } else { s.dialog };
            match d {
                Some(CloseDialogView::SaveBeforeClose(id)) => {
                    lemma_find_tab(s.tabs, id);
                    match find_tab(s.tabs, id) {
                        Some(p) => if s.tabs[p].editor && !s.tabs[p].changed { Some(p) } else { None },
                        None => None,
                    }
                },
                _ => None,
            }
        },
        _ => None,
    };
    match removed {
        Some(p) => {
            assert(r.0.tabs == s.tabs.remove(p));
            assert forall|j: int| 0 <= j < s.tabs.len() && unsaved(#[trigger] s.tabs[j]) implies r.0.tabs.contains(s.tabs[j]) by {
                lemma_remove_keeps_others(s.tabs, p, j);
            }
        },
        None => {
            assert(r.0.tabs == s.tabs);
            assert forall|j: int| 0 <= j < s.tabs.len() && unsaved(#[trigger] s.tabs[j]) implies r.0.tabs.contains(s.tabs[j]) by {
                assert(r.0.tabs[j] == s.tabs[j]);
            }
        },
    }
}

proof fn lemma_force_close_wf(s: CloseStateView, id: u64)
    requires
        close_state_wf(s),
    ensures
        close_state_wf(force_close_spec(s, id).0),
{
    lemma_find_tab(s.tabs, id);
    match find_tab(s.tabs, id) {
        Some(p) => {
            let t = s.tabs.remove(p);
            assert forall|i: int, j: int| 0 <= i < j < t.len() implies t[i].id != t[j].id by {
                let oi = if i < p { i } else { i + 1 };
                let oj = if j < p { j } else { j + 1 };
                assert(t[i] == s.tabs[oi] && t[j] == s.tabs[oj]);
            }
            if p > 0 {
                assert(t[p - 1] == s.tabs[p - 1]);
            } else if p + 1 < s.tabs.len() {
                assert(t[p] == s.tabs[p + 1]);
            }
        },
        None => {},
    }
}

/// Law: every step keeps the state consistent (see [`close_state_wf`]).
pub proof fn lemma_close_step_wf(s: CloseStateView, e: CloseEvent)
    requires
        close_state_wf(s),
    ensures
        close_state_wf(close_step_spec(s, e).0),
{
    match e {
        CloseEvent::Activate(id) => lemma_find_tab(s.tabs, id),
        CloseEvent::Close(id) => {
            lemma_find_tab(s.tabs, id);
            lemma_force_close_wf(s, id);
        },
        CloseEvent::CloseForce(id) => lemma_force_close_wf(s, id),
        CloseEvent::Quit => {},
        CloseEvent::QuitForce => {},
        CloseEvent::Recheck => {
            match s.dialog {
                Some(CloseDialogView::SaveBeforeClose(id)) => {
                    lemma_find_tab(s.tabs, id);
                    lemma_force_close_wf(s, id);
                },
                _ => {},
            }
        },
    }
}

} // verus!
