//! Keyboard modifiers of key bindings and how a key press is matched against them.

use vstd::prelude::*;
use crate::actions::Action;

verus! {

/// A modifier key a binding requires.
#[derive(Clone, Copy, Debug, PartialEq, Eq, Hash, PartialOrd, Ord, Structural)]
pub enum Modifier {
    Super,
    Ctrl,
    Alt,
    Shift,
}

/// Whether `m` is among `mods`.
pub fn has_modifier(mods: &Vec<Modifier>, m: Modifier) -> (r: bool)
    ensures
        r == mods@.contains(m),
{
    let mut i: usize = 0;
    while i < mods.len()
        invariant
            i <= mods@.len(),
            forall|j: int| 0 <= j < i ==> mods@[j] != m,
        decreases mods@.len() - i,
    {
        if mods[i] == m {
            return true;
        }
        i = i + 1;
    }
    false
}

/// Whether the held modifiers are exactly those a binding lists: each of
/// Super, Ctrl, Alt and Shift is held if and only if the binding lists it.
pub open spec fn modifiers_match_spec(required: Seq<Modifier>, logo: bool, control: bool, alt: bool, shift: bool) -> bool {
    logo == required.contains(Modifier::Super) && control == required.contains(Modifier::Ctrl)
        && alt == required.contains(Modifier::Alt) && shift == required.contains(Modifier::Shift)
}

/// Whether a key press with the given modifiers held satisfies a binding's
/// modifiers (the key itself is compared by the caller).
pub fn modifiers_match(required: &Vec<Modifier>, logo: bool, control: bool, alt: bool, shift: bool) -> (r: bool)
    ensures
        r == modifiers_match_spec(required@, logo, control, alt, shift),
{
    logo == has_modifier(required, Modifier::Super) && control == has_modifier(required, Modifier::Ctrl)
        && alt == has_modifier(required, Modifier::Alt) && shift == has_modifier(required, Modifier::Shift)
}

/// The key of a binding: a character key or the Tab key.
#[derive(Clone, Copy, Debug, PartialEq, Eq, Hash, Structural)]
pub enum BindKey {
    Character(char),
    Tab,
}

/// A key with the modifiers that must be held with it.
#[derive(Clone, Debug, PartialEq, Eq, Hash)]
pub struct KeyBind {
    pub modifiers: Vec<Modifier>,
    pub key: BindKey,
}

impl KeyBind {
    /// Whether a press of `key` with the given modifiers held triggers this binding.
    pub fn matches(&self, logo: bool, control: bool, alt: bool, shift: bool, key: BindKey) -> (r: bool)
        ensures
            r == (self.key == key && modifiers_match_spec(self.modifiers@, logo, control, alt, shift)),
    {
        self.key == key && modifiers_match(&self.modifiers, logo, control, alt, shift)
    }
}

/// The editor's key bindings.
pub open spec fn key_binds_spec() -> Seq<(Seq<Modifier>, BindKey, Action)> {
    seq![
        (seq![Modifier::Ctrl], BindKey::Character('w'), Action::CloseFile),
        (seq![Modifier::Ctrl], BindKey::Character('x'), Action::Cut),
        (seq![Modifier::Ctrl], BindKey::Character('c'), Action::Copy),
        (seq![Modifier::Ctrl], BindKey::Character('f'), Action::Find),
        (seq![Modifier::Ctrl], BindKey::Character('h'), Action::FindAndReplace),
        (seq![Modifier::Ctrl], BindKey::Character('v'), Action::Paste),
        (seq![Modifier::Ctrl], BindKey::Character('t'), Action::NewFile),
        (seq![Modifier::Ctrl], BindKey::Character('n'), Action::NewWindow),
        (seq![Modifier::Ctrl], BindKey::Character('o'), Action::OpenFileDialog),
        (seq![Modifier::Ctrl, Modifier::Shift], BindKey::Character('O'), Action::OpenProjectDialog),
        (seq![Modifier::Ctrl], BindKey::Character('q'), Action::Quit),
        (seq![Modifier::Ctrl, Modifier::Shift], BindKey::Character('z'), Action::Redo),
        (seq![Modifier::Ctrl], BindKey::Character('s'), Action::Save),
        (seq![Modifier::Ctrl], BindKey::Character('a'), Action::SelectAll),
        (seq![Modifier::Ctrl], BindKey::Character('1'), Action::TabActivate0),
        (seq![Modifier::Ctrl], BindKey::Character('2'), Action::TabActivate1),
        (seq![Modifier::Ctrl], BindKey::Character('3'), Action::TabActivate2),
        (seq![Modifier::Ctrl], BindKey::Character('4'), Action::TabActivate3),
        (seq![Modifier::Ctrl], BindKey::Character('5'), Action::TabActivate4),
        (seq![Modifier::Ctrl], BindKey::Character('6'), Action::TabActivate5),
        (seq![Modifier::Ctrl], BindKey::Character('7'), Action::TabActivate6),
        (seq![Modifier::Ctrl], BindKey::Character('8'), Action::TabActivate7),
        (seq![Modifier::Ctrl], BindKey::Character('9'), Action::TabActivate8),
        (seq![Modifier::Ctrl], BindKey::Tab, Action::TabNext),
        (seq![Modifier::Ctrl, Modifier::Shift], BindKey::Tab, Action::TabPrev),
        (seq![Modifier::Ctrl, Modifier::Shift], BindKey::Character('G'), Action::ToggleGitManagement),
        (seq![Modifier::Ctrl, Modifier::Shift], BindKey::Character('F'), Action::ToggleProjectSearch),
        (seq![Modifier::Ctrl], BindKey::Character(','), Action::ToggleSettingsPage),
        (seq![Modifier::Alt], BindKey::Character('z'), Action::ToggleWordWrap),
        (seq![Modifier::Ctrl], BindKey::Character('z'), Action::Undo)
    ]
}

pub open spec fn binds_view(binds: Seq<(KeyBind, Action)>) -> Seq<(Seq<Modifier>, BindKey, Action)> {
    binds.map_values(|b: (KeyBind, Action)| (b.0.modifiers@, b.0.key, b.1))
}

fn ctrl() -> (r: Vec<Modifier>)
    ensures
        r@ == seq![Modifier::Ctrl],
{
    let mut r = Vec::new();
    r.push(Modifier::Ctrl);
    r
}

fn ctrl_shift() -> (r: Vec<Modifier>)
    ensures
        r@ == seq![Modifier::Ctrl, Modifier::Shift],
{
    let mut r = Vec::new();
    r.push(Modifier::Ctrl);
    r.push(Modifier::Shift);
    r
}

fn alt() -> (r: Vec<Modifier>)
    ensures
        r@ == seq![Modifier::Alt],
{
    let mut r = Vec::new();
    r.push(Modifier::Alt);
    r
}

/// The editor's key bindings (see [`key_binds_spec`]).
#[verifier::rlimit(50)]
pub fn key_binds() -> (r: Vec<(KeyBind, Action)>)
    ensures
        binds_view(r@) == key_binds_spec(),
{
    let mut binds: Vec<(KeyBind, Action)> = Vec::new();
    binds.push((KeyBind { modifiers: ctrl(), key: BindKey::Character('w') }, Action::CloseFile));
    assert(binds_view(binds@) =~= key_binds_spec().take(1));
    binds.push((KeyBind { modifiers: ctrl(), key: BindKey::Character('x') }, Action::Cut));
    assert(binds_view(binds@) =~= key_binds_spec().take(2));
    binds.push((KeyBind { modifiers: ctrl(), key: BindKey::Character('c') }, Action::Copy));
    assert(binds_view(binds@) =~= key_binds_spec().take(3));
    binds.push((KeyBind { modifiers: ctrl(), key: BindKey::Character('f') }, Action::Find));
    assert(binds_view(binds@) =~= key_binds_spec().take(4));
    binds.push((KeyBind { modifiers: ctrl(), key: BindKey::Character('h') }, Action::FindAndReplace));
    assert(binds_view(binds@) =~= key_binds_spec().take(5));
    binds.push((KeyBind { modifiers: ctrl(), key: BindKey::Character('v') }, Action::Paste));
    assert(binds_view(binds@) =~= key_binds_spec().take(6));
    binds.push((KeyBind { modifiers: ctrl(), key: BindKey::Character('t') }, Action::NewFile));
    assert(binds_view(binds@) =~= key_binds_spec().take(7));
    binds.push((KeyBind { modifiers: ctrl(), key: BindKey::Character('n') }, Action::NewWindow));
    assert(binds_view(binds@) =~= key_binds_spec().take(8));
    binds.push((KeyBind { modifiers: ctrl(), key: BindKey::Character('o') }, Action::OpenFileDialog));
    assert(binds_view(binds@) =~= key_binds_spec().take(9));
    binds.push((KeyBind { modifiers: ctrl_shift(), key: BindKey::Character('O') }, Action::OpenProjectDialog));
    assert(binds_view(binds@) =~= key_binds_spec().take(10));
    binds.push((KeyBind { modifiers: ctrl(), key: BindKey::Character('q') }, Action::Quit));
    assert(binds_view(binds@) =~= key_binds_spec().take(11));
    binds.push((KeyBind { modifiers: ctrl_shift(), key: BindKey::Character('z') }, Action::Redo));
    assert(binds_view(binds@) =~= key_binds_spec().take(12));
    binds.push((KeyBind { modifiers: ctrl(), key: BindKey::Character('s') }, Action::Save));
    assert(binds_view(binds@) =~= key_binds_spec().take(13));
    binds.push((KeyBind { modifiers: ctrl(), key: BindKey::Character('a') }, Action::SelectAll));
    assert(binds_view(binds@) =~= key_binds_spec().take(14));
    binds.push((KeyBind { modifiers: ctrl(), key: BindKey::Character('1') }, Action::TabActivate0));
    assert(binds_view(binds@) =~= key_binds_spec().take(15));
    binds.push((KeyBind { modifiers: ctrl(), key: BindKey::Character('2') }, Action::TabActivate1));
    assert(binds_view(binds@) =~= key_binds_spec().take(16));
    binds.push((KeyBind { modifiers: ctrl(), key: BindKey::Character('3') }, Action::TabActivate2));
    assert(binds_view(binds@) =~= key_binds_spec().take(17));
    binds.push((KeyBind { modifiers: ctrl(), key: BindKey::Character('4') }, Action::TabActivate3));
    assert(binds_view(binds@) =~= key_binds_spec().take(18));
    binds.push((KeyBind { modifiers: ctrl(), key: BindKey::Character('5') }, Action::TabActivate4));
    assert(binds_view(binds@) =~= key_binds_spec().take(19));
    binds.push((KeyBind { modifiers: ctrl(), key: BindKey::Character('6') }, Action::TabActivate5));
    assert(binds_view(binds@) =~= key_binds_spec().take(20));
    binds.push((KeyBind { modifiers: ctrl(), key: BindKey::Character('7') }, Action::TabActivate6));
    assert(binds_view(binds@) =~= key_binds_spec().take(21));
    binds.push((KeyBind { modifiers: ctrl(), key: BindKey::Character('8') }, Action::TabActivate7));
    assert(binds_view(binds@) =~= key_binds_spec().take(22));
    binds.push((KeyBind { modifiers: ctrl(), key: BindKey::Character('9') }, Action::TabActivate8));
    assert(binds_view(binds@) =~= key_binds_spec().take(23));
    binds.push((KeyBind { modifiers: ctrl(), key: BindKey::Tab }, Action::TabNext));
    assert(binds_view(binds@) =~= key_binds_spec().take(24));
    binds.push((KeyBind { modifiers: ctrl_shift(), key: BindKey::Tab }, Action::TabPrev));
    assert(binds_view(binds@) =~= key_binds_spec().take(25));
    binds.push((KeyBind { modifiers: ctrl_shift(), key: BindKey::Character('G') }, Action::ToggleGitManagement));
    assert(binds_view(binds@) =~= key_binds_spec().take(26));
    binds.push((KeyBind { modifiers: ctrl_shift(), key: BindKey::Character('F') }, Action::ToggleProjectSearch));
    assert(binds_view(binds@) =~= key_binds_spec().take(27));
    binds.push((KeyBind { modifiers: ctrl(), key: BindKey::Character(',') }, Action::ToggleSettingsPage));
    assert(binds_view(binds@) =~= key_binds_spec().take(28));
    binds.push((KeyBind { modifiers: alt(), key: BindKey::Character('z') }, Action::ToggleWordWrap));
    assert(binds_view(binds@) =~= key_binds_spec().take(29));
    binds.push((KeyBind { modifiers: ctrl(), key: BindKey::Character('z') }, Action::Undo));
    assert(binds_view(binds@) =~= key_binds_spec().take(30));
    assert(key_binds_spec().take(30) =~= key_binds_spec());
    binds
}

/// Whether `mods` lists `m`.
pub open spec fn lists(mods: Seq<Modifier>, m: Modifier) -> bool
    decreases mods.len(),
{
    if mods.len() == 0 {
        false
    } else {
        mods[0] == m || lists(mods.drop_first(), m)
    }
}

proof fn lemma_lists_contains(mods: Seq<Modifier>, m: Modifier)
    ensures
        lists(mods, m) == mods.contains(m),
    decreases mods.len(),
{
    if mods.len() > 0 {
        lemma_lists_contains(mods.drop_first(), m);
        if mods.drop_first().contains(m) {
            let k = choose|k: int| 0 <= k < mods.drop_first().len() && mods.drop_first()[k] == m;
            assert(mods[k + 1] == m);
        }
        if mods.contains(m) && mods[0] != m {
            let k = choose|k: int| 0 <= k < mods.len() && mods[k] == m;
            assert(mods.drop_first()[k - 1] == m);
        }
    }
}

/// What decides whether a binding is triggered: which modifiers it lists, and its key.
pub open spec fn trigger_of(e: (Seq<Modifier>, BindKey, Action)) -> (bool, bool, bool, bool, BindKey) {
    (lists(e.0, Modifier::Super), lists(e.0, Modifier::Ctrl), lists(e.0, Modifier::Alt), lists(e.0, Modifier::Shift), e.1)
}

pub open spec fn not_listed(t: (bool, bool, bool, bool, BindKey), s: Seq<(Seq<Modifier>, BindKey, Action)>) -> bool
    decreases s.len(),
{
    if s.len() == 0 {
        true
    } else {
        trigger_of(s[0]) != t && not_listed(t, s.drop_first())
    }
}

pub open spec fn triggers_distinct(s: Seq<(Seq<Modifier>, BindKey, Action)>) -> bool
    decreases s.len(),
{
    if s.len() == 0 {
        true
    } else {
        not_listed(trigger_of(s[0]), s.drop_first()) && triggers_distinct(s.drop_first())
    }
}

proof fn lemma_not_listed(t: (bool, bool, bool, bool, BindKey), s: Seq<(Seq<Modifier>, BindKey, Action)>, k: int)
    requires
        not_listed(t, s),
        0 <= k < s.len(),
    ensures
        trigger_of(s[k]) != t,
    decreases s.len(),
{
    if k > 0 {
        lemma_not_listed(t, s.drop_first(), k - 1);
        assert(s.drop_first()[k - 1] == s[k]);
    }
}

proof fn lemma_triggers_distinct(s: Seq<(Seq<Modifier>, BindKey, Action)>, i: int, j: int)
    requires
        triggers_distinct(s),
        0 <= i < j < s.len(),
    ensures
        trigger_of(s[i]) != trigger_of(s[j]),
    decreases s.len(),
{
    if i == 0 {
        lemma_not_listed(trigger_of(s[0]), s.drop_first(), j - 1);
        assert(s.drop_first()[j - 1] == s[j]);
    } else {
        lemma_triggers_distinct(s.drop_first(), i - 1, j - 1);
        assert(s.drop_first()[i - 1] == s[i]);
        assert(s.drop_first()[j - 1] == s[j]);
    }
}

/// Law: no key press triggers two bindings: any two differ in their key or
/// in the modifiers they list.
#[verifier::spinoff_prover]
#[verifier::rlimit(100)]
pub proof fn lemma_key_binds_distinct(i: int, j: int)
    requires
        0 <= i < j < key_binds_spec().len(),
    ensures
        trigger_of(key_binds_spec()[i]) != trigger_of(key_binds_spec()[j]),
{
    assert(triggers_distinct(key_binds_spec())) by {
        reveal_with_fuel(triggers_distinct, 31);
        reveal_with_fuel(not_listed, 31);
        reveal_with_fuel(lists, 3);
    }
    lemma_triggers_distinct(key_binds_spec(), i, j);
}

pub open spec fn triggered(e: (Seq<Modifier>, BindKey, Action), logo: bool, control: bool, alt: bool, shift: bool, key: BindKey) -> bool {
    e.1 == key && modifiers_match_spec(e.0, logo, control, alt, shift)
}

/// The key press binds to action `a` in the editor's bindings: some binding
/// it triggers has that action, and every binding it triggers has it.
pub open spec fn bound_to(logo: bool, control: bool, alt: bool, shift: bool, key: BindKey, a: Action) -> bool {
    &&& exists|i: int| 0 <= i < key_binds_spec().len() && triggered(#[trigger] key_binds_spec()[i], logo, control, alt, shift, key) && key_binds_spec()[i].2 == a
    &&& forall|i: int| 0 <= i < key_binds_spec().len() && triggered(#[trigger] key_binds_spec()[i], logo, control, alt, shift, key) ==> key_binds_spec()[i].2 == a
}

proof fn lemma_triggered_trigger(e: (Seq<Modifier>, BindKey, Action), logo: bool, control: bool, alt: bool, shift: bool, key: BindKey)
    requires
        triggered(e, logo, control, alt, shift, key),
    ensures
        trigger_of(e) == (logo, control, alt, shift, key),
{
    lemma_lists_contains(e.0, Modifier::Super);
    lemma_lists_contains(e.0, Modifier::Ctrl);
    lemma_lists_contains(e.0, Modifier::Alt);
    lemma_lists_contains(e.0, Modifier::Shift);
}

proof fn lemma_bound_at(i: int, logo: bool, control: bool, alt: bool, shift: bool, key: BindKey)
    requires
        0 <= i < key_binds_spec().len(),
        triggered(key_binds_spec()[i], logo, control, alt, shift, key),
    ensures
        bound_to(logo, control, alt, shift, key, key_binds_spec()[i].2),
{
    let t = key_binds_spec();
    assert forall|j: int| 0 <= j < t.len() && triggered(#[trigger] t[j], logo, control, alt, shift, key) implies t[j].2 == t[i].2 by {
        if j != i {
            lemma_triggered_trigger(t[i], logo, control, alt, shift, key);
            lemma_triggered_trigger(t[j], logo, control, alt, shift, key);
            if i < j {
                lemma_key_binds_distinct(i, j);
            } else {
                lemma_key_binds_distinct(j, i);
            }
        }
    }
}

/// Law: each key press of the editor's bindings binds to the action its
/// shortcut names: Ctrl+W closes the file, Ctrl+X cuts, Ctrl+C copies,
/// Ctrl+F finds, Ctrl+H finds and replaces, Ctrl+V pastes, Ctrl+T opens a
/// new file, Ctrl+N a new window, Ctrl+O the open-file dialog,
/// Ctrl+Shift+O the open-project dialog, Ctrl+Q quits, Ctrl+Shift+Z redoes,
/// Ctrl+S saves, Ctrl+A selects all, Ctrl+1 to Ctrl+9 activate tabs one to
/// nine, Ctrl+Tab and Ctrl+Shift+Tab go to the next and previous tab,
/// Ctrl+Shift+G and Ctrl+Shift+F toggle the git and project search pages,
/// Ctrl+, the settings, Alt+Z word wrap, and Ctrl+Z undoes.
proof fn lemma_modifier_sets()
    ensures
        modifiers_match_spec(seq![Modifier::Ctrl], false, true, false, false),
        modifiers_match_spec(seq![Modifier::Ctrl, Modifier::Shift], false, true, false, true),
        modifiers_match_spec(seq![Modifier::Alt], false, false, true, false),
{
    let c = seq![Modifier::Ctrl];
    let cs = seq![Modifier::Ctrl, Modifier::Shift];
    let a = seq![Modifier::Alt];
    lemma_lists_contains(c, Modifier::Super);
    lemma_lists_contains(c, Modifier::Ctrl);
    lemma_lists_contains(c, Modifier::Alt);
    lemma_lists_contains(c, Modifier::Shift);
    lemma_lists_contains(cs, Modifier::Super);
    lemma_lists_contains(cs, Modifier::Ctrl);
    lemma_lists_contains(cs, Modifier::Alt);
    lemma_lists_contains(cs, Modifier::Shift);
    lemma_lists_contains(a, Modifier::Super);
    lemma_lists_contains(a, Modifier::Ctrl);
    lemma_lists_contains(a, Modifier::Alt);
    lemma_lists_contains(a, Modifier::Shift);
    reveal_with_fuel(lists, 3);
}

#[verifier::spinoff_prover]
#[verifier::rlimit(100)]
pub proof fn lemma_key_bind_actions()
    ensures
        bound_to(false, true, false, false, BindKey::Character('w'), Action::CloseFile),
        bound_to(false, true, false, false, BindKey::Character('x'), Action::Cut),
        bound_to(false, true, false, false, BindKey::Character('c'), Action::Copy),
        bound_to(false, true, false, false, BindKey::Character('f'), Action::Find),
        bound_to(false, true, false, false, BindKey::Character('h'), Action::FindAndReplace),
        bound_to(false, true, false, false, BindKey::Character('v'), Action::Paste),
        bound_to(false, true, false, false, BindKey::Character('t'), Action::NewFile),
        bound_to(false, true, false, false, BindKey::Character('n'), Action::NewWindow),
        bound_to(false, true, false, false, BindKey::Character('o'), Action::OpenFileDialog),
        bound_to(false, true, false, true, BindKey::Character('O'), Action::OpenProjectDialog),
        bound_to(false, true, false, false, BindKey::Character('q'), Action::Quit),
        bound_to(false, true, false, true, BindKey::Character('z'), Action::Redo),
        bound_to(false, true, false, false, BindKey::Character('s'), Action::Save),
        bound_to(false, true, false, false, BindKey::Character('a'), Action::SelectAll),
        bound_to(false, true, false, false, BindKey::Character('1'), Action::TabActivate0),
        bound_to(false, true, false, false, BindKey::Character('2'), Action::TabActivate1),
        bound_to(false, true, false, false, BindKey::Character('3'), Action::TabActivate2),
        bound_to(false, true, false, false, BindKey::Character('4'), Action::TabActivate3),
        bound_to(false, true, false, false, BindKey::Character('5'), Action::TabActivate4),
        bound_to(false, true, false, false, BindKey::Character('6'), Action::TabActivate5),
        bound_to(false, true, false, false, BindKey::Character('7'), Action::TabActivate6),
        bound_to(false, true, false, false, BindKey::Character('8'), Action::TabActivate7),
        bound_to(false, true, false, false, BindKey::Character('9'), Action::TabActivate8),
        bound_to(false, true, false, false, BindKey::Tab, Action::TabNext),
        bound_to(false, true, false, true, BindKey::Tab, Action::TabPrev),
        bound_to(false, true, false, true, BindKey::Character('G'), Action::ToggleGitManagement),
        bound_to(false, true, false, true, BindKey::Character('F'), Action::ToggleProjectSearch),
        bound_to(false, true, false, false, BindKey::Character(','), Action::ToggleSettingsPage),
        bound_to(false, false, true, false, BindKey::Character('z'), Action::ToggleWordWrap),
        bound_to(false, true, false, false, BindKey::Character('z'), Action::Undo),
{
    lemma_modifier_sets();
    lemma_bound_at(0, false, true, false, false, BindKey::Character('w'));
    lemma_bound_at(1, false, true, false, false, BindKey::Character('x'));
    lemma_bound_at(2, false, true, false, false, BindKey::Character('c'));
    lemma_bound_at(3, false, true, false, false, BindKey::Character('f'));
    lemma_bound_at(4, false, true, false, false, BindKey::Character('h'));
    lemma_bound_at(5, false, true, false, false, BindKey::Character('v'));
    lemma_bound_at(6, false, true, false, false, BindKey::Character('t'));
    lemma_bound_at(7, false, true, false, false, BindKey::Character('n'));
    lemma_bound_at(8, false, true, false, false, BindKey::Character('o'));
    lemma_bound_at(9, false, true, false, true, BindKey::Character('O'));
    lemma_bound_at(10, false, true, false, false, BindKey::Character('q'));
    lemma_bound_at(11, false, true, false, true, BindKey::Character('z'));
    lemma_bound_at(12, false, true, false, false, BindKey::Character('s'));
    lemma_bound_at(13, false, true, false, false, BindKey::Character('a'));
    lemma_bound_at(14, false, true, false, false, BindKey::Character('1'));
    lemma_bound_at(15, false, true, false, false, BindKey::Character('2'));
    lemma_bound_at(16, false, true, false, false, BindKey::Character('3'));
    lemma_bound_at(17, false, true, false, false, BindKey::Character('4'));
    lemma_bound_at(18, false, true, false, false, BindKey::Character('5'));
    lemma_bound_at(19, false, true, false, false, BindKey::Character('6'));
    lemma_bound_at(20, false, true, false, false, BindKey::Character('7'));
    lemma_bound_at(21, false, true, false, false, BindKey::Character('8'));
    lemma_bound_at(22, false, true, false, false, BindKey::Character('9'));
    lemma_bound_at(23, false, true, false, false, BindKey::Tab);
    lemma_bound_at(24, false, true, false, true, BindKey::Tab);
    lemma_bound_at(25, false, true, false, true, BindKey::Character('G'));
    lemma_bound_at(26, false, true, false, true, BindKey::Character('F'));
    lemma_bound_at(27, false, true, false, false, BindKey::Character(','));
    lemma_bound_at(28, false, false, true, false, BindKey::Character('z'));
    lemma_bound_at(29, false, true, false, false, BindKey::Character('z'));
}

/// The action bound to a key press: that of the first binding it triggers,
/// if any (with the editor's bindings there is at most one, see
/// [`lemma_key_binds_distinct`]).
pub fn action_for(binds: &Vec<(KeyBind, Action)>, logo: bool, control: bool, alt: bool, shift: bool, key: BindKey) -> (r: Option<Action>)
    ensures
        match r {
            Some(a) => exists|i: int| 0 <= i < binds@.len() && triggered(binds_view(binds@)[i], logo, control, alt, shift, key)
                && binds_view(binds@)[i].2 == a
                && forall|j: int| 0 <= j < i ==> !triggered(#[trigger] binds_view(binds@)[j], logo, control, alt, shift, key),
            None => forall|j: int| 0 <= j < binds@.len() ==> !triggered(#[trigger] binds_view(binds@)[j], logo, control, alt, shift, key),
        },
{
    let ghost v = binds_view(binds@);
    let mut i: usize = 0;
    while i < binds.len()
        invariant
            v == binds_view(binds@),
            i <= binds@.len(),
            forall|j: int| 0 <= j < i ==> !triggered(#[trigger] v[j], logo, control, alt, shift, key),
        decreases binds@.len() - i,
    {
        let entry = &binds[i];
        assert(v[i as int] == (entry.0.modifiers@, entry.0.key, entry.1));
        if entry.0.matches(logo, control, alt, shift, key) {
            return Some(entry.1);
        }
        i = i + 1;
    }
    None
}

} // verus!
