//! How the text box turns key presses and clicks into editor actions.

use vstd::prelude::*;

verus! {

/// A movement of the editor's cursor.
#[derive(Clone, Copy, Debug, PartialEq, Eq, Structural)]
pub enum Motion {
    Left,
    Right,
    Up,
    Down,
    Home,
    End,
    PageUp,
    PageDown,
    LeftWord,
    RightWord,
    BufferStart,
    BufferEnd,
}

/// The named keys the text box reacts to (the space bar types a character
/// and is not among them).
#[derive(Clone, Copy, Debug, PartialEq, Eq, Structural)]
pub enum NamedKey {
    ArrowLeft,
    ArrowRight,
    ArrowUp,
    ArrowDown,
    Home,
    End,
    PageUp,
    PageDown,
    Escape,
    Enter,
    Backspace,
    Delete,
    Tab,
    Other,
}

/// The modifier keys held.
#[derive(Clone, Copy, Debug, PartialEq, Eq, Structural)]
pub struct KeyModifiers {
    pub control: bool,
    pub shift: bool,
    pub alt: bool,
    pub logo: bool,
}

/// What the text box asks of the editor, in order.
#[derive(Clone, Copy, Debug, PartialEq, Eq, Structural)]
pub enum EditorAction {
    /// Start a selection at the cursor.
    SelectFromCursor,
    /// Drop the selection.
    ClearSelection,
    Motion(Motion),
    Escape,
    Enter,
    Backspace,
    Delete,
    Indent,
    Unindent,
    Insert(char),
}

/// With Ctrl held, left and right move by words and Home and End go to the
/// ends of the buffer.
pub open spec fn motion_for_spec(motion: Motion, control: bool) -> Motion {
    if control {
        match motion {
            Motion::Left => Motion::LeftWord,
            Motion::Right => Motion::RightWord,
            Motion::Home => Motion::BufferStart,
            Motion::End => Motion::BufferEnd,
            _ => motion,
        }
    } else {
        motion
    }
}

/// A movement key: Shift starts a selection when there is none, its absence
/// drops one that there is; then the cursor moves.
pub open spec fn move_actions_spec(motion: Motion, m: KeyModifiers, has_selection: bool) -> Seq<EditorAction> {
    let moved = EditorAction::Motion(motion_for_spec(motion, m.control));
    if !has_selection && m.shift {
        seq![EditorAction::SelectFromCursor, moved]
    } else if has_selection && !m.shift {
        seq![EditorAction::ClearSelection, moved]
    } else {
        seq![moved]
    }
}

/// Backspace and Delete: with Ctrl and no selection they first select the
/// word before (or after) the cursor, so that it goes as a whole.
pub open spec fn delete_actions_spec(word: Motion, then: EditorAction, m: KeyModifiers, has_selection: bool) -> Seq<EditorAction> {
    if m.control && !has_selection {
        seq![EditorAction::SelectFromCursor, EditorAction::Motion(word), then]
    } else {
        seq![then]
    }
}

/// The actions for a named key pressed while the text box has focus, and
/// whether the key was used.
pub open spec fn named_key_spec(key: NamedKey, m: KeyModifiers, has_selection: bool) -> (Seq<EditorAction>, bool) {
    match key {
        NamedKey::ArrowLeft => (move_actions_spec(Motion::Left, m, has_selection), true),
        NamedKey::ArrowRight => (move_actions_spec(Motion::Right, m, has_selection), true),
        NamedKey::ArrowUp => (move_actions_spec(Motion::Up, m, has_selection), true),
        NamedKey::ArrowDown => (move_actions_spec(Motion::Down, m, has_selection), true),
        NamedKey::Home => (move_actions_spec(Motion::Home, m, has_selection), true),
        NamedKey::End => (move_actions_spec(Motion::End, m, has_selection), true),
        NamedKey::PageUp => (move_actions_spec(Motion::PageUp, m, has_selection), true),
        NamedKey::PageDown => (move_actions_spec(Motion::PageDown, m, has_selection), true),
        NamedKey::Escape => (seq![EditorAction::Escape], true),
        NamedKey::Enter => (seq![EditorAction::Enter], true),
        NamedKey::Backspace => (delete_actions_spec(Motion::LeftWord, EditorAction::Backspace, m, has_selection), true),
        NamedKey::Delete => (delete_actions_spec(Motion::RightWord, EditorAction::Delete, m, has_selection), true),
        NamedKey::Tab => if !m.control && !m.alt {
            (seq![if m.shift { EditorAction::Unindent } else { EditorAction::Indent }], true)
        } else {
            (Seq::empty(), false)
        },
        NamedKey::Other => (Seq::empty(), false),
    }
}

/// Whether a motion moves the cursor towards the end of the text.
pub open spec fn moves_forward(mo: Motion) -> bool {
    mo == Motion::Right || mo == Motion::Down || mo == Motion::End || mo == Motion::PageDown
        || mo == Motion::RightWord || mo == Motion::BufferEnd
}

/// Law: Delete removes forwards and Backspace backwards. Without Ctrl, or
/// with text selected, each is a single delete (of the selection, or of one
/// character); with Ctrl and nothing selected, the word after the cursor
/// (Delete) or before it (Backspace) is selected first and removed whole.
pub proof fn lemma_delete_keys_directions(m: KeyModifiers, has_selection: bool)
    ensures
        named_key_spec(NamedKey::Delete, m, has_selection).1,
        named_key_spec(NamedKey::Backspace, m, has_selection).1,
        m.control && !has_selection ==> named_key_spec(NamedKey::Delete, m, has_selection).0
            == seq![EditorAction::SelectFromCursor, EditorAction::Motion(Motion::RightWord), EditorAction::Delete],
        m.control && !has_selection ==> named_key_spec(NamedKey::Backspace, m, has_selection).0
            == seq![EditorAction::SelectFromCursor, EditorAction::Motion(Motion::LeftWord), EditorAction::Backspace],
        !(m.control && !has_selection) ==> named_key_spec(NamedKey::Delete, m, has_selection).0 == seq![EditorAction::Delete],
        !(m.control && !has_selection) ==> named_key_spec(NamedKey::Backspace, m, has_selection).0 == seq![EditorAction::Backspace],
{
}

/// Law: a movement key moves the cursor in its own direction: its last
/// action is a motion, forwards for Right, Down, End and Page Down and
/// backwards for the others; with Ctrl, Left and Right go by words and Home
/// and End to the ends of the text, otherwise by one step. Shift extends a
/// selection (starting one when there is none) and its absence drops one.
pub proof fn lemma_movement_keys_directions(key: NamedKey, m: KeyModifiers, has_selection: bool)
    requires
        key == NamedKey::ArrowLeft || key == NamedKey::ArrowRight || key == NamedKey::ArrowUp || key == NamedKey::ArrowDown
            || key == NamedKey::Home || key == NamedKey::End || key == NamedKey::PageUp || key == NamedKey::PageDown,
    ensures
        ({
            let acts = named_key_spec(key, m, has_selection).0;
            let forward = key == NamedKey::ArrowRight || key == NamedKey::ArrowDown || key == NamedKey::End || key == NamedKey::PageDown;
            &&& named_key_spec(key, m, has_selection).1
            &&& acts.len() >= 1
            &&& acts.last() matches EditorAction::Motion(mo) && moves_forward(mo) == forward
            &&& key == NamedKey::ArrowLeft ==> acts.last() == EditorAction::Motion(if m.control { Motion::LeftWord } else { Motion::Left })
            &&& key == NamedKey::ArrowRight ==> acts.last() == EditorAction::Motion(if m.control { Motion::RightWord } else { Motion::Right })
            &&& key == NamedKey::ArrowUp ==> acts.last() == EditorAction::Motion(Motion::Up)
            &&& key == NamedKey::ArrowDown ==> acts.last() == EditorAction::Motion(Motion::Down)
            &&& key == NamedKey::Home ==> acts.last() == EditorAction::Motion(if m.control { Motion::BufferStart } else { Motion::Home })
            &&& key == NamedKey::End ==> acts.last() == EditorAction::Motion(if m.control { Motion::BufferEnd } else { Motion::End })
            &&& key == NamedKey::PageUp ==> acts.last() == EditorAction::Motion(Motion::PageUp)
            &&& key == NamedKey::PageDown ==> acts.last() == EditorAction::Motion(Motion::PageDown)
            &&& (m.shift && !has_selection) == (acts[0] == EditorAction::SelectFromCursor)
            &&& (!m.shift && has_selection) == (acts[0] == EditorAction::ClearSelection)
            &&& acts.len() == (if m.shift != has_selection { 2int } else { 1int })
        }),
{
}

/// Law: Escape and Enter are always taken and do just that; Tab indents
/// (Shift+Tab unindents) only without Ctrl and Alt, and is left to the
/// window otherwise; other named keys are left to the window.
pub proof fn lemma_other_named_keys(m: KeyModifiers, has_selection: bool)
    ensures
        named_key_spec(NamedKey::Escape, m, has_selection) == (seq![EditorAction::Escape], true),
        named_key_spec(NamedKey::Enter, m, has_selection) == (seq![EditorAction::Enter], true),
        !m.control && !m.alt && !m.shift ==> named_key_spec(NamedKey::Tab, m, has_selection) == (seq![EditorAction::Indent], true),
        !m.control && !m.alt && m.shift ==> named_key_spec(NamedKey::Tab, m, has_selection) == (seq![EditorAction::Unindent], true),
        (m.control || m.alt) ==> !named_key_spec(NamedKey::Tab, m, has_selection).1 && named_key_spec(NamedKey::Tab, m, has_selection).0.len() == 0,
        !named_key_spec(NamedKey::Other, m, has_selection).1 && named_key_spec(NamedKey::Other, m, has_selection).0.len() == 0,
{
}

fn motion_for(motion: Motion, control: bool) -> (r: Motion)
    ensures
        r == motion_for_spec(motion, control),
{
    if control {
        match motion {
            Motion::Left => Motion::LeftWord,
            Motion::Right => Motion::RightWord,
            Motion::Home => Motion::BufferStart,
            Motion::End => Motion::BufferEnd,
            _ => motion,
        }
    } else {
        motion
    }
}

fn move_actions(motion: Motion, m: KeyModifiers, has_selection: bool) -> (r: Vec<EditorAction>)
    ensures
        r@ == move_actions_spec(motion, m, has_selection),
{
    let moved = EditorAction::Motion(motion_for(motion, m.control));
    let r = if !has_selection && m.shift {
        vec![EditorAction::SelectFromCursor, moved]
    } else if has_selection && !m.shift {
        vec![EditorAction::ClearSelection, moved]
    } else {
        vec![moved]
    };
    assert(r@ =~= move_actions_spec(motion, m, has_selection));
    r
}

fn delete_actions(word: Motion, then: EditorAction, m: KeyModifiers, has_selection: bool) -> (r: Vec<EditorAction>)
    ensures
        r@ == delete_actions_spec(word, then, m, has_selection),
{
    let r = if m.control && !has_selection {
        vec![EditorAction::SelectFromCursor, EditorAction::Motion(word), then]
    } else {
        vec![then]
    };
    assert(r@ =~= delete_actions_spec(word, then, m, has_selection));
    r
}

/// The editor actions for a named key pressed while the text box has focus
/// (see [`named_key_spec`]), and whether the key was used.
pub fn named_key_actions(key: NamedKey, m: KeyModifiers, has_selection: bool) -> (r: (Vec<EditorAction>, bool))
    ensures
        r.0@ == named_key_spec(key, m, has_selection).0,
        r.1 == named_key_spec(key, m, has_selection).1,
{
    match key {
        NamedKey::ArrowLeft => (move_actions(Motion::Left, m, has_selection), true),
        NamedKey::ArrowRight => (move_actions(Motion::Right, m, has_selection), true),
        NamedKey::ArrowUp => (move_actions(Motion::Up, m, has_selection), true),
        NamedKey::ArrowDown => (move_actions(Motion::Down, m, has_selection), true),
        NamedKey::Home => (move_actions(Motion::Home, m, has_selection), true),
        NamedKey::End => (move_actions(Motion::End, m, has_selection), true),
        NamedKey::PageUp => (move_actions(Motion::PageUp, m, has_selection), true),
        NamedKey::PageDown => (move_actions(Motion::PageDown, m, has_selection), true),
        NamedKey::Escape => {
            let r = vec![EditorAction::Escape];
            assert(r@ =~= seq![EditorAction::Escape]);
            (r, true)
        }
        NamedKey::Enter => {
            let r = vec![EditorAction::Enter];
            assert(r@ =~= seq![EditorAction::Enter]);
            (r, true)
        }
        NamedKey::Backspace => (delete_actions(Motion::LeftWord, EditorAction::Backspace, m, has_selection), true),
        NamedKey::Delete => (delete_actions(Motion::RightWord, EditorAction::Delete, m, has_selection), true),
        NamedKey::Tab => {
            if !m.control && !m.alt {
                let a = if m.shift { EditorAction::Unindent } else { EditorAction::Indent };
                let r = vec![a];
                assert(r@ =~= seq![a]);
                (r, true)
            } else {
                let r: Vec<EditorAction> = Vec::new();
                assert(r@ =~= Seq::<EditorAction>::empty());
                (r, false)
            }
        }
        NamedKey::Other => {
            let r: Vec<EditorAction> = Vec::new();
            assert(r@ =~= Seq::<EditorAction>::empty());
            (r, false)
        }
    }
}

/// Unicode's control characters (general category `Cc`), which
/// `char::is_control` tests.
pub open spec fn is_control_char(c: char) -> bool {
    c <= '\u{1f}' || ('\u{7f}' <= c && c <= '\u{9f}')
}

/// Whether `c` is a control character.
pub fn is_control(c: char) -> (r: bool)
    ensures
        r == is_control_char(c),
{
    c <= '\u{1f}' || ('\u{7f}' <= c && c <= '\u{9f}')
}

/// A key that types `character` while the text box has focus: it is taken
/// only when Super, Ctrl and Alt are all released, and then inserts the
/// character unless it is a control character.
pub fn text_key_action(character: char, m: KeyModifiers) -> (r: (Option<EditorAction>, bool))
    ensures
        r.1 == (!m.logo && !m.control && !m.alt),
        r.0 == (if r.1 && !is_control_char(character) { Some(EditorAction::Insert(character)) } else { None }),
{
    if !m.logo && !m.control && !m.alt {
        if !is_control(character) {
            (Some(EditorAction::Insert(character)), true)
        } else {
            (None, true)
        }
    } else {
        (None, false)
    }
}

/// Single, double and triple clicks.
#[derive(Clone, Copy, Debug, PartialEq, Eq, Structural)]
pub enum ClickKind {
    Single,
    Double,
    Triple,
}

pub open spec fn next_click_spec(previous: Option<ClickKind>, quick: bool) -> ClickKind {
    match previous {
        Some(k) if quick => match k {
            ClickKind::Single => ClickKind::Double,
            ClickKind::Double => ClickKind::Triple,
            ClickKind::Triple => ClickKind::Single,
        },
        _ => ClickKind::Single,
    }
}

/// The kind of a click: a click that follows the last one quickly (`quick`:
/// within the click timing) goes one step further, single to double to
/// triple and back to single; any other click is single.
pub fn next_click_kind(previous: Option<ClickKind>, quick: bool) -> (r: ClickKind)
    ensures
        r == next_click_spec(previous, quick),
{
    match previous {
        Some(k) if quick => match k {
            ClickKind::Single => ClickKind::Double,
            ClickKind::Double => ClickKind::Triple,
            ClickKind::Triple => ClickKind::Single,
        },
        _ => ClickKind::Single,
    }
}

/// Law: three quick clicks select by triple click, and a fourth starts over.
pub proof fn lemma_click_kinds_cycle()
    ensures
        next_click_spec(Some(next_click_spec(Some(next_click_spec(None, true)), true)), true) == ClickKind::Triple,
        next_click_spec(Some(ClickKind::Triple), true) == ClickKind::Single,
        forall|k: Option<ClickKind>| next_click_spec(k, false) == ClickKind::Single,
{
}

} // verus!
