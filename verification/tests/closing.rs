use cosmic_edit::close_flow::{
    close_step, find_tab_position, unsaved_tab_ids, CloseDialog, CloseEffect, CloseEvent, CloseState, TabEntry,
};

fn tab(id: u64, changed: bool) -> TabEntry {
    TabEntry { id, editor: true, changed }
}

fn state(tabs: Vec<TabEntry>, active: u64) -> CloseState {
    CloseState { tabs, active: Some(active), dialog: None }
}

const NOTHING: CloseEffect = CloseEffect { open_new_tab: false, quit: false };

#[test]
fn closing_a_changed_tab_asks_first() {
    let s = state(vec![tab(1, false), tab(2, true), tab(3, false)], 1);
    let (s, effect) = close_step(s, CloseEvent::Close(2));
    assert_eq!(effect, NOTHING);
    assert_eq!(s.tabs.len(), 3);
    assert_eq!(s.active, Some(2));
    assert_eq!(s.dialog, Some(CloseDialog::SaveBeforeClose(2)));
    let (s, effect) = close_step(s, CloseEvent::Close(2));
    assert_eq!(effect, NOTHING);
    assert_eq!(s.dialog, Some(CloseDialog::SaveBeforeClose(2)));
}

#[test]
fn closing_activates_the_tab_before_or_after() {
    let s = state(vec![tab(1, false), tab(2, false), tab(3, false)], 3);
    let (s, effect) = close_step(s, CloseEvent::Close(3));
    assert_eq!(effect, NOTHING);
    assert_eq!(s.tabs, vec![tab(1, false), tab(2, false)]);
    assert_eq!(s.active, Some(2));
    let (s, _) = close_step(s, CloseEvent::Close(1));
    assert_eq!(s.tabs, vec![tab(2, false)]);
    assert_eq!(s.active, Some(2));
}

#[test]
fn closing_the_last_tab_opens_a_new_one() {
    let s = state(vec![tab(7, false)], 7);
    let (s, effect) = close_step(s, CloseEvent::Close(7));
    assert_eq!(effect, CloseEffect { open_new_tab: true, quit: false });
    assert!(s.tabs.is_empty());
    assert_eq!(s.active, None);
}

#[test]
fn forced_close_drops_unsaved_text_and_its_dialog() {
    let s = state(vec![tab(1, true), tab(2, false)], 1);
    let (s, _) = close_step(s, CloseEvent::Close(1));
    assert_eq!(s.dialog, Some(CloseDialog::SaveBeforeClose(1)));
    let (s, effect) = close_step(s, CloseEvent::CloseForce(1));
    assert_eq!(effect, NOTHING);
    assert_eq!(s.tabs, vec![tab(2, false)]);
    assert_eq!(s.active, Some(2));
    assert_eq!(s.dialog, None);
}

#[test]
fn saving_the_tab_asked_about_closes_it() {
    let s = CloseState { tabs: vec![tab(1, false), tab(2, false)], active: Some(2), dialog: Some(CloseDialog::SaveBeforeClose(2)) };
    let (s, effect) = close_step(s, CloseEvent::Recheck);
    assert_eq!(effect, NOTHING);
    assert_eq!(s.tabs, vec![tab(1, false)]);
    assert_eq!(s.active, Some(1));
    assert_eq!(s.dialog, None);
}

#[test]
fn dialog_about_a_vanished_tab_closes() {
    let s = CloseState { tabs: vec![tab(1, true)], active: Some(1), dialog: Some(CloseDialog::SaveBeforeClose(9)) };
    let (s, effect) = close_step(s, CloseEvent::Recheck);
    assert_eq!(effect, NOTHING);
    assert_eq!(s.tabs, vec![tab(1, true)]);
    assert_eq!(s.dialog, None);
}

#[test]
fn activating_another_tab_closes_the_save_dialog() {
    let s = CloseState { tabs: vec![tab(1, true), tab(2, false)], active: Some(1), dialog: Some(CloseDialog::SaveBeforeClose(1)) };
    let (same, _) = close_step(s.clone(), CloseEvent::Activate(1));
    assert_eq!(same.dialog, Some(CloseDialog::SaveBeforeClose(1)));
    let (other, _) = close_step(s, CloseEvent::Activate(2));
    assert_eq!(other.active, Some(2));
    assert_eq!(other.dialog, None);
}

#[test]
fn quitting_asks_about_unsaved_tabs() {
    let diff = TabEntry { id: 4, editor: false, changed: true };
    let s = state(vec![tab(1, false), tab(2, true), tab(3, true), diff], 1);
    let (s, effect) = close_step(s, CloseEvent::Quit);
    assert_eq!(effect, NOTHING);
    assert_eq!(s.dialog, Some(CloseDialog::SaveBeforeQuit(vec![2, 3])));
    assert_eq!(s.tabs.len(), 4);
    let saved = CloseState { tabs: vec![tab(1, false), tab(2, false), tab(3, true)], ..s };
    let (s, effect) = close_step(saved, CloseEvent::Recheck);
    assert_eq!(effect, NOTHING);
    assert_eq!(s.dialog, Some(CloseDialog::SaveBeforeQuit(vec![3])));
    let all_saved = CloseState { tabs: vec![tab(1, false), tab(2, false), tab(3, false)], ..s };
    let (_, effect) = close_step(all_saved, CloseEvent::Recheck);
    assert_eq!(effect, CloseEffect { open_new_tab: false, quit: true });
}

#[test]
fn quitting_without_unsaved_tabs_exits_at_once() {
    let s = state(vec![tab(1, false), tab(2, false)], 2);
    let (s, effect) = close_step(s, CloseEvent::Quit);
    assert_eq!(effect, CloseEffect { open_new_tab: false, quit: true });
    assert_eq!(s.tabs.len(), 2);
    let s = state(vec![tab(1, true)], 1);
    let (_, effect) = close_step(s, CloseEvent::QuitForce);
    assert!(effect.quit);
}

#[test]
fn tabs_are_found_by_id() {
    let tabs = vec![tab(5, false), tab(6, true), tab(7, true)];
    assert_eq!(find_tab_position(&tabs, 6), Some(1));
    assert_eq!(find_tab_position(&tabs, 8), None);
    assert_eq!(unsaved_tab_ids(&tabs), vec![6, 7]);
}
