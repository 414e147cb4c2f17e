use niri_switch::selection::Direction;
use niri_switch::window_list::{WindowInfo, WindowList};

fn info(id: u64) -> WindowInfo {
    WindowInfo { id, title: format!("window {id}"), app_name: String::from("app"), icon: None }
}

fn infos(ids: &[u64]) -> Vec<WindowInfo> {
    ids.iter().map(|&id| info(id)).collect()
}

#[test]
fn new_list_is_empty_with_nothing_selected() {
    let list = WindowList::new();
    assert_eq!(list.len(), 0);
    assert_eq!(list.selected(), None);
    assert!(!list.is_activation_pending());
    assert_eq!(list.pending_advances(), 0);
    let default = WindowList::default();
    assert_eq!(default.len(), 0);
    assert_eq!(default.selected(), None);
}

#[test]
fn filling_an_empty_list_selects_the_first_window() {
    let mut list = WindowList::new();
    assert_eq!(list.fill_the_list(infos(&[10, 11, 12])), None);
    assert_eq!(list.len(), 3);
    assert_eq!(list.selected(), Some(0));
    assert!(!list.is_activation_pending());
}

#[test]
fn advancing_moves_and_wraps() {
    let mut list = WindowList::new();
    list.fill_the_list(infos(&[1, 2, 3]));
    assert_eq!(list.advance_the_selection(Direction::Forward), Some(1));
    assert_eq!(list.advance_the_selection(Direction::Forward), Some(2));
    assert_eq!(list.advance_the_selection(Direction::Forward), Some(0));
    assert_eq!(list.advance_the_selection(Direction::Backward), Some(2));
    assert_eq!(list.selected(), Some(2));
    assert_eq!(list.pending_advances(), 0);
}

#[test]
fn presses_on_an_empty_list_are_remembered() {
    let mut list = WindowList::new();
    assert_eq!(list.advance_the_selection(Direction::Forward), None);
    assert_eq!(list.advance_the_selection(Direction::Forward), None);
    assert_eq!(list.pending_advances(), 2);
    assert_eq!(list.advance_the_selection(Direction::Backward), None);
    assert_eq!(list.advance_the_selection(Direction::Backward), None);
    assert_eq!(list.advance_the_selection(Direction::Backward), None);
    assert_eq!(list.pending_advances(), -1);
    assert_eq!(list.selected(), None);
}

#[test]
fn remembered_presses_are_replayed_on_fill() {
    let mut list = WindowList::new();
    list.advance_the_selection(Direction::Forward);
    list.advance_the_selection(Direction::Forward);
    assert_eq!(list.fill_the_list(infos(&[1, 2, 3])), None);
    assert_eq!(list.selected(), Some(2));
    assert_eq!(list.pending_advances(), 0);
}

#[test]
fn remembered_presses_wrap_around_on_fill() {
    let mut list = WindowList::new();
    for _ in 0..4 {
        list.advance_the_selection(Direction::Forward);
    }
    list.fill_the_list(infos(&[1, 2, 3]));
    assert_eq!(list.selected(), Some(1));

    let mut list = WindowList::new();
    list.advance_the_selection(Direction::Backward);
    list.fill_the_list(infos(&[1, 2, 3]));
    assert_eq!(list.selected(), Some(2));
}

#[test]
fn filling_with_no_windows_keeps_the_remembered_presses() {
    let mut list = WindowList::new();
    list.advance_the_selection(Direction::Backward);
    list.advance_the_selection(Direction::Backward);
    assert_eq!(list.fill_the_list(Vec::new()), None);
    assert_eq!(list.pending_advances(), -2);
    assert_eq!(list.selected(), None);
    list.fill_the_list(infos(&[1, 2, 3, 4]));
    assert_eq!(list.selected(), Some(2));
    assert_eq!(list.pending_advances(), 0);
}

#[test]
fn confirmation_before_loading_is_deferred_until_fill() {
    let mut list = WindowList::new();
    assert_eq!(list.activate_selected(), None);
    assert!(list.is_activation_pending());
    assert_eq!(list.fill_the_list(infos(&[42, 43])), Some(42));
    assert!(!list.is_activation_pending());
}

#[test]
fn deferred_confirmation_chooses_the_replayed_selection() {
    let mut list = WindowList::new();
    list.advance_the_selection(Direction::Forward);
    list.activate_selected();
    assert_eq!(list.fill_the_list(infos(&[42, 43, 44])), Some(43));
}

#[test]
fn deferred_confirmation_waits_through_an_empty_fill() {
    let mut list = WindowList::new();
    list.activate_selected();
    assert_eq!(list.fill_the_list(Vec::new()), None);
    assert!(list.is_activation_pending());
    assert_eq!(list.fill_the_list(infos(&[5])), Some(5));
}

#[test]
fn cancelled_confirmation_is_not_carried_out() {
    let mut list = WindowList::new();
    list.activate_selected();
    list.cancel_pending_activation();
    assert!(!list.is_activation_pending());
    assert_eq!(list.fill_the_list(infos(&[42, 43])), None);
}

#[test]
fn confirming_a_selected_window_returns_its_id() {
    let mut list = WindowList::new();
    list.fill_the_list(infos(&[7, 8, 9]));
    list.advance_the_selection(Direction::Backward);
    assert_eq!(list.activate_selected(), Some(9));
    assert!(!list.is_activation_pending());
}

#[test]
fn activate_position_returns_that_window() {
    let mut list = WindowList::new();
    list.fill_the_list(infos(&[7, 8, 9]));
    assert_eq!(list.activate_position(1), 8);
    assert_eq!(list.activate_position(2), 9);
    assert_eq!(list.selected(), Some(0));
}

#[test]
fn clearing_forgets_everything() {
    let mut list = WindowList::new();
    list.advance_the_selection(Direction::Forward);
    list.activate_selected();
    list.clear_the_list();
    assert_eq!(list.pending_advances(), 0);
    assert!(!list.is_activation_pending());
    list.fill_the_list(infos(&[1, 2]));
    list.clear_the_list();
    assert_eq!(list.len(), 0);
    assert_eq!(list.selected(), None);
}

#[test]
fn filling_a_shown_list_appends_and_keeps_the_selection() {
    let mut list = WindowList::new();
    list.fill_the_list(infos(&[1, 2]));
    list.advance_the_selection(Direction::Forward);
    list.fill_the_list(infos(&[3]));
    assert_eq!(list.len(), 3);
    assert_eq!(list.selected(), Some(1));
    assert_eq!(list.activate_position(2), 3);
}

#[test]
fn a_window_is_confirmed_only_once_per_showing() {
    let mut list = WindowList::new();
    list.fill_the_list(infos(&[7, 8, 9]));
    assert_eq!(list.activate_selected(), Some(7));
    assert_eq!(list.activate_selected(), None);
    list.advance_the_selection(Direction::Forward);
    assert_eq!(list.activate_selected(), None);
    assert!(!list.is_activation_pending());
    list.clear_the_list();
    list.fill_the_list(infos(&[7, 8, 9]));
    assert_eq!(list.activate_selected(), Some(7));
}
