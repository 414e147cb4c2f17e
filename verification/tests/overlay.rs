use niri_switch::overlay::{
    arrange_windows, change_focused_window, handle_daemon_activated, handle_dbus_event, handle_key_pressed,
    handle_key_released, handle_modifiers_changed, handle_previous_selection, load_windows,
    update_window_cache, DaemonStep, DbusEvent, Key, ModifierState,
};
use niri_switch::window_cache::{sort_windows_by_cached_order, WindowCache};
use niri_switch::window_list::{WindowInfo, WindowList};
use niri_switch::windows::{app_lookup_key, window_info_for, AppEntry, WindowRecord};

fn record(id: u64) -> WindowRecord {
    WindowRecord { id, title: Some(format!("title {id}")), app_id: Some(String::from("org.example.App")) }
}

fn records(ids: &[u64]) -> Vec<WindowRecord> {
    ids.iter().map(|&id| record(id)).collect()
}

fn ids_of(windows: &[WindowRecord]) -> Vec<u64> {
    windows.iter().map(|w| w.id).collect()
}

fn shown_list(ids: &[u64]) -> WindowList {
    let mut list = WindowList::new();
    let infos: Vec<WindowInfo> = ids
        .iter()
        .map(|&id| WindowInfo { id, title: String::new(), app_name: String::new(), icon: None })
        .collect();
    list.fill_the_list(infos);
    list
}

fn no_modifier() -> ModifierState {
    ModifierState { alt: false, super_key: false, meta: false, hyper: false }
}

#[test]
fn escape_closes_the_overlay() {
    assert!(handle_key_pressed(Key::Escape));
    assert!(!handle_key_pressed(Key::Tab));
    assert!(!handle_key_pressed(Key::AltL));
    assert!(!handle_key_pressed(Key::Other));
}

#[test]
fn releasing_the_shortcut_confirms() {
    for key in [
        Key::Tab,
        Key::IsoLeftTab,
        Key::AltL,
        Key::AltR,
        Key::SuperL,
        Key::SuperR,
        Key::MetaL,
        Key::MetaR,
        Key::HyperL,
        Key::HyperR,
    ] {
        let mut list = shown_list(&[4, 5]);
        assert_eq!(handle_key_released(key, &mut list), Some(4));
    }
}

#[test]
fn releasing_other_keys_does_nothing() {
    let mut list = WindowList::new();
    assert_eq!(handle_key_released(Key::Other, &mut list), None);
    assert_eq!(handle_key_released(Key::Escape, &mut list), None);
    assert!(!list.is_activation_pending());
}

#[test]
fn releasing_the_shortcut_while_loading_defers_the_confirmation() {
    let mut list = WindowList::new();
    assert_eq!(handle_key_released(Key::AltL, &mut list), None);
    assert!(list.is_activation_pending());
}

#[test]
fn modifier_release_after_hold_confirms_once() {
    let mut list = shown_list(&[4, 5]);
    let mut seen = false;
    assert_eq!(handle_modifiers_changed(no_modifier(), &mut seen, &mut list), None);
    assert!(!seen);
    let held = ModifierState { alt: false, super_key: true, meta: false, hyper: false };
    assert_eq!(handle_modifiers_changed(held, &mut seen, &mut list), None);
    assert!(seen);
    assert_eq!(handle_modifiers_changed(no_modifier(), &mut seen, &mut list), Some(4));
    assert!(!seen);
    assert_eq!(handle_modifiers_changed(no_modifier(), &mut seen, &mut list), None);
}

#[test]
fn every_selector_modifier_counts_as_held() {
    for held in [
        ModifierState { alt: true, super_key: false, meta: false, hyper: false },
        ModifierState { alt: false, super_key: true, meta: false, hyper: false },
        ModifierState { alt: false, super_key: false, meta: true, hyper: false },
        ModifierState { alt: false, super_key: false, meta: false, hyper: true },
    ] {
        let mut list = WindowList::new();
        let mut seen = false;
        handle_modifiers_changed(held, &mut seen, &mut list);
        assert!(seen);
    }
}

#[test]
fn activation_while_hidden_reloads() {
    let mut list = shown_list(&[1, 2, 3]);
    assert_eq!(handle_daemon_activated(&mut list, false), DaemonStep::Reload);
    assert_eq!(list.len(), 0);
    assert_eq!(list.selected(), None);
}

#[test]
fn activation_while_shown_moves_forward() {
    let mut list = shown_list(&[1, 2, 3]);
    assert_eq!(handle_daemon_activated(&mut list, true), DaemonStep::Moved(Some(1)));
    assert_eq!(handle_dbus_event(DbusEvent::Activate, &mut list, true), DaemonStep::Moved(Some(2)));
    assert_eq!(handle_dbus_event(DbusEvent::Activate, &mut list, true), DaemonStep::Moved(Some(0)));
}

#[test]
fn previous_while_shown_moves_back() {
    let mut list = shown_list(&[1, 2, 3]);
    assert_eq!(handle_previous_selection(&mut list, true), DaemonStep::Moved(Some(2)));
    assert_eq!(handle_dbus_event(DbusEvent::Previous, &mut list, true), DaemonStep::Moved(Some(1)));
}

#[test]
fn previous_while_hidden_is_ignored() {
    let mut list = shown_list(&[1, 2, 3]);
    assert_eq!(handle_previous_selection(&mut list, false), DaemonStep::Ignored);
    assert_eq!(handle_dbus_event(DbusEvent::Previous, &mut list, false), DaemonStep::Ignored);
    assert_eq!(list.selected(), Some(0));
    assert_eq!(list.len(), 3);
}

#[test]
fn activation_while_still_loading_is_remembered() {
    let mut list = WindowList::new();
    assert_eq!(handle_dbus_event(DbusEvent::Activate, &mut list, false), DaemonStep::Reload);
    assert_eq!(handle_dbus_event(DbusEvent::Activate, &mut list, true), DaemonStep::Moved(None));
    assert_eq!(list.pending_advances(), 1);
}

#[test]
fn cache_update_keeps_order_and_appends_new_windows() {
    let mut cache = WindowCache::new();
    cache.update_cache(&vec![3, 1, 2]);
    assert_eq!(cache.ids(), &vec![3, 1, 2]);
    cache.update_cache(&vec![2, 5, 3, 5]);
    assert_eq!(cache.ids(), &vec![3, 2, 5]);
    cache.update_cache(&vec![]);
    assert_eq!(cache.ids(), &Vec::<u64>::new());
}

#[test]
fn focusing_moves_a_window_to_the_front() {
    let mut cache = WindowCache::new();
    cache.update_cache(&vec![1, 2, 3]);
    change_focused_window(3, &mut cache);
    assert_eq!(cache.ids(), &vec![3, 1, 2]);
    change_focused_window(9, &mut cache);
    assert_eq!(cache.ids(), &vec![9, 3, 1, 2]);
    cache.move_to_front(9);
    assert_eq!(cache.ids(), &vec![9, 3, 1, 2]);
}

#[test]
fn update_window_cache_uses_the_window_ids() {
    let mut cache = WindowCache::new();
    cache.update_cache(&vec![8, 7]);
    update_window_cache(&records(&[6, 7]), &mut cache);
    assert_eq!(cache.ids(), &vec![7, 6]);
}

#[test]
fn windows_are_sorted_by_cached_order() {
    let mut cache = WindowCache::new();
    cache.update_cache(&vec![30, 10, 20]);
    let sorted = sort_windows_by_cached_order(records(&[10, 20, 30]), &cache);
    assert_eq!(ids_of(&sorted), vec![30, 10, 20]);
}

#[test]
fn sorting_keeps_windows_with_one_id_in_their_order() {
    let mut cache = WindowCache::new();
    cache.update_cache(&vec![2, 1]);
    let mut windows = records(&[1, 2, 1]);
    windows[0].title = Some(String::from("first"));
    windows[2].title = Some(String::from("second"));
    let sorted = sort_windows_by_cached_order(windows, &cache);
    assert_eq!(ids_of(&sorted), vec![2, 1, 1]);
    assert_eq!(sorted[1].title.as_deref(), Some("first"));
    assert_eq!(sorted[2].title.as_deref(), Some("second"));
}

#[test]
fn arranging_swaps_the_two_most_recent_windows() {
    let mut cache = WindowCache::new();
    cache.update_cache(&vec![3, 1, 2]);
    let arranged = arrange_windows(records(&[1, 2, 3, 4]), &mut cache);
    assert_eq!(ids_of(&arranged), vec![1, 3, 2, 4]);
    assert_eq!(cache.ids(), &vec![3, 1, 2, 4]);
}

#[test]
fn arranging_one_window_keeps_it() {
    let mut cache = WindowCache::new();
    let arranged = arrange_windows(records(&[5]), &mut cache);
    assert_eq!(ids_of(&arranged), vec![5]);
    assert_eq!(cache.ids(), &vec![5]);
}

#[test]
fn focused_window_is_shown_second_next_time() {
    let mut cache = WindowCache::new();
    cache.update_cache(&vec![1, 2, 3]);
    change_focused_window(3, &mut cache);
    let arranged = arrange_windows(records(&[1, 2, 3]), &mut cache);
    assert_eq!(arranged[1].id, 3);
    assert_eq!(arranged[0].id, 1);
}

#[test]
fn loading_no_windows_drops_the_deferred_confirmation() {
    let mut list = WindowList::new();
    let mut cache = WindowCache::new();
    cache.update_cache(&vec![1]);
    list.activate_selected();
    assert!(load_windows(Vec::new(), &mut list, &mut cache).is_none());
    assert!(!list.is_activation_pending());
    assert_eq!(cache.ids(), &vec![1]);
}

#[test]
fn loading_windows_arranges_them_and_fill_confirms() {
    let mut list = WindowList::new();
    let mut cache = WindowCache::new();
    cache.update_cache(&vec![2, 1]);
    assert_eq!(handle_dbus_event(DbusEvent::Activate, &mut list, false), DaemonStep::Reload);
    handle_key_released(Key::AltL, &mut list);
    let arranged = load_windows(records(&[1, 2]), &mut list, &mut cache).unwrap();
    assert_eq!(ids_of(&arranged), vec![1, 2]);
    let infos: Vec<WindowInfo> = arranged.iter().map(|w| window_info_for(w, None)).collect();
    assert_eq!(list.fill_the_list(infos), Some(1));
}

#[test]
fn window_info_uses_the_application_entry() {
    let window = record(4);
    let entry = AppEntry { display_name: String::from("Example"), icon: Some(String::from("example-icon")) };
    let info = window_info_for(&window, Some(entry));
    assert_eq!(info.id, 4);
    assert_eq!(info.title, "title 4");
    assert_eq!(info.app_name, "Example");
    assert_eq!(info.icon.as_deref(), Some("example-icon"));
}

#[test]
fn window_info_falls_back_to_the_app_id() {
    let window = record(4);
    let info = window_info_for(&window, None);
    assert_eq!(info.app_name, "org.example.App");
    assert_eq!(info.icon, None);
    let bare = WindowRecord { id: 9, title: None, app_id: None };
    let info = window_info_for(&bare, None);
    assert_eq!(info.title, "");
    assert_eq!(info.app_name, "");
    assert_eq!(app_lookup_key(&bare), "");
    assert_eq!(app_lookup_key(&window), "org.example.App");
}

#[test]
fn key_release_and_modifier_release_commit_once() {
    let mut list = shown_list(&[4, 5]);
    let mut seen = false;
    let held = ModifierState { alt: true, super_key: false, meta: false, hyper: false };
    handle_modifiers_changed(held, &mut seen, &mut list);
    assert_eq!(handle_key_released(Key::AltL, &mut list), Some(4));
    assert_eq!(handle_modifiers_changed(no_modifier(), &mut seen, &mut list), None);
    assert!(!seen);
}
