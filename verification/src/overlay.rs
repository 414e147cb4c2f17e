//! The overlay's reactions to keys, modifier changes, requests from the
//! switcher client and the windows the compositor reports.
//!
//! Each function takes the event and the state it concerns and returns what
//! the caller has to do: close the overlay, scroll to a position, tell the
//! compositor to focus a window, or load the windows.

use vstd::prelude::*;
use crate::selection::{Direction, next_position};
use crate::window_list::WindowList;
use crate::window_cache::{
    WindowCache,
    updated_order,
    window_ids,
    in_cached_order,
    swap_first_two,
    sort_windows_by_cached_order,
    lemma_update_holds_open_windows,
    lemma_cached_order_is_permutation,
    lemma_swap_first_two_is_permutation,
    lemma_move_to_front_puts_first,
    moved_to_front,
    occurs_in,
    has_id,
    other_than,
};
use crate::windows::WindowRecord;

verus! {

/// The keys the overlay reacts to; every other key is `Other`.
#[derive(Clone, Copy, Debug, PartialEq, Eq, Structural)]
pub enum Key {
    Escape,
    Tab,
    IsoLeftTab,
    AltL,
    AltR,
    SuperL,
    SuperR,
    MetaL,
    MetaR,
    HyperL,
    HyperR,
    Other,
}

/// Pressing this key closes the overlay.
pub open spec fn closes_overlay(key: Key) -> bool {
    key == Key::Escape
}

/// Releasing this key, the shortcut key or one of its modifiers, confirms the
/// selection.
pub open spec fn confirms_selection(key: Key) -> bool {
    match key {
        Key::Escape | Key::Other => false,
        _ => true,
    }
}

/// Handle a key press: returns whether the overlay is to be closed.
pub fn handle_key_pressed(key: Key) -> (close: bool)
    ensures
        close == closes_overlay(key),
        close <==> key == Key::Escape,
{
    key == Key::Escape
}

/// Only Escape closes the overlay: no other key does, and in particular no
/// key that confirms the selection.
pub proof fn lemma_only_escape_closes(key: Key)
    ensures
        closes_overlay(key) <==> key == Key::Escape,
        confirms_selection(key) ==> !closes_overlay(key),
        closes_overlay(key) ==> !confirms_selection(key),
        confirms_selection(key) <==> key != Key::Escape && key != Key::Other,
{
}

/// Confirm the current selection when the shortcut key or its modifier is
/// released. Returns the id of the window that is chosen.
///
/// The compositor consumes the Tab event used by its global binding, so the
/// overlay cannot rely on receiving that release; the release of the modifier
/// is still delivered once the overlay has keyboard focus.
pub fn handle_key_released(key: Key, list: &mut WindowList) -> (chosen: Option<u64>)
    requires
        old(list)@.consistent(),
    ensures
        final(list)@.consistent(),
        confirms_selection(key) ==> final(list)@ == old(list)@.activate()
            && chosen == old(list)@.confirmation(),
        !confirms_selection(key) ==> final(list)@ == old(list)@ && chosen is None,
{
    let confirms = match key {
        Key::Escape | Key::Other => false,
        _ => true,
    };
    if confirms {
        list.activate_selected()
    } else {
        None
    }
}

/// Which of the modifiers that hold the switcher open are down.
#[derive(Clone, Copy, Debug, PartialEq, Eq, Structural)]
pub struct ModifierState {
    pub alt: bool,
    pub super_key: bool,
    pub meta: bool,
    pub hyper: bool,
}

/// Some modifier that holds the switcher open is down.
pub open spec fn selector_held(state: ModifierState) -> bool {
    state.alt || state.super_key || state.meta || state.hyper
}

/// What a change of the modifier state does, given whether a held modifier
/// was seen before: the new value of that flag, and whether the selection is
/// confirmed.
pub open spec fn modifier_step(seen: bool, state: ModifierState) -> (bool, bool) {
    if selector_held(state) {
        (true, false)
    } else {
        (false, seen)
    }
}

/// Confirm when the held Alt/Super/Meta/Hyper modifier disappears from the
/// modifier state. Returns the id of the window that is chosen.
pub fn handle_modifiers_changed(
    state: ModifierState,
    modifier_seen: &mut bool,
    list: &mut WindowList,
) -> (chosen: Option<u64>)
    requires
        old(list)@.consistent(),
    ensures
        final(list)@.consistent(),
        *final(modifier_seen) == modifier_step(*old(modifier_seen), state).0,
        state.alt || state.super_key || state.meta || state.hyper ==> *final(modifier_seen)
            && chosen is None && final(list)@ == old(list)@,
        !(state.alt || state.super_key || state.meta || state.hyper) ==> !*final(modifier_seen),
        modifier_step(*old(modifier_seen), state).1 ==> final(list)@ == old(list)@.activate()
            && chosen == old(list)@.confirmation(),
        !modifier_step(*old(modifier_seen), state).1 ==> final(list)@ == old(list)@ && chosen is None,
{
    if state.alt || state.super_key || state.meta || state.hyper {
        *modifier_seen = true;
        None
    } else if *modifier_seen {
        *modifier_seen = false;
        list.activate_selected()
    } else {
        None
    }
}

/// A state with any of Alt, Super, Meta or Hyper down counts as held: it never
/// confirms and marks the modifier as seen, and holding a further modifier
/// keeps a held state held. A state with none of them down never marks the
/// modifier as seen, and confirms exactly when a held state was seen before.
pub proof fn lemma_any_selector_modifier_holds(seen: bool, state: ModifierState, more: ModifierState)
    ensures
        (state.alt || state.super_key || state.meta || state.hyper) ==> modifier_step(seen, state) == (
        true, false),
        !(state.alt || state.super_key || state.meta || state.hyper) ==> modifier_step(seen, state) == (
        false, seen),
        selector_held(state) ==> selector_held(
            ModifierState {
                alt: state.alt || more.alt,
                super_key: state.super_key || more.super_key,
                meta: state.meta || more.meta,
                hyper: state.hyper || more.hyper,
            },
        ),
{
}

/// Releasing the held modifier confirms at most once: a second release
/// without the modifier being held again in between confirms nothing, and a
/// state in which the modifier is held never confirms.
pub proof fn lemma_release_confirms_once(seen: bool, first: ModifierState, second: ModifierState)
    requires
        !selector_held(first),
        !selector_held(second),
    ensures
        !modifier_step(modifier_step(seen, first).0, second).1,
        forall|held: ModifierState, s: bool| selector_held(held) ==> !(#[trigger] modifier_step(s, held)).1,
        modifier_step(modifier_step(seen, ModifierState { alt: true, super_key: false, meta: false, hyper: false }).0, first).1,
{
}

/// A request from the switcher client.
#[derive(Clone, Copy, Debug, PartialEq, Eq, Structural)]
pub enum DbusEvent {
    /// The switcher shortcut was pressed.
    Activate,
    /// The shortcut for the previous window was pressed.
    Previous,
}

/// What the caller does after a request from the switcher client.
#[derive(Clone, Copy, Debug, PartialEq, Eq, Structural)]
pub enum DaemonStep {
    /// The selection moved: scroll to the new position, if there is one.
    Moved(Option<u32>),
    /// Nothing to do.
    Ignored,
    /// The list was emptied: show the overlay, focus the list, then load the
    /// windows from the compositor and hand them to `load_windows`.
    Reload,
}

/// Handle selecting the previous window: only a shown overlay moves its
/// selection back.
pub fn handle_previous_selection(list: &mut WindowList, overlay_visible: bool) -> (step: DaemonStep)
    requires
        old(list)@.consistent(),
    ensures
        final(list)@.consistent(),
        overlay_visible ==> final(list)@ == old(list)@.advance(Direction::Backward) && step
            == DaemonStep::Moved(
            next_position(old(list)@.selected, old(list)@.item_count(), Direction::Backward),
        ),
        !overlay_visible ==> final(list)@ == old(list)@ && step == DaemonStep::Ignored,
{
    if overlay_visible {
        DaemonStep::Moved(list.advance_the_selection(Direction::Backward))
    } else {
        DaemonStep::Ignored
    }
}

/// Handle a request to activate the switcher: a shown overlay moves its
/// selection forward; otherwise the list is emptied and is to be reloaded,
/// since the windows might have changed since the last time.
pub fn handle_daemon_activated(list: &mut WindowList, overlay_visible: bool) -> (step: DaemonStep)
    requires
        old(list)@.consistent(),
    ensures
        final(list)@.consistent(),
        overlay_visible ==> final(list)@ == old(list)@.advance(Direction::Forward) && step
            == DaemonStep::Moved(
            next_position(old(list)@.selected, old(list)@.item_count(), Direction::Forward),
        ),
        !overlay_visible ==> final(list)@ == old(list)@.clear() && step == DaemonStep::Reload,
{
    if overlay_visible {
        DaemonStep::Moved(list.advance_the_selection(Direction::Forward))
    } else {
        list.clear_the_list();
        DaemonStep::Reload
    }
}

/// Handle a request from the switcher client.
pub fn handle_dbus_event(event: DbusEvent, list: &mut WindowList, overlay_visible: bool) -> (step: DaemonStep)
    requires
        old(list)@.consistent(),
    ensures
        final(list)@.consistent(),
        event == DbusEvent::Activate && overlay_visible ==> final(list)@ == old(list)@.advance(
            Direction::Forward,
        ),
        event == DbusEvent::Previous && overlay_visible ==> final(list)@ == old(list)@.advance(
            Direction::Backward,
        ),
        event == DbusEvent::Activate && !overlay_visible ==> final(list)@ == old(list)@.clear() && step
            == DaemonStep::Reload,
        event == DbusEvent::Previous && !overlay_visible ==> final(list)@ == old(list)@ && step
            == DaemonStep::Ignored,
        overlay_visible ==> step == DaemonStep::Moved(
            next_position(
                old(list)@.selected,
                old(list)@.item_count(),
                if event == DbusEvent::Activate {
                    Direction::Forward
                } else {
                    Direction::Backward
                },
            ),
        ),
{
    match event {
        DbusEvent::Activate => handle_daemon_activated(list, overlay_visible),
        DbusEvent::Previous => handle_previous_selection(list, overlay_visible),
    }
}

/// Updates the cached window order with the windows that are open now.
pub fn update_window_cache(windows: &Vec<WindowRecord>, cache: &mut WindowCache)
    ensures
        final(cache)@ == updated_order(old(cache)@, window_ids(windows@)),
{
    let mut ids: Vec<u64> = Vec::new();
    let mut i: usize = 0;
    while i < windows.len()
        invariant
            i <= windows@.len(),
            ids@ == window_ids(windows@.take(i as int)),
        decreases windows@.len() - i,
    {
        ids.push(windows[i].id);
        assert(window_ids(windows@.take(i + 1)) =~= window_ids(windows@.take(i as int)).push(
            windows@[i as int].id,
        ));
        i = i + 1;
    }
    assert(windows@.take(windows@.len() as int) =~= windows@);
    cache.update_cache(&ids);
}

/// The order in which the overlay shows the open windows: most recently
/// focused first, except that the two most recent windows change places, so
/// that the first window shown is the one to switch to.
pub open spec fn display_order(cached: Seq<u64>, windows: Seq<WindowRecord>) -> Seq<WindowRecord> {
    swap_first_two(in_cached_order(updated_order(cached, window_ids(windows)), windows))
}

/// Bring the cache up to date with the open windows and put them in the order
/// in which the overlay shows them.
pub fn arrange_windows(windows: Vec<WindowRecord>, cache: &mut WindowCache) -> (arranged: Vec<
    WindowRecord,
>)
    ensures
        final(cache)@ == updated_order(old(cache)@, window_ids(windows@)),
        arranged@ == display_order(old(cache)@, windows@),
        arranged@.len() == windows@.len(),
        windows@.len() > 1 ==> arranged@[0] == in_cached_order(final(cache)@, windows@)[1]
            && arranged@[1] == in_cached_order(final(cache)@, windows@)[0],
        forall|i: int|
            2 <= i < windows@.len() ==> arranged@[i] == in_cached_order(final(cache)@, windows@)[i],
{
    proof {
        lemma_display_swaps_first_two(old(cache)@, windows@);
    }
    update_window_cache(&windows, cache);
    proof {
        lemma_update_holds_open_windows(old(cache)@, window_ids(windows@));
        assert forall|i: int| 0 <= i < windows@.len() implies cache@.contains(
            #[trigger] windows@[i].id,
        ) by {
            assert(window_ids(windows@)[i] == windows@[i].id);
            assert(window_ids(windows@).contains(windows@[i].id));
            assert(updated_order(old(cache)@, window_ids(windows@)).contains(windows@[i].id));
        }
    }
    let mut sorted = sort_windows_by_cached_order(windows, cache);
    if sorted.len() > 1 {
        let second = sorted.remove(1);
        sorted.insert(0, second);
    }
    let ghost s = in_cached_order(cache@, windows@);
    assert(sorted@ =~= swap_first_two(s));
    sorted
}

/// What to do with the windows loaded from the compositor: with no window
/// there is nothing to show, a deferred confirmation is dropped and the
/// overlay is closed (`None`); otherwise the cache is updated and the windows
/// come back in display order, to be described and handed to
/// `WindowList::fill_the_list`.
pub fn load_windows(
    windows: Vec<WindowRecord>,
    list: &mut WindowList,
    cache: &mut WindowCache,
) -> (arranged: Option<Vec<WindowRecord>>)
    requires
        old(list)@.consistent(),
    ensures
        final(list)@.consistent(),
        windows@.len() == 0 ==> arranged is None && final(list)@ == old(list)@.cancel()
            && final(cache)@ == old(cache)@,
        windows@.len() > 0 ==> (arranged matches Some(a) && a@ == display_order(old(cache)@, windows@))
            && final(list)@ == old(list)@
            && final(cache)@ == updated_order(old(cache)@, window_ids(windows@)),
{
    if windows.len() == 0 {
        list.cancel_pending_activation();
        None
    } else {
        Some(arrange_windows(windows, cache))
    }
}

/// Move focus to the chosen window: it becomes the most recently used one.
/// The caller then asks the compositor to focus it.
pub fn change_focused_window(window_id: u64, cache: &mut WindowCache)
    ensures
        final(cache)@ == moved_to_front(old(cache)@, window_id),
{
    cache.move_to_front(window_id);
}

/// Every window the compositor reports is shown exactly once.
pub proof fn lemma_display_order_shows_every_window(cached: Seq<u64>, windows: Seq<WindowRecord>)
    ensures
        display_order(cached, windows).to_multiset() == windows.to_multiset(),
        display_order(cached, windows).len() == windows.len(),
{
    let ids = window_ids(windows);
    let order = updated_order(cached, ids);
    lemma_update_holds_open_windows(cached, ids);
    assert forall|i: int| 0 <= i < windows.len() implies order.contains(#[trigger] windows[i].id) by {
        assert(ids[i] == windows[i].id);
        assert(ids.contains(windows[i].id));
    }
    lemma_cached_order_is_permutation(order, windows);
    lemma_swap_first_two_is_permutation(in_cached_order(order, windows));
    broadcast use vstd::seq_lib::group_to_multiset_ensures;
    assert(display_order(cached, windows).to_multiset().len() == display_order(cached, windows).len());
    assert(windows.to_multiset().len() == windows.len());
}

/// With more than one window, whatever the cache held before, the shown order
/// is the cached order with its first two windows exchanged and every other
/// window in its place; with one window or none it is the cached order.
pub proof fn lemma_display_swaps_first_two(cached: Seq<u64>, windows: Seq<WindowRecord>)
    ensures
        ({
            let sorted = in_cached_order(updated_order(cached, window_ids(windows)), windows);
            let shown = display_order(cached, windows);
            &&& sorted.len() == windows.len()
            &&& shown.len() == windows.len()
            &&& windows.len() > 1 ==> shown[0] == sorted[1] && shown[1] == sorted[0]
            &&& forall|i: int| 2 <= i < windows.len() ==> shown[i] == sorted[i]
            &&& windows.len() <= 1 ==> shown == sorted
        }),
{
    lemma_display_order_shows_every_window(cached, windows);
}

/// The window focused last is shown second the next time the overlay opens,
/// right after the window to switch to, as long as it is still open and at
/// least two windows are open.
pub proof fn lemma_focused_window_is_shown_second(
    cached: Seq<u64>,
    id: u64,
    windows: Seq<WindowRecord>,
    k: int,
)
    requires
        0 <= k < windows.len(),
        windows[k].id == id,
        windows.len() > 1,
    ensures
        display_order(moved_to_front(cached, id), windows)[1].id == id,
{
    let ids = window_ids(windows);
    let front = moved_to_front(cached, id);
    let order = updated_order(front, ids);
    lemma_display_order_shows_every_window(front, windows);
    assert(ids[k] == id);
    assert(ids.contains(id));
    let kept = front.filter(occurs_in(ids));
    lemma_move_to_front_puts_first(cached, id);
    assert(front =~= seq![id] + cached.filter(other_than(id)));
    Seq::filter_distributes_over_add(seq![id], cached.filter(other_than(id)), occurs_in(ids));
    reveal_with_fuel(Seq::<_>::filter, 2);
    assert(seq![id].drop_last() =~= Seq::<u64>::empty());
    assert(seq![id].filter(occurs_in(ids)) =~= seq![id]);
    assert(kept =~= seq![id] + cached.filter(other_than(id)).filter(occurs_in(ids)));
    assert(kept.len() > 0 && kept[0] == id);
    lemma_update_holds_open_windows(front, ids);
    assert(order.subrange(0, kept.len() as int)[0] == order[0]);
    assert(order[0] == id);
    let group = windows.filter(has_id(id));
    windows.lemma_filter_contains(has_id(id), k);
    assert(group.len() > 0);
    group.lemma_filter_pred(has_id(id), 0);
    windows.lemma_filter_pred(has_id(id), 0);
    let sorted = in_cached_order(order, windows);
    assert(sorted[0] == group[0]);
}

} // verus!
