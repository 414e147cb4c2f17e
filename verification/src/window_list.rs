//! The list of windows shown by the overlay, with its selection and the
//! confirmations and shortcut presses that wait for the list to load.

use vstd::prelude::*;
use crate::selection::{Direction, next_position, next_selection, advance_times};

verus! {

/// The position that stands for "nothing is selected".
pub const INVALID_LIST_POSITION: u32 = 0xffff_ffffu32;

/// What the overlay shows for one window.
#[derive(Debug)]
pub struct WindowInfo {
    /// The compositor's id of the window.
    pub id: u64,
    /// The window's title, empty when it has none.
    pub title: String,
    /// The name shown for the application that owns the window.
    pub app_name: String,
    /// The application's icon in its textual form, when it has one.
    pub icon: Option<String>,
}

/// The state of a window list as a mathematical value.
pub struct ListState {
    /// The windows in the order in which they are shown.
    pub windows: Seq<WindowInfo>,
    /// The selected position, or `INVALID_LIST_POSITION`.
    pub selected: u32,
    /// A confirmation arrived while no window could be selected.
    pub activation_pending: bool,
    /// A window of this showing of the list was already confirmed.
    pub activation_committed: bool,
    /// Moves of the selection that arrived while the list was empty:
    /// positive counts forward moves, negative backward ones.
    pub pending_advances: int,
}

/// The move of the remembered shortcut presses.
pub open spec fn replay_direction(pending: int) -> Direction {
    if pending < 0 {
        Direction::Backward
    } else {
        Direction::Forward
    }
}

/// The number of remembered shortcut presses.
pub open spec fn replay_count(pending: int) -> nat {
    if pending < 0 {
        (-pending) as nat
    } else {
        pending as nat
    }
}

/// One press in `direction`, as a signed count.
pub open spec fn press(direction: Direction) -> int {
    match direction {
        Direction::Forward => 1,
        Direction::Backward => -1,
    }
}

/// `x` clamped to the range of `i32`.
pub open spec fn saturate_i32(x: int) -> int {
    if x > i32::MAX {
        i32::MAX as int
    } else if x < i32::MIN {
        i32::MIN as int
    } else {
        x
    }
}

impl ListState {
    /// The state of a newly made list.
    pub open spec fn empty_list() -> ListState {
        ListState {
            windows: Seq::empty(),
            selected: INVALID_LIST_POSITION,
            activation_pending: false,
            activation_committed: false,
            pending_advances: 0,
        }
    }

    /// The selection lies inside the list, or the list is empty and nothing is
    /// selected; positions fit in `u32` and the remembered presses in `i32`.
    pub open spec fn consistent(self) -> bool {
        &&& self.windows.len() <= u32::MAX
        &&& if self.windows.len() == 0 {
            self.selected == INVALID_LIST_POSITION
        } else {
            self.selected < self.windows.len()
        }
        &&& i32::MIN <= self.pending_advances <= i32::MAX
        &&& self.activation_committed ==> self.windows.len() > 0 && !self.activation_pending
    }

    pub open spec fn item_count(self) -> u32 {
        self.windows.len() as u32
    }

    /// The id of the selected window, if a window is selected.
    pub open spec fn selected_id(self) -> Option<u64> {
        if self.selected < self.windows.len() {
            Some(self.windows[self.selected as int].id)
        } else {
            None
        }
    }

    /// The window that confirming the selection chooses: the selected one,
    /// unless a window of this showing was already confirmed.
    pub open spec fn confirmation(self) -> Option<u64> {
        if self.activation_committed {
            None
        } else {
            self.selected_id()
        }
    }

    /// Confirming the selection: with a selected window the confirmation is
    /// done and recorded, without one it is remembered; after a window was
    /// confirmed, further confirmations change nothing.
    pub open spec fn activate(self) -> ListState {
        if self.activation_committed {
            self
        } else {
            ListState {
                activation_pending: !(self.selected < self.windows.len()),
                activation_committed: self.selected < self.windows.len(),
                ..self
            }
        }
    }

    /// One move of the selection; without any window to move to, the move is
    /// remembered instead.
    pub open spec fn advance(self, direction: Direction) -> ListState {
        match next_position(self.selected, self.item_count(), direction) {
            Some(p) => ListState { selected: p, ..self },
            None => ListState {
                pending_advances: saturate_i32(self.pending_advances + press(direction)),
                ..self
            },
        }
    }

    /// The empty list, with nothing selected, remembered or confirmed.
    pub open spec fn clear(self) -> ListState {
        ListState::empty_list()
    }

    /// Forgetting a remembered confirmation.
    pub open spec fn cancel(self) -> ListState {
        ListState { activation_pending: false, ..self }
    }

    /// Appending windows; a list that had no selection selects its first item.
    pub open spec fn append_windows(self, added: Seq<WindowInfo>) -> ListState {
        let windows = self.windows + added;
        ListState {
            windows,
            selected: if windows.len() > 0 && !(self.selected < self.windows.len()) {
                0u32
            } else {
                self.selected
            },
            ..self
        }
    }

    /// Replaying the remembered moves: in a non-empty list they move the
    /// selection and are forgotten; in an empty list they stay remembered.
    pub open spec fn replay(self) -> ListState {
        if self.windows.len() > 0 {
            ListState {
                selected: advance_times(
                    self.selected,
                    self.item_count(),
                    replay_direction(self.pending_advances),
                    replay_count(self.pending_advances),
                ),
                pending_advances: 0,
                ..self
            }
        } else {
            self
        }
    }

    /// The list after appending and replaying, with the remembered
    /// confirmation taken out.
    pub open spec fn filled(self, added: Seq<WindowInfo>) -> ListState {
        ListState { activation_pending: false, ..self.append_windows(added).replay() }
    }

    /// Filling the list: append, replay the remembered moves, then carry out a
    /// remembered confirmation.
    pub open spec fn fill(self, added: Seq<WindowInfo>) -> ListState {
        if self.activation_pending {
            self.filled(added).activate()
        } else {
            self.filled(added)
        }
    }

    /// The window that filling the list confirms, if any.
    pub open spec fn fill_confirms(self, added: Seq<WindowInfo>) -> Option<u64> {
        if self.activation_pending {
            self.filled(added).confirmation()
        } else {
            None
        }
    }
}

/// The overlay's list of windows.
pub struct WindowList {
    windows: Vec<WindowInfo>,
    selected: u32,
    activation_pending: bool,
    activation_committed: bool,
    pending_advances: i32,
}

impl View for WindowList {
    type V = ListState;

    closed spec fn view(&self) -> ListState {
        ListState {
            windows: self.windows@,
            selected: self.selected,
            activation_pending: self.activation_pending,
            activation_committed: self.activation_committed,
            pending_advances: self.pending_advances as int,
        }
    }
}

/// `pending` moved by one press in `direction`, saturating at the bounds of `i32`.
fn saturating_press(pending: i32, direction: Direction) -> (r: i32)
    ensures
        r == saturate_i32(pending + press(direction)),
{
    match direction {
        Direction::Forward => {
            if pending == i32::MAX {
                pending
            } else {
                pending + 1
            }
        },
        Direction::Backward => {
            if pending == i32::MIN {
                pending
            } else {
                pending - 1
            }
        },
    }
}

impl WindowList {
    /// An empty list with nothing selected.
    pub fn new() -> (list: WindowList)
        ensures
            list@ == ListState::empty_list(),
            list@.consistent(),
    {
        WindowList {
            windows: Vec::new(),
            selected: INVALID_LIST_POSITION,
            activation_pending: false,
            activation_committed: false,
            pending_advances: 0,
        }
    }

    /// Moves the current selection one step in the given direction.
    /// If the new position goes past the end or before the beginning, the
    /// selection wraps around. Returns the new position, which the caller
    /// scrolls to; with an empty list the move is remembered for later.
    pub fn advance_the_selection(&mut self, direction: Direction) -> (moved: Option<u32>)
        requires
            old(self)@.consistent(),
        ensures
            final(self)@ == old(self)@.advance(direction),
            final(self)@.consistent(),
            moved == next_position(old(self)@.selected, old(self)@.item_count(), direction),
    {
        let n = self.windows.len() as u32;
        let moved = next_selection(self.selected, n, direction);
        proof {
            crate::selection::lemma_next_stays_in_list(self.selected, n, direction);
        }
        match moved {
            Some(p) => {
                self.selected = p;
            },
            None => {
                self.pending_advances = saturating_press(self.pending_advances, direction);
            },
        }
        moved
    }

    /// Activate the currently highlighted window. Returns the id of the window
    /// that is chosen; when no window is selected yet, the activation is
    /// deferred until `fill_the_list` has produced a selection. Once a window
    /// was chosen, further activations choose nothing until the list is
    /// cleared, so that the key-release and modifier-state callbacks do not
    /// commit the same selection twice.
    pub fn activate_selected(&mut self) -> (chosen: Option<u64>)
        requires
            old(self)@.consistent(),
        ensures
            final(self)@ == old(self)@.activate(),
            final(self)@.consistent(),
            chosen == old(self)@.confirmation(),
    {
        if self.activation_committed {
            None
        } else if (self.selected as usize) < self.windows.len() {
            self.activation_pending = false;
            self.activation_committed = true;
            Some(self.windows[self.selected as usize].id)
        } else {
            self.activation_pending = true;
            None
        }
    }
}

impl WindowList {
    /// Remove all the windows from the list, and forget any remembered
    /// confirmation and shortcut presses and any confirmed window.
    pub fn clear_the_list(&mut self)
        ensures
            final(self)@ == old(self)@.clear(),
            final(self)@.consistent(),
    {
        self.windows = Vec::new();
        self.selected = INVALID_LIST_POSITION;
        self.activation_pending = false;
        self.activation_committed = false;
        self.pending_advances = 0;
    }

    /// Drop a deferred activation when loading resulted in an empty window list.
    pub fn cancel_pending_activation(&mut self)
        requires
            old(self)@.consistent(),
        ensures
            final(self)@ == old(self)@.cancel(),
            final(self)@.consistent(),
    {
        self.activation_pending = false;
    }

    /// The id of the window at `position`, chosen with pointer input or Enter.
    pub fn activate_position(&self, position: u32) -> (chosen: u64)
        requires
            position < self@.windows.len(),
        ensures
            chosen == self@.windows[position as int].id,
    {
        self.windows[position as usize].id
    }

    /// Append the given windows to the list, then replay the shortcut presses
    /// that arrived while the list was empty, then carry out a confirmation
    /// that arrived before any window could be selected. Returns the id of the
    /// window that this confirmation chooses.
    pub fn fill_the_list(&mut self, windows: Vec<WindowInfo>) -> (chosen: Option<u64>)
        requires
            old(self)@.consistent(),
            old(self)@.windows.len() + windows@.len() <= u32::MAX,
        ensures
            final(self)@ == old(self)@.fill(windows@),
            final(self)@.consistent(),
            chosen == old(self)@.fill_confirms(windows@),
    {
        let ghost before = self@;
        let ghost added = windows@;
        let mut windows = windows;
        let had_selection = (self.selected as usize) < self.windows.len();
        self.windows.append(&mut windows);
        if !had_selection && self.windows.len() > 0 {
            self.selected = 0;
        }
        let ghost appended = self@;
        assert(appended == before.append_windows(added));

        let pending = self.pending_advances;
        self.pending_advances = 0;
        let direction = if pending < 0 {
            Direction::Backward
        } else {
            Direction::Forward
        };
        let count: u32 = if pending < 0 {
            (0i64 - pending as i64) as u32
        } else {
            pending as u32
        };
        let n = self.windows.len() as u32;
        let mut i: u32 = 0;
        while i < count
            invariant
                0 <= i <= count,
                count == replay_count(pending as int),
                direction == replay_direction(pending as int),
                n == appended.windows.len(),
                pending as int == appended.pending_advances,
                self@.windows == appended.windows,
                self@.activation_pending == appended.activation_pending,
                self@.activation_committed == appended.activation_committed,
                self@.consistent(),
                n > 0 ==> self@.selected == advance_times(appended.selected, n, direction, i as nat)
                    && self@.pending_advances == 0,
                n == 0 ==> self@.selected == appended.selected
                    && self@.pending_advances == match direction {
                        Direction::Forward => i as int,
                        Direction::Backward => -(i as int),
                    },
            decreases count - i,
        {
            self.advance_the_selection(direction);
            i = i + 1;
        }
        assert(self@ == appended.replay());

        if self.activation_pending {
            self.activation_pending = false;
            self.activate_selected()
        } else {
            None
        }
    }
}

impl WindowList {
    /// The number of windows in the list.
    pub fn len(&self) -> (n: usize)
        ensures
            n == self@.windows.len(),
    {
        self.windows.len()
    }

    /// The selected position, if a window is selected.
    pub fn selected(&self) -> (position: Option<u32>)
        ensures
            position == (if self@.selected < self@.windows.len() {
                Some(self@.selected)
            } else {
                None::<u32>
            }),
    {
        if (self.selected as usize) < self.windows.len() {
            Some(self.selected)
        } else {
            None
        }
    }

    /// Whether a confirmation waits for a window to be selected.
    pub fn is_activation_pending(&self) -> (pending: bool)
        ensures
            pending == self@.activation_pending,
    {
        self.activation_pending
    }

    /// The shortcut presses that wait for windows to move through: positive
    /// for forward moves, negative for backward ones.
    pub fn pending_advances(&self) -> (pending: i32)
        ensures
            pending == self@.pending_advances,
    {
        self.pending_advances
    }
}

impl Default for WindowList {
    fn default() -> (list: WindowList)
        ensures
            list@ == ListState::empty_list(),
    {
        WindowList::new()
    }
}


/// The state after `presses` moves of the selection in `direction`.
pub open spec fn advance_repeat(state: ListState, direction: Direction, presses: nat) -> ListState
    decreases presses,
{
    if presses == 0 {
        state
    } else {
        advance_repeat(state, direction, (presses - 1) as nat).advance(direction)
    }
}

/// A confirmation that arrives while the list is still being loaded is carried
/// out as soon as the list is filled: it chooses the first window, and nothing
/// stays pending.
pub proof fn lemma_deferred_confirmation_fires(state: ListState, added: Seq<WindowInfo>)
    requires
        added.len() > 0,
        added.len() <= u32::MAX,
    ensures
        state.clear().activate().fill_confirms(added) == Some(added[0].id),
        !state.clear().activate().fill(added).activation_pending,
{
    let loading = state.clear().activate();
    assert(loading.windows + added =~= added);
    let filled = loading.append_windows(added);
    assert(filled.selected == 0);
    assert(advance_times(0, filled.item_count(), Direction::Forward, 0) == 0);
}

/// A confirmation that was dropped is not carried out when the list is filled.
pub proof fn lemma_cancelled_confirmation_stays_dropped(state: ListState, added: Seq<WindowInfo>)
    ensures
        state.cancel().fill_confirms(added) is None,
        !state.cancel().fill(added).activation_pending,
{
}

/// A window is confirmed at most once per showing of the list: once a
/// confirmation chose a window, no later confirmation chooses one, whatever
/// moves and fills come between, until the list is cleared.
pub proof fn lemma_confirms_at_most_once(state: ListState, direction: Direction, added: Seq<WindowInfo>)
    requires
        state.confirmation() is Some,
    ensures
        state.activate().activation_committed,
        state.activate().confirmation() is None,
        state.activate().activate() == state.activate(),
        state.activate().advance(direction).activation_committed,
        state.activate().fill(added).activation_committed,
        state.activate().fill_confirms(added) is None,
        state.activate().clear().activate().confirmation() is None,
        !state.activate().clear().activation_committed,
{
}

/// Shortcut presses that arrive while the list is still being loaded are kept
/// and replayed once the list is filled: the selection lands where the same
/// presses would have moved it from the first window.
pub proof fn lemma_presses_while_loading_are_replayed(
    state: ListState,
    direction: Direction,
    presses: nat,
    added: Seq<WindowInfo>,
)
    requires
        presses <= i32::MAX,
        0 < added.len() <= u32::MAX,
    ensures
        advance_repeat(state.clear(), direction, presses).fill(added).selected
            == advance_times(0, added.len() as u32, direction, presses),
        advance_repeat(state.clear(), direction, presses).fill(added).pending_advances == 0,
{
    lemma_presses_on_empty_list_are_counted(state, direction, presses);
    let loading = advance_repeat(state.clear(), direction, presses);
    assert(loading.windows + added =~= added);
    if presses == 0 {
        assert(advance_times(0, added.len() as u32, Direction::Forward, 0) == 0);
        assert(advance_times(0, added.len() as u32, direction, 0) == 0);
    } else {
        match direction {
            Direction::Forward => {},
            Direction::Backward => {},
        }
    }
}

/// Presses on an empty list are counted up to the bounds of `i32` and stay
/// there: a further press beyond a bound changes nothing.
pub proof fn lemma_presses_saturate(state: ListState)
    requires
        state.windows.len() == 0,
    ensures
        state.pending_advances == i32::MAX ==> state.advance(Direction::Forward).pending_advances == i32::MAX,
        state.pending_advances == i32::MIN ==> state.advance(Direction::Backward).pending_advances == i32::MIN,
        i32::MIN < state.pending_advances < i32::MAX ==> state.advance(Direction::Forward).pending_advances
            == state.pending_advances + 1 && state.advance(Direction::Backward).pending_advances
            == state.pending_advances - 1,
        state.advance(Direction::Forward).selected == state.selected,
{
}

/// Moves of the selection in an empty list are counted, up to the bounds of `i32`.
proof fn lemma_presses_on_empty_list_are_counted(state: ListState, direction: Direction, presses: nat)
    requires
        presses <= i32::MAX,
    ensures
        advance_repeat(state.clear(), direction, presses).windows.len() == 0,
        advance_repeat(state.clear(), direction, presses).selected == INVALID_LIST_POSITION,
        !advance_repeat(state.clear(), direction, presses).activation_pending,
        advance_repeat(state.clear(), direction, presses).pending_advances == match direction {
            Direction::Forward => presses as int,
            Direction::Backward => -presses,
        },
    decreases presses,
{
    if presses > 0 {
        lemma_presses_on_empty_list_are_counted(state, direction, (presses - 1) as nat);
    }
}

} // verus!
