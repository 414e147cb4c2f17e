//! Moving a selection through a list with wrap-around at both ends.

use vstd::prelude::*;

verus! {

/// The way a selection moves through the list.
#[derive(Clone, Copy, Debug, PartialEq, Eq, Structural)]
pub enum Direction {
    Forward,
    Backward,
}

/// The position that follows `selected` in a list of `item_count` items.
///
/// An empty list has no position. A selection that lies outside the list
/// restarts at the first item (forward) or at the last item (backward).
/// Otherwise the selection moves by one, wrapping around at both ends.
pub open spec fn next_position(selected: u32, item_count: u32, direction: Direction) -> Option<u32> {
    if item_count == 0 {
        None
    } else if selected >= item_count {
        match direction {
            Direction::Forward => Some(0u32),
            Direction::Backward => Some((item_count - 1) as u32),
        }
    } else {
        match direction {
            Direction::Forward => Some(((selected + 1) % (item_count as int)) as u32),
            Direction::Backward => Some(((selected - 1) % (item_count as int)) as u32),
        }
    }
}

/// Calculate the next item, including wrapping at both ends of the list.
pub fn next_selection(selected: u32, item_count: u32, direction: Direction) -> (next: Option<u32>)
    ensures
        next == next_position(selected, item_count, direction),
{
    if item_count == 0 {
        return None;
    }
    if selected >= item_count {
        return Some(
            match direction {
                Direction::Forward => 0,
                Direction::Backward => item_count - 1,
            },
        );
    }
    let next = match direction {
        Direction::Forward => {
            if selected + 1 == item_count {
                0
            } else {
                selected + 1
            }
        },
        Direction::Backward => {
            if selected == 0 {
                item_count - 1
            } else {
                selected - 1
            }
        },
    };
    proof {
        let n = item_count as int;
        let s = selected as int;
        match direction {
            Direction::Forward => {
                if s + 1 == n {
                    vstd::arithmetic::div_mod::lemma_mod_self_0(n);
                } else {
                    vstd::arithmetic::div_mod::lemma_small_mod((s + 1) as nat, n as nat);
                }
            },
            Direction::Backward => {
                if s == 0 {
                    vstd::arithmetic::div_mod::lemma_mod_add_multiples_vanish(-1, n);
                    vstd::arithmetic::div_mod::lemma_small_mod((n - 1) as nat, n as nat);
                } else {
                    vstd::arithmetic::div_mod::lemma_small_mod((s - 1) as nat, n as nat);
                }
            },
        }
    }
    Some(next)
}

/// The position reached from `selected` after `steps` moves in `direction`
/// through a list of `item_count` items; in an empty list nothing moves.
pub open spec fn advance_times(selected: u32, item_count: u32, direction: Direction, steps: nat) -> u32
    decreases steps,
{
    if steps == 0 {
        selected
    } else {
        let before = advance_times(selected, item_count, direction, (steps - 1) as nat);
        match next_position(before, item_count, direction) {
            Some(p) => p,
            None => before,
        }
    }
}

/// A non-empty list always yields a position inside the list, an empty list none.
pub proof fn lemma_next_stays_in_list(selected: u32, item_count: u32, direction: Direction)
    ensures
        item_count == 0 <==> next_position(selected, item_count, direction) is None,
        next_position(selected, item_count, direction) matches Some(p) ==> p < item_count,
{
    if item_count > 0 && selected < item_count {
        vstd::arithmetic::div_mod::lemma_mod_bound(selected + 1, item_count as int);
        vstd::arithmetic::div_mod::lemma_mod_bound(selected - 1, item_count as int);
    }
}

/// Moving back undoes moving forward, and moving forward undoes moving back,
/// for every position inside the list.
pub proof fn lemma_backward_undoes_forward(selected: u32, item_count: u32)
    requires
        selected < item_count,
    ensures
        next_position(next_position(selected, item_count, Direction::Forward).unwrap(), item_count, Direction::Backward)
            == Some(selected),
        next_position(next_position(selected, item_count, Direction::Backward).unwrap(), item_count, Direction::Forward)
            == Some(selected),
{
    let n = item_count as int;
    let s = selected as int;
    lemma_next_stays_in_list(selected, item_count, Direction::Forward);
    lemma_next_stays_in_list(selected, item_count, Direction::Backward);
    vstd::arithmetic::div_mod::lemma_add_mod_noop_right(-1, s + 1, n);
    vstd::arithmetic::div_mod::lemma_add_mod_noop_right(1, s - 1, n);
    vstd::arithmetic::div_mod::lemma_small_mod(selected as nat, item_count as nat);
}

/// From a position inside the list, `k` forward moves land on `(selected + k) mod n`
/// and `k` backward moves on `(selected - k) mod n`.
pub proof fn lemma_advance_closed_form(selected: u32, item_count: u32, steps: nat)
    requires
        selected < item_count,
    ensures
        advance_times(selected, item_count, Direction::Forward, steps) as int
            == (selected + steps) % (item_count as int),
        advance_times(selected, item_count, Direction::Backward, steps) as int
            == (selected - steps) % (item_count as int),
    decreases steps,
{
    let n = item_count as int;
    if steps == 0 {
        vstd::arithmetic::div_mod::lemma_small_mod(selected as nat, item_count as nat);
    } else {
        let k = (steps - 1) as nat;
        lemma_advance_closed_form(selected, item_count, k);
        let f = advance_times(selected, item_count, Direction::Forward, k);
        let b = advance_times(selected, item_count, Direction::Backward, k);
        vstd::arithmetic::div_mod::lemma_mod_bound(selected + k, n);
        vstd::arithmetic::div_mod::lemma_mod_bound(selected - k, n);
        assert(f < item_count && b < item_count);
        vstd::arithmetic::div_mod::lemma_add_mod_noop_right(1, selected + k, n);
        vstd::arithmetic::div_mod::lemma_add_mod_noop_right(-1, selected - k, n);
        assert(selected + k + 1 == selected + steps);
        assert(selected - k - 1 == selected - steps);
    }
}

/// Moving `item_count` times in one direction comes back to where it started.
pub proof fn lemma_full_cycle_returns(selected: u32, item_count: u32, direction: Direction)
    requires
        selected < item_count,
    ensures
        advance_times(selected, item_count, direction, item_count as nat) == selected,
{
    let n = item_count as int;
    lemma_advance_closed_form(selected, item_count, item_count as nat);
    vstd::arithmetic::div_mod::lemma_mod_add_multiples_vanish(selected as int, n);
    vstd::arithmetic::div_mod::lemma_mod_sub_multiples_vanish(selected as int, n);
    vstd::arithmetic::div_mod::lemma_small_mod(selected as nat, item_count as nat);
}

} // verus!
