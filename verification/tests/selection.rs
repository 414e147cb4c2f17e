use niri_switch::selection::{next_selection, Direction};

#[test]
fn forward_selection_wraps_from_last_to_first() {
    assert_eq!(next_selection(2, 3, Direction::Forward), Some(0));
}

#[test]
fn backward_selection_wraps_from_first_to_last() {
    assert_eq!(next_selection(0, 3, Direction::Backward), Some(2));
}

#[test]
fn empty_list_has_no_selection() {
    assert_eq!(next_selection(0, 0, Direction::Forward), None);
}

#[test]
fn empty_list_has_no_selection_backward_either() {
    assert_eq!(next_selection(7, 0, Direction::Backward), None);
    assert_eq!(next_selection(u32::MAX, 0, Direction::Forward), None);
}

#[test]
fn selection_moves_by_one_inside_the_list() {
    assert_eq!(next_selection(0, 3, Direction::Forward), Some(1));
    assert_eq!(next_selection(1, 3, Direction::Forward), Some(2));
    assert_eq!(next_selection(2, 3, Direction::Backward), Some(1));
    assert_eq!(next_selection(1, 3, Direction::Backward), Some(0));
}

#[test]
fn selection_outside_the_list_restarts_at_an_end() {
    assert_eq!(next_selection(u32::MAX, 4, Direction::Forward), Some(0));
    assert_eq!(next_selection(u32::MAX, 4, Direction::Backward), Some(3));
    assert_eq!(next_selection(4, 4, Direction::Forward), Some(0));
    assert_eq!(next_selection(9, 4, Direction::Backward), Some(3));
}

#[test]
fn single_item_list_stays_on_its_item() {
    assert_eq!(next_selection(0, 1, Direction::Forward), Some(0));
    assert_eq!(next_selection(0, 1, Direction::Backward), Some(0));
}

#[test]
fn backward_undoes_forward_everywhere() {
    for n in 1..6u32 {
        for s in 0..n {
            let f = next_selection(s, n, Direction::Forward).unwrap();
            assert_eq!(next_selection(f, n, Direction::Backward), Some(s));
            let b = next_selection(s, n, Direction::Backward).unwrap();
            assert_eq!(next_selection(b, n, Direction::Forward), Some(s));
        }
    }
}

#[test]
fn moving_k_times_lands_on_k_mod_n() {
    let n = 5u32;
    let mut forward = 3u32;
    let mut backward = 3u32;
    for k in 1..=12u32 {
        forward = next_selection(forward, n, Direction::Forward).unwrap();
        backward = next_selection(backward, n, Direction::Backward).unwrap();
        assert_eq!(forward, (3 + k) % n);
        assert_eq!(backward as i64, (3 - k as i64).rem_euclid(n as i64));
    }
}

#[test]
fn a_full_cycle_returns_to_the_start() {
    let n = 4u32;
    let mut p = 1u32;
    for _ in 0..n {
        p = next_selection(p, n, Direction::Forward).unwrap();
    }
    assert_eq!(p, 1);
}

#[test]
fn largest_list_wraps_without_overflow() {
    assert_eq!(next_selection(u32::MAX - 1, u32::MAX, Direction::Forward), Some(0));
    assert_eq!(next_selection(0, u32::MAX, Direction::Backward), Some(u32::MAX - 1));
}
