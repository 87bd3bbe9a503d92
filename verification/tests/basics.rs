use std::cmp::Ordering;
use wata::command::Command;
use wata::cost::{C, LIMIT_LMOVE, LIMIT_SMOVE};
use wata::point::{dir6, P};
use wata::state::{HeapState, SearchState, FACINGS, UNDIRECTED};

#[test]
fn limits() {
    assert_eq!(LIMIT_SMOVE, 15);
    assert_eq!(LIMIT_LMOVE, 5);
    assert_eq!(FACINGS, 7);
    assert_eq!(UNDIRECTED, 6);
}

#[test]
fn cost_is_ordered_by_commands_then_run() {
    assert!(C(1, 15) < C(2, 0));
    assert!(C(1, 4) < C(1, 5));
    assert!(!(C(1, 5) < C(1, 5)));
    assert!(!(C(2, 0) < C(1, 15)));
    assert!(C(0, 15) < C(i32::MAX, i32::MAX));
    assert_eq!(C(1, 5).partial_cmp(&C(1, 5)), Some(Ordering::Equal));
    assert_eq!(C(1, 5).partial_cmp(&C(1, 6)), Some(Ordering::Less));
    assert_eq!(C(2, 0).partial_cmp(&C(1, 6)), Some(Ordering::Greater));
    assert_eq!(C(1, 5).cmp(&C(1, 6)), Ordering::Less);
    assert_eq!(C(3, 5).cmp(&C(1, 6)), Ordering::Greater);
    assert_eq!(C(3, 5).cmp(&C(3, 5)), Ordering::Equal);
    assert_eq!(C::max(), C(i32::MAX, i32::MAX));
}

#[test]
fn queue_entries_are_ordered_by_cost_reversed() {
    let s = SearchState { p: P::new(0, 0, 0), d: 0 };
    let t = SearchState { p: P::new(1, 2, 3), d: 4 };
    let cheap = HeapState { c: C(1, 2), s };
    let dear = HeapState { c: C(1, 3), s: t };
    assert!(cheap > dear);
    assert!(dear < cheap);
    assert_eq!(cheap.partial_cmp(&dear), Some(Ordering::Greater));
    assert_eq!(dear.partial_cmp(&cheap), Some(Ordering::Less));
    let same = HeapState { c: C(1, 2), s: t };
    assert_eq!(cheap.partial_cmp(&same), Some(Ordering::Equal));
    assert!(cheap != same);
}

#[test]
fn point_validity() {
    assert!(P::new(0, 0, 0).is_valid(1));
    assert!(P::new(2, 1, 0).is_valid(3));
    assert!(!P::new(3, 1, 0).is_valid(3));
    assert!(!P::new(0, 3, 0).is_valid(3));
    assert!(!P::new(0, 0, 3).is_valid(3));
    assert!(!P::new(-1, 0, 0).is_valid(3));
    assert!(!P::new(0, -1, 0).is_valid(3));
    assert!(!P::new(0, 0, -1).is_valid(3));
    assert!(!P::new(0, 0, 0).is_valid(0));
}

#[test]
fn point_arithmetic() {
    assert_eq!(P::new(1, 2, 3).plus(P::new(10, -20, 30)), P::new(11, -18, 33));
    assert_eq!(P::new(1, 2, 3).minus(P::new(10, -20, 30)), P::new(-9, 22, -27));
    assert_eq!(P::new(4, 4, 4).minus(P::new(4, 4, 4)), P::new(0, 0, 0));
}

#[test]
fn six_directions() {
    assert_eq!(dir6(0), P::new(1, 0, 0));
    assert_eq!(dir6(1), P::new(-1, 0, 0));
    assert_eq!(dir6(2), P::new(0, 1, 0));
    assert_eq!(dir6(3), P::new(0, -1, 0));
    assert_eq!(dir6(4), P::new(0, 0, 1));
    assert_eq!(dir6(5), P::new(0, 0, -1));
}

#[test]
fn no_state() {
    assert_eq!(SearchState::dummy(), SearchState { p: P::new(-1, -1, -1), d: 6 });
}

#[test]
fn commands_compare_by_kind_and_displacement() {
    assert_eq!(Command::SMove(P::new(1, 0, 0)), Command::SMove(P::new(1, 0, 0)));
    assert!(Command::SMove(P::new(1, 0, 0)) != Command::SMove(P::new(0, 1, 0)));
    assert!(Command::LMove(P::new(1, 0, 0), P::new(0, 1, 0)) != Command::LMove(P::new(0, 1, 0), P::new(1, 0, 0)));
}
