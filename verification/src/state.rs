//! Search states (a grid point together with a facing) and queue entries.

use crate::cost::C;
use crate::point::P;
use std::cmp::Ordering;
use vstd::prelude::*;
use vstd::std_specs::cmp::PartialOrdSpecImpl;

verus! {

/// The number of facings of a grid point: six directions and the undirected facing.
pub const FACINGS: usize = 7;

/// The undirected facing, which only a start state has.
pub const UNDIRECTED: usize = 6;

/// A vertex of the search graph: a grid point and the direction in which the agent
/// arrived there. Facings `0..6` are the six directions; facing `6` is undirected.
#[derive(Debug, PartialEq, Eq, Structural, Clone, Copy)]
pub struct SearchState {
    /// The grid point.
    pub p: P,
    /// The facing.
    pub d: usize,
}

impl SearchState {
    /// The state that stands for "no predecessor".
    pub open spec fn nowhere() -> SearchState {
        SearchState { p: P { x: (-1) as i32, y: (-1) as i32, z: (-1) as i32 }, d: UNDIRECTED }
    }

    /// The state that stands for "no predecessor".
    #[verifier::when_used_as_spec(nowhere)]
    pub fn dummy() -> (s: SearchState)
        ensures
            s == SearchState::nowhere(),
    {
        SearchState { p: P { x: -1, y: -1, z: -1 }, d: UNDIRECTED }
    }

    /// Whether the state belongs to the grid of extent `r`.
    pub open spec fn valid(self, r: int) -> bool {
        self.p@.inside(r) && self.d < FACINGS
    }

    /// The position of the state in a dense table over all states of the grid of
    /// extent `r`.
    pub open spec fn index(self, r: int) -> int {
        ((self.p.x * r + self.p.y) * r + self.p.z) * 7 + self.d
    }
}

/// The number of states of the grid of extent `r`.
pub open spec fn state_count(r: int) -> int {
    r * r * r * 7
}

/// The extent of a grid is at most the number of its states.
pub proof fn lemma_extent_bounded(r: int)
    requires
        0 <= r,
    ensures
        r <= state_count(r),
{
    assert(r <= r * r * r * 7) by (nonlinear_arith)
        requires
            0 <= r,
    ;
}

/// The table position of a valid state lies inside the table, and so does every
/// intermediate value of its computation.
pub proof fn lemma_index_bounds(s: SearchState, r: int)
    requires
        s.valid(r),
    ensures
        0 <= s.p.x * r + s.p.y < r * r,
        0 <= (s.p.x * r + s.p.y) * r + s.p.z < r * r * r,
        0 <= s.index(r) < state_count(r),
{
    let x = s.p.x as int;
    let y = s.p.y as int;
    let z = s.p.z as int;
    assert(0 <= x * r + y < r * r) by (nonlinear_arith)
        requires
            0 <= x < r,
            0 <= y < r,
    ;
    let xy = x * r + y;
    assert(0 <= xy * r + z < r * r * r) by (nonlinear_arith)
        requires
            0 <= xy < r * r,
            0 <= z < r,
    ;
}

/// Two valid states with the same table position are the same state.
pub proof fn lemma_index_injective(s: SearchState, t: SearchState, r: int)
    requires
        s.valid(r),
        t.valid(r),
        s.index(r) == t.index(r),
    ensures
        s == t,
{
    lemma_index_bounds(s, r);
    lemma_index_bounds(t, r);
    let a1 = s.p.x * r + s.p.y;
    let b1 = t.p.x * r + t.p.y;
    let sz = s.p.z as int;
    let tz = t.p.z as int;
    assert(a1 == b1 && sz == tz) by (nonlinear_arith)
        requires
            a1 * r + sz == b1 * r + tz,
            0 <= sz < r,
            0 <= tz < r,
    ;
    let sx = s.p.x as int;
    let tx = t.p.x as int;
    let sy = s.p.y as int;
    let ty = t.p.y as int;
    assert(sx == tx && sy == ty) by (nonlinear_arith)
        requires
            sx * r + sy == tx * r + ty,
            0 <= sy < r,
            0 <= ty < r,
    ;
}

/// An entry of the priority queue: a state and the cost with which it was entered.
#[derive(Debug, PartialEq, Eq, Structural, Clone, Copy)]
pub struct HeapState {
    /// The cost that the state was offered.
    pub c: C,
    /// The state.
    pub s: SearchState,
}

/// Entries are ordered by cost alone, reversed: the greater entry is the cheaper one,
/// so that the greatest entry of a queue is the one to take out first.
impl PartialOrd for HeapState {
    fn partial_cmp(&self, other: &HeapState) -> (o: Option<Ordering>) {
        other.c.partial_cmp(&self.c)
    }
}

impl PartialOrdSpecImpl for HeapState {
    open spec fn obeys_partial_cmp_spec() -> bool {
        true
    }

    open spec fn partial_cmp_spec(&self, other: &HeapState) -> Option<Ordering> {
        if other.c.less(self.c) {
            Some(Ordering::Less)
        } else if self.c.less(other.c) {
            Some(Ordering::Greater)
        } else {
            Some(Ordering::Equal)
        }
    }
}

} // verus!
