//! The mathematical model of a search: the edges of the search graph, what the
//! tables of a planner must satisfy while a search runs, and what they satisfy when it
//! has ended.

use crate::bfs::BFS;
use crate::cost::{Limits, C};
use crate::point::{run, unit, P};
use crate::scene::Scene;
use crate::state::{state_count, HeapState, SearchState, UNDIRECTED};
use vstd::prelude::*;

verus! {

/// The number of edges that may leave a state. Edge `k` is, for `k` in `0..6`, the turn
/// to direction `k` that begins a new command; for `k` in `6..12`, the turn to
/// direction `k - 6` that begins the second leg of a command; and for `k = 12`, the
/// step straight on.
pub const EDGES: usize = 13;

/// Whether edge `k` leaves a state `s` whose cost is `c`, under the limits `lim`.
pub open spec fn edge_open(s: SearchState, c: C, k: int, lim: Limits) -> bool {
    if 0 <= k < 6 {
        true
    } else if 6 <= k < 12 {
        c.1 <= lim.lmove
    } else {
        k == 12 && s.d < UNDIRECTED && c.1 < lim.smove
    }
}

/// The state to which edge `k` leads from state `s`.
pub open spec fn edge_target(s: SearchState, k: int) -> SearchState {
    if 0 <= k < 6 {
        SearchState { p: s.p, d: k as usize }
    } else if 6 <= k < 12 {
        SearchState { p: s.p, d: (k - 6) as usize }
    } else {
        SearchState { p: P::at(s.p@.plus(unit(s.d as int))), d: s.d }
    }
}

/// The cost that edge `k` offers its target when its source has cost `c`, under the
/// limits `lim`.
pub open spec fn edge_cost(c: C, k: int, lim: Limits) -> C {
    if 0 <= k < 6 {
        C((c.0 + 1) as i32, 0)
    } else if 6 <= k < 12 {
        C(c.0, lim.base() as i32)
    } else {
        C(c.0, (c.1 + 1) as i32)
    }
}

/// The number of unit steps between a state with cost `c` and its predecessor, whose
/// cost is `ca`, under the limits `lim`.
pub open spec fn hops(c: C, ca: C, lim: Limits) -> int {
    if ca.0 == c.0 {
        c.1 - lim.base()
    } else {
        c.1 as int
    }
}

/// The state one unit step behind `s`, with the same facing.
pub open spec fn back(s: SearchState) -> SearchState {
    SearchState { p: P::at(s.p@.minus(unit(s.d as int))), d: s.d }
}

impl BFS {
    /// The predecessor that edge `k` from state `s` records for its target: `s` itself
    /// for a turn, the predecessor of `s` for a step straight on.
    pub open spec fn edge_anchor(&self, s: SearchState, k: int) -> SearchState {
        if 0 <= k < 12 {
            s
        } else {
            self.prev_of(s)
        }
    }

    /// The queue entry of state `s` with its cost on record.
    pub open spec fn entry(&self, s: SearchState) -> HeapState {
        HeapState { c: self.cost_of(s), s }
    }

    /// Whether state `s` was reached and no longer waits in the queue with its cost on
    /// record.
    pub open spec fn settled(&self, s: SearchState) -> bool {
        self.reached(s) && self.que@.count(self.entry(s)) == 0
    }

    /// Whether cost `c` and predecessor `a` are a sound record for state `s`:
    /// an unreached state has no predecessor; an undirected state is a start; a
    /// directed state lies on a straight run of `hops` unit steps from the point of
    /// `a`, in its own direction, where `a` was reached with one command less (a new
    /// command) or with the same number (the second leg of a command whose first leg
    /// ended at `a`), and the state one step behind it belongs to the same run.
    pub open spec fn grounded(&self, s: SearchState, c: C, a: SearchState) -> bool {
        if !c.finite() {
            a == SearchState::nowhere()
        } else if s.d == UNDIRECTED {
            c == C(0, self.limits.smove) && a == SearchState::nowhere()
        } else {
            let ca = self.cost_of(a);
            let n = hops(c, ca, self.limits);
            &&& a.valid(self.r as int)
            &&& ca.finite()
            &&& 0 <= ca.0
            &&& 0 <= ca.1 <= self.limits.smove
            &&& if ca.0 == c.0 {
                a.d < UNDIRECTED && ca.1 <= self.limits.lmove
            } else {
                ca.0 + 1 == c.0
            }
            &&& 0 <= n
            &&& c.1 <= self.limits.smove
            &&& s.p@ == a.p@.plus(run(s.d as int, n))
            &&& n > 0 ==> {
                let t = back(s);
                &&& t.valid(self.r as int)
                &&& self.cost_of(t) == C(c.0, (c.1 - 1) as i32)
                &&& self.prev_of(t) == a
            }
        }
    }

    /// Whether the record of state `s` is sound.
    pub open spec fn shaped(&self, s: SearchState) -> bool {
        self.grounded(s, self.cost_of(s), self.prev_of(s))
    }

    /// Whether the record of every state of the grid is sound.
    pub open spec fn anchored(&self) -> bool {
        forall|s: SearchState| s.valid(self.r as int) ==> #[trigger] self.shaped(s)
    }

    /// Whether the states that the record `(c, a)` of a directed state `s` rests on,
    /// its predecessor and the state one step behind it, have costs of at most `low`,
    /// and the point of the predecessor is no goal.
    pub open spec fn rests_below(
        &self,
        s: SearchState,
        c: C,
        a: SearchState,
        low: C,
        w: Scene,
    ) -> bool {
        c.finite() && s.d < UNDIRECTED ==> {
            &&& self.cost_of(a).at_most(low)
            &&& (w.miss)(a.p)
            &&& hops(c, self.cost_of(a), self.limits) > 0 ==> self.cost_of(back(s)).at_most(low)
        }
    }

    /// Whether edge `k` of state `t` has been dealt with: if it leaves `t` and leads to
    /// a state of the grid, that state is blocked or has a cost of at most what the
    /// edge offers.
    pub open spec fn edge_done(&self, t: SearchState, k: int, w: Scene) -> bool {
        edge_open(t, self.cost_of(t), k, self.limits) ==> {
            let n = edge_target(t, k);
            n.valid(self.r as int) ==> (w.blocked)(n.p) || self.cost_of(n).at_most(
                edge_cost(self.cost_of(t), k, self.limits),
            )
        }
    }

    /// Whether every edge of state `t` has been dealt with.
    pub open spec fn expanded(&self, t: SearchState, w: Scene) -> bool {
        forall|k: int| 0 <= k < EDGES ==> #[trigger] self.edge_done(t, k, w)
    }

    /// What holds of every state `s` of the grid while a search runs and the last
    /// state taken from the queue had cost `low`, with `bound` states settled.
    pub open spec fn sound(&self, s: SearchState, low: C, w: Scene, bound: nat) -> bool {
        let c = self.cost_of(s);
        &&& self.shaped(s)
        &&& self.rests_below(s, c, self.prev_of(s), low, w)
        &&& self.que@.count(self.entry(s)) <= 1
        &&& c.finite() ==> {
            &&& (w.free)(s.p)
            &&& 0 <= c.0 <= bound
            &&& s.d == UNDIRECTED ==> w.starts.contains(s.p)
        }
    }

    /// What holds of every entry `e` of the queue while a search runs.
    pub open spec fn waiting(&self, e: HeapState, low: C) -> bool {
        &&& e.s.valid(self.r as int)
        &&& e.c.finite()
        &&& low.at_most(e.c)
        &&& self.cost_of(e.s).at_most(e.c)
    }

    /// What holds of a settled state `t` once the search has left it: its point is no
    /// goal, its edges have been dealt with, and its cost is at most `low`.
    pub open spec fn closed(&self, t: SearchState, low: C, w: Scene) -> bool {
        &&& (w.miss)(t.p)
        &&& self.expanded(t, w)
        &&& self.cost_of(t).at_most(low)
    }

    /// Whether every start point of the grid is blocked or has its undirected state on
    /// record.
    pub open spec fn seeded(&self, w: Scene, n: int) -> bool {
        forall|i: int|
            0 <= i < n && (#[trigger] w.starts[i])@.inside(self.r as int) ==> (w.blocked)(
                w.starts[i],
            ) || self.cost_of(SearchState { p: w.starts[i], d: UNDIRECTED }) == C(
                0,
                self.limits.smove,
            )
    }

    /// The invariant of a running search: `low` is the cost of the last state taken
    /// from the queue, `cur` the state whose edges are being dealt with (or no state of
    /// the grid), and `done` the table positions of the settled states.
    pub open spec fn searching(&self, low: C, cur: SearchState, w: Scene, done: Set<int>) -> bool {
        &&& self.wf()
        &&& w.consistent(self.r as int)
        &&& 0 <= low.0 && 0 <= low.1 <= self.limits.smove
        &&& forall|s: SearchState|
            s.valid(self.r as int) ==> #[trigger] self.sound(s, low, w, done.len())
        &&& forall|e: HeapState| self.que@.count(e) > 0 ==> #[trigger] self.waiting(e, low)
        &&& forall|s: SearchState| #[trigger] self.settled(s) && s != cur ==> self.closed(s, low, w)
        &&& cur.valid(self.r as int) ==> self.settled(cur) && self.cost_of(cur) == low && low.0
            < done.len()
        &&& done.finite()
        &&& forall|i: int| done.contains(i) ==> 0 <= i < state_count(self.r as int)
        &&& forall|s: SearchState|
            s.valid(self.r as int) ==> (#[trigger] self.settled(s) <==> done.contains(
                s.index(self.r as int),
            ))
    }

    /// Whether `s` is a reached state such that every reached state that is cheaper has
    /// been left by the search, its point being no goal and its edges dealt with, and
    /// every record rests on states that are no dearer than `s`.
    pub open spec fn found(&self, s: SearchState, w: Scene) -> bool {
        &&& self.reached(s)
        &&& forall|t: SearchState|
            #[trigger] self.reached(t) && self.cost_of(t).less(self.cost_of(s)) ==> (w.miss)(t.p)
                && self.expanded(t, w)
        &&& forall|t: SearchState|
            t.valid(self.r as int) ==> #[trigger] self.rests_below(
                t,
                self.cost_of(t),
                self.prev_of(t),
                self.cost_of(s),
                w,
            )
    }

    /// What holds of the planner after a search in setting `w` that returned `res`.
    ///
    /// The record of every state is sound; every reached state stands on a free point
    /// and counts no more commands than the grid has states; an undirected state is
    /// reached only at a start point, and at every start point of the grid unless that
    /// is blocked. If the search returned a point, the goal predicate accepts it, and
    /// a state at it is the cheapest that the search had not left. If it returned
    /// nothing, it left every reached state: none stands on a goal, and no edge of any
    /// would lower a cost.
    pub open spec fn searched(&self, w: Scene, res: Option<P>) -> bool {
        &&& self.wf()
        &&& self.anchored()
        &&& forall|s: SearchState|
            #[trigger] self.reached(s) ==> (w.free)(s.p) && self.cost_of(s).0 <= state_count(
                self.r as int,
            )
        &&& forall|s: SearchState|
            #[trigger] self.reached(s) && s.d == UNDIRECTED ==> w.starts.contains(s.p)
        &&& self.seeded(w, w.starts.len() as int)
        &&& match res {
            Some(g) => (w.goal)(g) && exists|d: usize| #[trigger]
                self.found(SearchState { p: g, d }, w),
            None => forall|t: SearchState| #[trigger]
                self.reached(t) ==> (w.miss)(t.p) && self.expanded(t, w),
        }
    }
}

} // verus!
