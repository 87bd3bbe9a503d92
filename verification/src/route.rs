//! The commands that lead to a reached state, read off the predecessor records.

use crate::bfs::BFS;
use crate::command::{arrival, Command};
use crate::point::{run, P};
use crate::state::{lemma_extent_bounded, SearchState, UNDIRECTED};
use vstd::prelude::*;

verus! {

impl BFS {
    /// The first of the first `n` facings of point `p` whose state has the least cost.
    pub open spec fn best_facing(&self, p: P, n: nat) -> usize
        decreases n,
    {
        if n <= 1 {
            0
        } else {
            let b = self.best_facing(p, (n - 1) as nat);
            if self.cost_of(SearchState { p, d: (n - 1) as usize }).less(
                self.cost_of(SearchState { p, d: b }),
            ) {
                (n - 1) as usize
            } else {
                b
            }
        }
    }

    /// The state at point `p` from which the commands to `p` are read off: the
    /// cheapest one with a direction, the first of them if several are cheapest.
    pub open spec fn arrival_state(&self, p: P) -> SearchState {
        SearchState { p, d: self.best_facing(p, UNDIRECTED as nat) }
    }

    /// The commands that lead to state `s`, in the order in which they are carried out.
    /// Each predecessor record stands for one command: a single run where the
    /// predecessor was reached with one command less, and two legs where it was reached
    /// with the same number, the first leg being the run that led to the predecessor.
    pub open spec fn route(&self, s: SearchState) -> Seq<Command>
        decreases self.cost_of(s).0,
        when self.limits.wf() && self.anchored() && s.valid(self.r as int)
    {
        let a = self.prev_of(s);
        if a == SearchState::nowhere() {
            Seq::empty()
        } else if self.cost_of(s).0 != self.cost_of(a).0 {
            proof {
                assert(self.shaped(s));
            }
            self.route(a).push(Command::SMove(P::at(s.p@.minus(a.p@))))
        } else {
            let b = self.prev_of(a);
            proof {
                assert(self.shaped(s));
                assert(self.shaped(a));
            }
            self.route(b).push(
                Command::LMove(P::at(a.p@.minus(b.p@)), P::at(s.p@.minus(a.p@))),
            )
        }
    }

    /// The start state from which the commands to state `s` set out.
    pub open spec fn origin(&self, s: SearchState) -> SearchState
        decreases self.cost_of(s).0,
        when self.limits.wf() && self.anchored() && s.valid(self.r as int)
    {
        let a = self.prev_of(s);
        if a == SearchState::nowhere() {
            s
        } else if self.cost_of(s).0 != self.cost_of(a).0 {
            proof {
                assert(self.shaped(s));
            }
            self.origin(a)
        } else {
            proof {
                assert(self.shaped(s));
                assert(self.shaped(a));
            }
            self.origin(self.prev_of(a))
        }
    }

    /// The commands that lead to point `p`.
    pub open spec fn commands_to(&self, p: P) -> Seq<Command> {
        self.route(self.arrival_state(p))
    }
}

/// What holds of the commands that lead to a state `s` of a planner whose records are
/// sound: there are as many as the cost of `s` counts, none if `s` was not reached;
/// carried out from the point of their origin they end at the point of `s`; the
/// origin of a reached state is a reached start state; and every command keeps within
/// its limits.
pub proof fn lemma_route_facts(b: BFS, s: SearchState)
    requires
        b.wf(),
        b.anchored(),
        s.valid(b.r as int),
    ensures
        b.route(s).len() == if b.reached(s) {
            b.cost_of(s).0 as int
        } else {
            0
        },
        b.origin(s).valid(b.r as int),
        b.reached(s) ==> b.reached(b.origin(s)) && b.origin(s).d == UNDIRECTED,
        arrival(b.origin(s).p@, b.route(s)) == s.p@,
        forall|i: int| 0 <= i < b.route(s).len() ==> (#[trigger] b.route(s)[i]).within(b.limits),
    decreases b.cost_of(s).0,
{
    let r = b.r as int;
    let a = b.prev_of(s);
    let c = b.cost_of(s);
    assert(b.shaped(s));
    lemma_extent_bounded(r);
    if a == SearchState::nowhere() {
        // No command leads to `s`, which is its own origin.
    } else if c.0 != b.cost_of(a).0 {
        // A single run leads from `a` to `s`.
        lemma_route_facts(b, a);
        assert(b.route(s).drop_last() == b.route(a));
    } else {
        // Two legs lead from the predecessor of `a` over `a` to `s`.
        let m = b.prev_of(a);
        assert(b.shaped(a));
        lemma_route_facts(b, m);
        assert(b.route(s).drop_last() == b.route(m));
    }
}

/// The first cheapest of the first `n` facings of a point is one of them, and no
/// other of them is cheaper.
pub proof fn lemma_best_facing(b: BFS, p: P, n: nat)
    requires
        1 <= n,
    ensures
        b.best_facing(p, n) < n,
        forall|d: usize|
            d < n ==> b.cost_of(SearchState { p, d: b.best_facing(p, n) }).at_most(
                #[trigger] b.cost_of(SearchState { p, d }),
            ),
    decreases n,
{
    if n > 1 {
        lemma_best_facing(b, p, (n - 1) as nat);
    }
}

/// The least cost of the first `n` facings of a point is at most the cost of each of
/// them, and it is the cost of one of them unless it is the cost of an unreached state.
pub proof fn lemma_least_cost(b: BFS, p: P, n: nat)
    ensures
        forall|d: usize|
            d < n ==> b.least_cost(p, n).at_most(#[trigger] b.cost_of(SearchState { p, d })),
        !b.least_cost(p, n).finite() || exists|d: usize|
            d < n && b.least_cost(p, n) == #[trigger] b.cost_of(SearchState { p, d }),
    decreases n,
{
    if n > 0 {
        lemma_least_cost(b, p, (n - 1) as nat);
        let rest = b.least_cost(p, (n - 1) as nat);
        let last = SearchState { p, d: (n - 1) as usize };
        if !b.cost_of(last).less(rest) && rest.finite() {
            let d = choose|d: usize|
                d < n - 1 && rest == #[trigger] b.cost_of(SearchState { p, d });
            assert(b.least_cost(p, n) == b.cost_of(SearchState { p, d }));
        }
    }
}

} // verus!
