//! The planner: a cheapest-first search over grid points with facings, and the
//! reconstruction of the commands that lead to a point it reached.

use crate::command::{arrival, Command};
use crate::cost::{Limits, C};
use crate::laws::{lemma_found_route, lemma_reached_is_walkable};
use crate::model::EDGES;
use crate::point::{dir6, P};
use crate::queue::Heap;
use crate::route::lemma_route_facts;
use crate::scene::{accepts, decides, rejects, Scene};
use crate::state::{
    lemma_extent_bounded, lemma_index_bounds, state_count, HeapState, SearchState, FACINGS,
    UNDIRECTED,
};
use crate::steps::{
    lemma_done_bounded, lemma_edge_fits, lemma_exhausted, lemma_fresh_start, lemma_goal_found,
    lemma_leave, lemma_offer_keeps, lemma_take_live, lemma_take_stale,
};
use vstd::prelude::*;

verus! {

/// The planner: the best known cost and the predecessor of every state of a grid, and
/// the queue of states that wait to be settled.
pub struct BFS {
    /// The extent of the grid.
    pub r: usize,
    /// The run limits of the commands.
    pub limits: Limits,
    /// The best known cost of every state, by table position.
    pub cost: Vec<C>,
    /// The predecessor of every state, by table position.
    pub prev: Vec<SearchState>,
    /// The states that wait to be settled, each with the cost it was offered.
    pub que: Heap,
}

/// The commands of `v` in reverse order.
fn reversed(v: Vec<Command>) -> (out: Vec<Command>)
    ensures
        out@ == v@.reverse(),
{
    let mut out: Vec<Command> = Vec::new();
    let mut i: usize = v.len();
    while i > 0
        invariant
            i <= v@.len(),
            out@.len() == v@.len() - i,
            forall|j: int| 0 <= j < out@.len() ==> out@[j] == v@[v@.len() - 1 - j],
        decreases i,
    {
        i -= 1;
        out.push(v[i]);
    }
    out
}

impl BFS {
    /// The tables cover every state of the grid, and the grid has fewer states than a
    /// command counter can count.
    pub open spec fn tabled(&self) -> bool {
        &&& state_count(self.r as int) < i32::MAX
        &&& self.cost@.len() == state_count(self.r as int)
        &&& self.prev@.len() == state_count(self.r as int)
    }

    /// The tables cover every state of the grid, a search can work with the limits, and
    /// the queue is in order.
    pub open spec fn wf(&self) -> bool {
        &&& self.tabled()
        &&& self.limits.wf()
        &&& self.que.wf()
    }

    /// The best known cost of state `s`.
    pub open spec fn cost_of(&self, s: SearchState) -> C {
        self.cost@[s.index(self.r as int)]
    }

    /// The recorded predecessor of state `s`.
    pub open spec fn prev_of(&self, s: SearchState) -> SearchState {
        self.prev@[s.index(self.r as int)]
    }

    /// Whether `s` is a state of the grid with a cost on record.
    pub open spec fn reached(&self, s: SearchState) -> bool {
        s.valid(self.r as int) && self.cost_of(s).finite()
    }

    /// No state has a cost or a predecessor on record and nothing waits in the queue.
    pub open spec fn fresh(&self) -> bool {
        &&& self.wf()
        &&& forall|i: int| 0 <= i < self.cost@.len() ==> self.cost@[i] == C::infinity()
        &&& forall|i: int| 0 <= i < self.prev@.len() ==> self.prev@[i] == SearchState::nowhere()
        &&& self.que@.len() == 0
    }

    /// Whether the planner is what `pre` becomes when state `next` is offered the cost
    /// `cand` with predecessor `anchor`: the offer is taken, and `next` enters the
    /// queue, exactly if `next` is a state of the grid whose point is free and `cand`
    /// is less than the cost on record for it. Nothing else changes.
    pub open spec fn relaxed_from(
        &self,
        pre: &BFS,
        next: SearchState,
        cand: C,
        anchor: SearchState,
        w: Scene,
    ) -> bool {
        &&& self.r == pre.r
        &&& self.limits == pre.limits
        &&& self.wf()
        &&& next.valid(pre.r as int) ==> (w.free)(next.p) || (w.blocked)(next.p)
        &&& if next.valid(pre.r as int) && (w.free)(next.p) && cand.less(pre.cost_of(next)) {
            &&& self.cost@ == pre.cost@.update(next.index(pre.r as int), cand)
            &&& self.prev@ == pre.prev@.update(next.index(pre.r as int), anchor)
            &&& self.que@ == pre.que@.insert(HeapState { c: cand, s: next })
        } else {
            &&& self.cost@ == pre.cost@
            &&& self.prev@ == pre.prev@
            &&& self.que@ == pre.que@
        }
    }

    /// The least of the costs of the first `n` facings of point `p`.
    pub open spec fn least_cost(&self, p: P, n: nat) -> C
        decreases n,
    {
        if n == 0 {
            C::infinity()
        } else {
            let rest = self.least_cost(p, (n - 1) as nat);
            let c = self.cost_of(SearchState { p, d: (n - 1) as usize });
            if c.less(rest) {
                c
            } else {
                rest
            }
        }
    }

    /// The least number of commands on record for point `p`, over all its facings;
    /// `i32::MAX` if no state at `p` was reached.
    pub open spec fn min_cost(&self, p: P) -> i32 {
        self.least_cost(p, FACINGS as nat).0
    }

    /// A planner for the grid of extent `r` with the usual run limits, with nothing on
    /// record. The grid must have fewer states than a command counter can count.
    pub fn new(r: usize) -> (b: BFS)
        requires
            state_count(r as int) < i32::MAX,
        ensures
            b.fresh(),
            b.r == r,
            b.limits == Limits::standard(),
    {
        BFS::with_limits(r, Limits::usual())
    }

    /// A planner for the grid of extent `r` with the run limits `limits`, with nothing
    /// on record. The grid must have fewer states than a command counter can count.
    pub fn with_limits(r: usize, limits: Limits) -> (b: BFS)
        requires
            state_count(r as int) < i32::MAX,
            limits.wf(),
        ensures
            b.fresh(),
            b.r == r,
            b.limits == limits,
    {
        proof {
            let n = r as int;
            assert(0 <= n * n <= n * n * n * 7 && 0 <= n * n * n <= n * n * n * 7)
                by (nonlinear_arith)
                requires
                    0 <= n,
            ;
        }
        let n: usize = r * r * r * 7;
        BFS {
            r,
            limits,
            cost: vec![C::max(); n],
            prev: vec![SearchState::dummy(); n],
            que: Heap::new(),
        }
    }

    /// The table position of a state of the grid.
    fn slot(&self, s: SearchState) -> (i: usize)
        requires
            self.tabled(),
            s.valid(self.r as int),
        ensures
            i == s.index(self.r as int),
            i < self.cost@.len(),
            i < self.prev@.len(),
    {
        proof {
            lemma_index_bounds(s, self.r as int);
            let n = self.r as int;
            let x = s.p.x as int;
            assert(0 <= x * n && n * n <= n * n * n * 7 && n * n * n <= n * n * n * 7)
                by (nonlinear_arith)
                requires
                    0 <= x < n,
            ;
        }
        (((s.p.x as usize) * self.r + (s.p.y as usize)) * self.r + (s.p.z as usize)) * FACINGS + s.d
    }

    /// Offers state `next` the cost `cost` with predecessor `prev`.
    fn enqueue<G: Fn(P) -> bool>(
        &mut self,
        next: SearchState,
        cost: C,
        prev: SearchState,
        filled: &G,
        Ghost(w): Ghost<Scene>,
    )
        requires
            old(self).wf(),
            next.d < FACINGS,
            decides(*filled, old(self).r as int),
            w.blocked == accepts(*filled),
            w.free == rejects(*filled),
        ensures
            final(self).relaxed_from(old(self), next, cost, prev, w),
    {
        if !next.p.is_valid(self.r) || filled(next.p) {
            return ;
        }
        let i = self.slot(next);
        if cost < self.cost[i] {
            self.cost[i] = cost;
            self.prev[i] = prev;
            self.que.push(HeapState { c: cost, s: next });
        }
    }

    /// Deals with every edge of state `s`, which was just taken from the queue with its
    /// cost `c` on record and has predecessor `prev`: six turns that begin a new
    /// command; six turns that begin the second leg of a command, if the run so far is
    /// short enough to be a first leg; one step straight on, if `s` has a direction and
    /// the run may grow.
    fn expand<G: Fn(P) -> bool>(
        &mut self,
        s: SearchState,
        c: C,
        prev: SearchState,
        filled: &G,
        Ghost(w): Ghost<Scene>,
        Ghost(done): Ghost<Set<int>>,
    )
        requires
            old(self).searching(c, s, w, done),
            s.valid(old(self).r as int),
            (w.miss)(s.p),
            prev == old(self).prev_of(s),
            decides(*filled, old(self).r as int),
            w.blocked == accepts(*filled),
            w.free == rejects(*filled),
            old(self).seeded(w, w.starts.len() as int),
        ensures
            final(self).r == old(self).r,
            final(self).limits == old(self).limits,
            final(self).searching(c, s, w, done),
            final(self).expanded(s, w),
            final(self).seeded(w, w.starts.len() as int),
    {
        let ghost r = self.r as int;
        proof {
            lemma_done_bounded(*self, c, s, w, done);
            lemma_extent_bounded(r);
        }
        // Turn: a new command begins.
        let mut td: usize = 0;
        while td < 6
            invariant
                td <= 6,
                (w.miss)(s.p),
                self.r as int == r,
                self.limits == old(self).limits,
                self.prev_of(s) == prev,
                self.searching(c, s, w, done),
                s.valid(r),
                done.len() <= state_count(r),
                decides(*filled, r),
                w.blocked == accepts(*filled),
                w.free == rejects(*filled),
                self.seeded(w, w.starts.len() as int),
                forall|k: int| 0 <= k < td ==> #[trigger] self.edge_done(s, k, w),
            decreases 6 - td,
        {
            let ghost pre = *self;
            let next = SearchState { p: s.p, d: td };
            let cand = C(c.0 + 1, 0);
            self.enqueue(next, cand, s, filled, Ghost(w));
            proof {
                lemma_edge_fits(pre, c, s, w, done, td as int);
                lemma_offer_keeps(pre, *self, next, cand, s, c, s, w, done);
                assert(forall|k: int| 0 <= k < td + 1 ==> #[trigger] self.edge_done(s, k, w));
            }
            td += 1;
        }
        // Turn: the second leg of a command begins.
        if c.1 <= self.limits.lmove {
            let mut td: usize = 0;
            while td < 6
                invariant
                    td <= 6,
                    (w.miss)(s.p),
                    self.r as int == r,
                    self.limits == old(self).limits,
                    self.prev_of(s) == prev,
                    self.searching(c, s, w, done),
                    s.valid(r),
                    c.1 <= self.limits.lmove,
                    decides(*filled, r),
                    w.blocked == accepts(*filled),
                    w.free == rejects(*filled),
                    self.seeded(w, w.starts.len() as int),
                    forall|k: int| 0 <= k < 6 + td ==> #[trigger] self.edge_done(s, k, w),
                decreases 6 - td,
            {
                let ghost pre = *self;
                let next = SearchState { p: s.p, d: td };
                let cand = C(c.0, self.limits.smove - self.limits.lmove);
                self.enqueue(next, cand, s, filled, Ghost(w));
                proof {
                    lemma_edge_fits(pre, c, s, w, done, 6 + td as int);
                    lemma_offer_keeps(pre, *self, next, cand, s, c, s, w, done);
                    assert(forall|k: int|
                        0 <= k < 6 + td + 1 ==> #[trigger] self.edge_done(s, k, w));
                }
                td += 1;
            }
        }
        assert(forall|k: int| 0 <= k < 12 ==> #[trigger] self.edge_done(s, k, w));
        // Straight: the run goes on.
        if s.d != UNDIRECTED && c.1 < self.limits.smove {
            let ghost pre = *self;
            let next = SearchState { p: s.p.plus(dir6(s.d)), d: s.d };
            let cand = C(c.0, c.1 + 1);
            self.enqueue(next, cand, prev, filled, Ghost(w));
            proof {
                lemma_edge_fits(pre, c, s, w, done, 12);
                lemma_offer_keeps(pre, *self, next, cand, prev, c, s, w, done);
                assert(forall|k: int| 0 <= k < 12 ==> #[trigger] self.edge_done(s, k, w));
            }
        }
        assert(forall|k: int| 0 <= k < EDGES ==> #[trigger] self.edge_done(s, k, w));
    }

    /// Searches from the start points for the cheapest state whose point the goal
    /// predicate accepts, and returns that point; returns `None` if the queue runs
    /// empty first. The planner must have nothing on record.
    ///
    /// `filled` tells whether a point is blocked and `goal` whether a point ends the
    /// search; each must give one answer at every point of the grid.
    pub fn bfs<G: Fn(P) -> bool, H: Fn(P) -> bool>(
        &mut self,
        filled: G,
        starts: &Vec<P>,
        goal: H,
    ) -> (res: Option<P>)
        requires
            old(self).fresh(),
            decides(filled, old(self).r as int),
            decides(goal, old(self).r as int),
        ensures
            final(self).r == old(self).r,
            final(self).limits == old(self).limits,
            final(self).searched(Scene::of(filled, starts@, goal), res),
            res matches Some(g) ==> {
                &&& g@.inside(old(self).r as int)
                &&& final(self).min_cost(g) != i32::MAX
                &&& Scene::of(filled, starts@, goal).walkable(old(self).r as int, g)
            },
    {
        let ghost r = self.r as int;
        let ghost w = Scene::of(filled, starts@, goal);
        let ghost nowhere = SearchState::nowhere();
        let ghost mut low = C(0, 0);
        let ghost mut done = Set::<int>::empty();
        proof {
            lemma_fresh_start(*self, w);
        }
        // The undirected facing is a state of its own, which only a start has.
        let mut i: usize = 0;
        while i < starts.len()
            invariant
                i <= starts.len(),
                self.r as int == r,
                self.r == old(self).r,
                self.limits == old(self).limits,
                w == Scene::of(filled, starts@, goal),
                decides(filled, r),
                low == C(0, 0),
                done == Set::<int>::empty(),
                nowhere == SearchState::nowhere(),
                self.searching(low, nowhere, w, done),
                self.seeded(w, i as int),
            decreases starts.len() - i,
        {
            let ghost pre = *self;
            let next = SearchState { p: starts[i], d: UNDIRECTED };
            let cand = C(0, self.limits.smove);
            self.enqueue(next, cand, SearchState::dummy(), &filled, Ghost(w));
            proof {
                lemma_offer_keeps(pre, *self, next, cand, nowhere, low, nowhere, w, done);
                assert(self.seeded(w, i as int));
                if next.valid(r) {
                    assert(self.sound(next, low, w, done.len()));
                }
            }
            i += 1;
        }
        while !self.que.is_empty()
            invariant
                self.r as int == r,
                self.r == old(self).r,
                self.limits == old(self).limits,
                w == Scene::of(filled, starts@, goal),
                decides(filled, r),
                decides(goal, r),
                nowhere == SearchState::nowhere(),
                self.searching(low, nowhere, w, done),
                self.seeded(w, starts@.len() as int),
                done.len() <= state_count(r),
            decreases state_count(r) - done.len(), self.que@.len(),
        {
            let ghost pre = *self;
            let e = self.que.pop().unwrap();
            let c = e.c;
            let s = e.s;
            proof {
                assert(pre.waiting(e, low));
            }
            let i = self.slot(s);
            if c != self.cost[i] {
                proof {
                    lemma_take_stale(pre, *self, e, low, w, done);
                }
                continue ;
            }
            proof {
                lemma_take_live(pre, *self, e, low, w, done);
                done = done.insert(s.index(r));
                low = c;
            }
            if goal(s.p) {
                proof {
                    lemma_goal_found(*self, low, s, w, done);
                    lemma_found_route(*self, w, s.p);
                    lemma_reached_is_walkable(*self, w, Some(s.p), s);
                }
                return Some(s.p);
            }
            let prev = self.prev[i];
            self.expand(s, c, prev, &filled, Ghost(w), Ghost(done));
            proof {
                lemma_leave(*self, low, s, w, done);
            }
        }
        proof {
            lemma_exhausted(*self, low, w, done);
        }
        None
    }

    /// The commands that lead from a start point to point `p`, in the order in which
    /// they are carried out, for a point `p` that the search reached.
    ///
    /// They are read off the records of the cheapest state at `p` that has a
    /// direction; a point reached only as a start needs no command.
    pub fn restore(&self, p: P) -> (cmds: Vec<Command>)
        requires
            self.wf(),
            self.anchored(),
            p@.inside(self.r as int),
            self.min_cost(p) != i32::MAX,
        ensures
            cmds@ == self.commands_to(p),
            cmds@.len() == if self.reached(self.arrival_state(p)) {
                self.cost_of(self.arrival_state(p)).0 as int
            } else {
                0
            },
            arrival(self.origin(self.arrival_state(p)).p@, cmds@) == p@,
            self.reached(self.arrival_state(p)) ==> self.reached(self.origin(self.arrival_state(p)))
                && self.origin(self.arrival_state(p)).d == UNDIRECTED,
            forall|i: int| 0 <= i < cmds@.len() ==> (#[trigger] cmds@[i]).within(self.limits),
    {
        let ghost r = self.r as int;
        let mut d: usize = 0;
        let mut k: usize = 1;
        while k < UNDIRECTED
            invariant
                self.wf(),
                p@.inside(self.r as int),
                1 <= k <= UNDIRECTED,
                d < k,
                d == self.best_facing(p, k as nat),
            decreases UNDIRECTED - k,
        {
            let i = self.slot(SearchState { p, d: k });
            let j = self.slot(SearchState { p, d });
            if self.cost[i] < self.cost[j] {
                d = k;
            }
            k += 1;
        }
        let ghost goal = SearchState { p, d };
        let mut s = SearchState { p, d };
        let mut rev: Vec<Command> = Vec::new();
        proof {
            lemma_extent_bounded(r);
        }
        loop
            invariant
                self.wf(),
                self.anchored(),
                r == self.r as int,
                r < i32::MAX,
                s.valid(r),
                goal == self.arrival_state(p),
                self.route(goal) == self.route(s) + rev@.reverse(),
            ensures
                self.route(goal) == rev@.reverse(),
            decreases self.cost_of(s).0,
        {
            let i = self.slot(s);
            let ps1 = self.prev[i];
            proof {
                assert(self.shaped(s));
            }
            if ps1 == SearchState::dummy() {
                break ;
            }
            let i1 = self.slot(ps1);
            if self.cost[i].0 != self.cost[i1].0 {
                rev.push(Command::SMove(s.p.minus(ps1.p)));
                s = ps1;
            } else {
                proof {
                    assert(self.shaped(ps1));
                }
                let ps2 = self.prev[i1];
                rev.push(Command::LMove(ps1.p.minus(ps2.p), s.p.minus(ps1.p)));
                s = ps2;
            }
        }
        proof {
            lemma_route_facts(*self, goal);
        }
        reversed(rev)
    }

    /// The least numbers of commands on record for the points of layer `y` of the
    /// grid: entry `z` of row `x` is the number for the point `(x, y, z)`.
    pub fn layer_costs(&self, y: i32) -> (rows: Vec<Vec<i32>>)
        requires
            self.tabled(),
            0 <= y < self.r,
        ensures
            rows@.len() == self.r,
            forall|x: int|
                0 <= x < self.r ==> (#[trigger] rows@[x])@.len() == self.r,
            forall|x: int, z: int|
                0 <= x < self.r && 0 <= z < self.r ==> (#[trigger] rows@[x]@[z]) == self.min_cost(
                    P { x: x as i32, y, z: z as i32 },
                ),
    {
        proof {
            lemma_extent_bounded(self.r as int);
        }
        let n: i32 = self.r as i32;
        let mut rows: Vec<Vec<i32>> = Vec::new();
        let mut x: i32 = 0;
        while x < n
            invariant
                self.tabled(),
                n == self.r,
                0 <= y < n,
                0 <= x <= n,
                rows@.len() == x,
                forall|i: int| 0 <= i < x ==> (#[trigger] rows@[i])@.len() == n,
                forall|i: int, z: int|
                    0 <= i < x && 0 <= z < n ==> (#[trigger] rows@[i]@[z]) == self.min_cost(
                        P { x: i as i32, y, z: z as i32 },
                    ),
            decreases n - x,
        {
            let mut row: Vec<i32> = Vec::new();
            let mut z: i32 = 0;
            while z < n
                invariant
                    self.tabled(),
                    n == self.r,
                    0 <= y < n,
                    0 <= x < n,
                    0 <= z <= n,
                    row@.len() == z,
                    forall|k: int|
                        0 <= k < z ==> (#[trigger] row@[k]) == self.min_cost(
                            P { x, y, z: k as i32 },
                        ),
                decreases n - z,
            {
                row.push(self.get_cost(P::new(x, y, z)));
                z += 1;
            }
            rows.push(row);
            x += 1;
        }
        rows
    }

    /// The least number of commands on record for point `p`, or `i32::MAX` if the
    /// search reached no state at `p`. The answer depends on the tables alone.
    pub fn get_cost(&self, p: P) -> (c: i32)
        requires
            self.tabled(),
            p@.inside(self.r as int),
        ensures
            c == self.min_cost(p),
    {
        let mut best = C::max();
        let mut d: usize = 0;
        while d < FACINGS
            invariant
                self.tabled(),
                p@.inside(self.r as int),
                d <= FACINGS,
                best == self.least_cost(p, d as nat),
            decreases FACINGS - d,
        {
            let i = self.slot(SearchState { p, d });
            if self.cost[i] < best {
                best = self.cost[i];
            }
            d += 1;
        }
        best.0
    }
}

} // verus!
