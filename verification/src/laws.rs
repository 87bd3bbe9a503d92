//! What holds of every search and of every route read off its records.

use crate::bfs::BFS;
use crate::command::{arrival, swept};
use crate::cost::{Limits, C};
use crate::steps::{lemma_edge_fits, lemma_offer_keeps_state};
use crate::model::{back, edge_cost, edge_open, edge_target, hops, EDGES};
use crate::point::{run, Vec3, P};
use crate::route::{lemma_best_facing, lemma_least_cost, lemma_route_facts};
use crate::scene::{adjacent, Scene};
use crate::state::{lemma_extent_bounded, SearchState, FACINGS, UNDIRECTED};
use vstd::prelude::*;

verus! {

/// Every edge offers its target a cost greater than that of its source: no edge has a
/// negative weight.
pub proof fn lemma_edges_raise_cost(s: SearchState, c: C, k: int, lim: Limits)
    requires
        lim.wf(),
        0 <= c.0 < i32::MAX,
        0 <= c.1 <= lim.smove,
        edge_open(s, c, k, lim),
    ensures
        c.less(edge_cost(c, k, lim)),
{
}

/// Monotonic relaxation: once a state has been taken from the queue with its cost on
/// record, no relaxation that the search makes later lowers that cost or changes its
/// predecessor.
///
/// Here `pre` is the planner at any moment of a search at which the edges of the state
/// `cur` are being dealt with, `t` a state that is settled then, and `post` the
/// planner after the relaxation along edge `k` of `cur`.
pub proof fn lemma_settled_cost_is_final(
    pre: BFS,
    post: BFS,
    low: C,
    cur: SearchState,
    w: Scene,
    done: Set<int>,
    k: int,
    t: SearchState,
)
    requires
        pre.searching(low, cur, w, done),
        cur.valid(pre.r as int),
        (w.miss)(cur.p),
        0 <= k < EDGES,
        edge_open(cur, low, k, pre.limits),
        post.relaxed_from(
            &pre,
            edge_target(cur, k),
            edge_cost(low, k, pre.limits),
            pre.edge_anchor(cur, k),
            w,
        ),
        pre.settled(t),
    ensures
        post.settled(t),
        post.cost_of(t) == pre.cost_of(t),
        post.prev_of(t) == pre.prev_of(t),
{
    lemma_edge_fits(pre, low, cur, w, done, k);
    lemma_offer_keeps_state(
        pre,
        post,
        edge_target(cur, k),
        edge_cost(low, k, pre.limits),
        pre.edge_anchor(cur, k),
        low,
        cur,
        w,
        done,
        t,
    );
}

/// Occupancy exclusion: after a search, no state whose point the occupancy predicate
/// calls blocked has a cost on record.
pub proof fn lemma_blocked_is_never_reached(b: BFS, w: Scene, res: Option<P>, s: SearchState)
    requires
        b.searched(w, res),
        w.consistent(b.r as int),
        s.valid(b.r as int),
        (w.blocked)(s.p),
    ensures
        b.cost_of(s) == C::infinity(),
{
    if b.cost_of(s).finite() {
        assert(b.reached(s));
    }
}

/// After a search, a walk from a start point through free points of the grid leads to
/// the point of every reached state.
pub proof fn lemma_reached_is_walkable(b: BFS, w: Scene, res: Option<P>, s: SearchState)
    requires
        b.searched(w, res),
        b.reached(s),
    ensures
        w.walkable(b.r as int, s.p),
    decreases b.cost_of(s).0, b.cost_of(s).1,
{
    let r = b.r as int;
    let c = b.cost_of(s);
    let a = b.prev_of(s);
    assert(b.shaped(s));
    lemma_extent_bounded(r);
    if s.d == UNDIRECTED {
        let path = seq![s.p];
        assert(w.walk(r, path));
    } else {
        if hops(c, b.cost_of(a), b.limits) > 0 {
            let t = back(s);
            lemma_reached_is_walkable(b, w, res, t);
            let path = choose|path: Seq<P>| #[trigger] w.walk(r, path) && path.last() == t.p;
            let longer = path.push(s.p);
            assert(forall|i: int|
                0 <= i < longer.len() ==> (#[trigger] longer[i])@.inside(r) && (w.free)(longer[i]));
            assert(forall|i: int|
                1 <= i < longer.len() ==> adjacent(longer[i - 1], #[trigger] longer[i]));
            assert(w.walk(r, longer));
        } else {
            lemma_reached_is_walkable(b, w, res, a);
        }
    }
}

/// Unreachable correctness: if no walk from a start point through free points of the
/// grid ends at a point that the goal predicate accepts, the search returns nothing.
pub proof fn lemma_unreachable_goal_is_not_found(b: BFS, w: Scene, res: Option<P>)
    requires
        b.searched(w, res),
        forall|p: P| (w.goal)(p) ==> !w.walkable(b.r as int, p),
    ensures
        res is None,
{
    if let Some(g) = res {
        let d = choose|d: usize| #[trigger] b.found(SearchState { p: g, d }, w);
        lemma_reached_is_walkable(b, w, res, SearchState { p: g, d });
    }
}

/// Reachability soundness: if a search returned the point `g`, the commands read off
/// for `g` lead from one of the start points to `g`, and there are as many of them as
/// the least number of commands on record for `g`.
pub proof fn lemma_found_route(b: BFS, w: Scene, g: P)
    requires
        b.searched(w, Some(g)),
        w.consistent(b.r as int),
    ensures
        g@.inside(b.r as int),
        b.min_cost(g) != i32::MAX,
        b.commands_to(g).len() == b.min_cost(g),
        exists|i: int|
            0 <= i < w.starts.len() && arrival((#[trigger] w.starts[i])@, b.commands_to(g)) == g@,
{
    let r = b.r as int;
    let d0 = choose|d: usize| #[trigger] b.found(SearchState { p: g, d }, w);
    let hit = SearchState { p: g, d: d0 };
    let q = b.arrival_state(g);
    let lone = SearchState { p: g, d: UNDIRECTED };
    lemma_best_facing(b, g, UNDIRECTED as nat);
    lemma_least_cost(b, g, UNDIRECTED as nat);
    lemma_least_cost(b, g, FACINGS as nat);
    lemma_route_facts(b, q);
    lemma_extent_bounded(r);
    assert(b.shaped(q));
    if b.reached(q) {
        // A directed state at `g` rests on states that are no dearer than `hit` and on
        // a predecessor whose point is no goal, so `hit` is directed too, and the
        // undirected state at `g`, which would be cheaper, is not reached.
        assert(b.rests_below(q, b.cost_of(q), b.prev_of(q), b.cost_of(hit), w));
        assert(!b.reached(lone)) by {
            if b.reached(lone) {
                assert(b.cost_of(lone).less(b.cost_of(hit)));
            }
        }
        let o = b.origin(q);
        let i = choose|i: int| 0 <= i < w.starts.len() && w.starts[i] == o.p;
        assert(arrival(w.starts[i]@, b.commands_to(g)) == g@);
    } else {
        // No directed state at `g` is reached, so `g` was found as a start.
        assert(hit == lone);
        let i = choose|i: int| 0 <= i < w.starts.len() && w.starts[i] == g;
        assert(arrival(w.starts[i]@, b.commands_to(g)) == g@);
    }
}

/// Run-limit enforcement: every command read off for a point of the grid lies along
/// the axes and keeps within its limits: a single run is no longer than the
/// straight-run limit, and neither leg of a command of two legs is longer than the
/// leg limit.
pub proof fn lemma_commands_within_limits(b: BFS, p: P)
    requires
        b.wf(),
        b.anchored(),
        p@.inside(b.r as int),
    ensures
        forall|i: int|
            0 <= i < b.commands_to(p).len() ==> (#[trigger] b.commands_to(p)[i]).within(b.limits),
{
    lemma_best_facing(b, p, UNDIRECTED as nat);
    lemma_route_facts(b, b.arrival_state(p));
}

/// After a search, every state on the straight run that leads from the predecessor of
/// a reached state `s` to `s` is reached: the state `i` unit steps behind `s`, for `i`
/// up to the length of the run, has the facing and the predecessor of `s`.
pub proof fn lemma_run_is_reached(b: BFS, w: Scene, res: Option<P>, s: SearchState, i: int)
    requires
        b.searched(w, res),
        b.reached(s),
        s.d < UNDIRECTED,
        0 <= i <= hops(b.cost_of(s), b.cost_of(b.prev_of(s)), b.limits),
    ensures
        ({
            let t = SearchState { p: P::at(s.p@.minus(run(s.d as int, i))), d: s.d };
            &&& b.reached(t)
            &&& t.p@ == s.p@.minus(run(s.d as int, i))
            &&& b.prev_of(t) == b.prev_of(s)
            &&& b.cost_of(t) == C(b.cost_of(s).0, (b.cost_of(s).1 - i) as i32)
        }),
    decreases i,
{
    let r = b.r as int;
    lemma_extent_bounded(r);
    if i > 0 {
        lemma_run_is_reached(b, w, res, s, i - 1);
        let near = SearchState { p: P::at(s.p@.minus(run(s.d as int, i - 1))), d: s.d };
        assert(b.shaped(near));
    }
}

/// After a search, every point on the straight run that leads from the predecessor of
/// a reached state to that state is a free point of the grid.
pub proof fn lemma_run_is_free(b: BFS, w: Scene, res: Option<P>, s: SearchState, q: Vec3)
    requires
        b.searched(w, res),
        b.reached(s),
        s.d < UNDIRECTED,
        q.between(b.prev_of(s).p@, s.p@),
    ensures
        q.inside(b.r as int),
        (w.free)(P::at(q)),
{
    let r = b.r as int;
    lemma_extent_bounded(r);
    assert(b.shaped(s));
    lemma_run_is_reached(b, w, res, s, s.p@.minus(q).length());
}

/// After a search, the commands that lead to a reached state take the agent through
/// free points of the grid only.
pub proof fn lemma_route_is_free(b: BFS, w: Scene, res: Option<P>, s: SearchState, q: Vec3)
    requires
        b.searched(w, res),
        b.reached(s),
        swept(b.origin(s).p@, b.route(s), q),
    ensures
        q.inside(b.r as int),
        (w.free)(P::at(q)),
    decreases b.cost_of(s).0,
{
    let r = b.r as int;
    let a = b.prev_of(s);
    let c = b.cost_of(s);
    let from = b.origin(s).p@;
    assert(b.shaped(s));
    lemma_extent_bounded(r);
    if a == SearchState::nowhere() {
        // No command leads to `s`: the agent is at the point of `s` and stays there.
    } else if c.0 != b.cost_of(a).0 {
        lemma_route_facts(b, a);
        assert(b.route(s).drop_last() == b.route(a));
        if swept(from, b.route(a), q) {
            lemma_route_is_free(b, w, res, a, q);
        } else {
            lemma_run_is_free(b, w, res, s, q);
        }
    } else {
        let m = b.prev_of(a);
        assert(b.shaped(a));
        lemma_route_facts(b, m);
        assert(b.route(s).drop_last() == b.route(m));
        if swept(from, b.route(m), q) {
            lemma_route_is_free(b, w, res, m, q);
        } else if q.between(m.p@, a.p@) {
            lemma_run_is_free(b, w, res, a, q);
        } else {
            lemma_run_is_free(b, w, res, s, q);
        }
    }
}

/// If a search returned a point, no reached state whose point the goal predicate
/// accepts is cheaper than the state that was found there.
pub proof fn lemma_found_is_cheapest(b: BFS, w: Scene, g: P, t: SearchState)
    requires
        b.searched(w, Some(g)),
        w.consistent(b.r as int),
        b.reached(t),
        (w.goal)(t.p),
    ensures
        exists|d: usize|
            b.reached(SearchState { p: g, d }) && #[trigger] b.cost_of(
                SearchState { p: g, d },
            ).at_most(b.cost_of(t)),
{
    let d = choose|d: usize| #[trigger] b.found(SearchState { p: g, d }, w);
    assert(b.cost_of(SearchState { p: g, d }).at_most(b.cost_of(t)));
}

/// A state that one search to exhaustion reached costs no less in another search to
/// exhaustion in the same setting if it costs no more there.
proof fn lemma_exhaustive_cost_agrees(b1: BFS, b2: BFS, w: Scene, s: SearchState)
    requires
        b1.searched(w, None),
        b2.searched(w, None),
        b1.r == b2.r,
        b1.limits == b2.limits,
        w.consistent(b1.r as int),
        b1.reached(s),
        b1.cost_of(s).at_most(b2.cost_of(s)),
    ensures
        b1.cost_of(s) == b2.cost_of(s),
    decreases b1.cost_of(s).0, b1.cost_of(s).1,
{
    let r = b1.r as int;
    let c = b1.cost_of(s);
    let a = b1.prev_of(s);
    assert(b1.shaped(s));
    lemma_extent_bounded(r);
    if s.d == UNDIRECTED {
        // An undirected state is reached at a free start point, where the other search
        // has it on record too.
        let i = choose|i: int| 0 <= i < w.starts.len() && w.starts[i] == s.p;
        assert(b2.cost_of(SearchState { p: w.starts[i], d: UNDIRECTED }) == c);
    } else {
        // The record of a directed state rests on a cheaper state, from which an edge
        // leads to it: the state one step behind it, or else its predecessor.
        let n = hops(c, b1.cost_of(a), b1.limits);
        let t = if n > 0 {
            back(s)
        } else {
            a
        };
        let k: int = if n > 0 {
            12
        } else if b1.cost_of(a).0 == c.0 {
            6 + s.d
        } else {
            s.d as int
        };
        assert(b1.shaped(a));
        assert(b1.reached(t));
        assert(b1.cost_of(t).less(c));
        if b1.cost_of(t).at_most(b2.cost_of(t)) {
            lemma_exhaustive_cost_agrees(b1, b2, w, t);
        } else {
            assert(b2.reached(t));
            assert(b2.shaped(t));
            lemma_exhaustive_cost_agrees(b2, b1, w, t);
        }
        // The other search dealt with that edge.
        assert(b2.reached(t));
        assert(b2.edge_done(t, k, w));
        assert(edge_target(t, k) == s);
        assert(edge_cost(b2.cost_of(t), k, b2.limits) == c);
    }
}

/// A search that ends with the queue empty leaves a cost field that the setting
/// determines: two such searches on the same grid with the same limits record the
/// same cost for every state, in whatever order they took states of equal cost from
/// their queues.
pub proof fn lemma_exhaustive_search_is_determined(b1: BFS, b2: BFS, w: Scene, s: SearchState)
    requires
        b1.searched(w, None),
        b2.searched(w, None),
        b1.r == b2.r,
        b1.limits == b2.limits,
        w.consistent(b1.r as int),
        s.valid(b1.r as int),
    ensures
        b1.cost_of(s) == b2.cost_of(s),
{
    if b1.cost_of(s).at_most(b2.cost_of(s)) {
        if b1.reached(s) {
            lemma_exhaustive_cost_agrees(b1, b2, w, s);
        }
    } else {
        assert(b2.reached(s));
        lemma_exhaustive_cost_agrees(b2, b1, w, s);
    }
}

} // verus!
