//! Proofs that each step of a search keeps its invariant.

use crate::bfs::BFS;
use crate::cost::C;
use crate::model::{back, edge_cost, edge_open, edge_target, hops, EDGES};
use crate::scene::Scene;
use crate::state::{
    lemma_extent_bounded, lemma_index_bounds, lemma_index_injective, state_count, HeapState, SearchState, UNDIRECTED,
};
use vstd::prelude::*;

verus! {

impl BFS {
    /// Whether the planner is what `pre` becomes when entry `e` leaves its queue.
    pub open spec fn took(&self, pre: &BFS, e: HeapState) -> bool {
        &&& self.r == pre.r
        &&& self.limits == pre.limits
        &&& self.cost@ == pre.cost@
        &&& self.prev@ == pre.prev@
        &&& self.que.wf()
        &&& pre.que@.count(e) > 0
        &&& self.que@ == pre.que@.remove(e)
        &&& forall|x: HeapState| pre.que@.count(x) > 0 ==> e.c.at_most(x.c)
    }

    /// Whether offering state `next` the cost `cand` changes its record.
    pub open spec fn improves(&self, next: SearchState, cand: C, w: Scene) -> bool {
        next.valid(self.r as int) && (w.free)(next.p) && cand.less(self.cost_of(next))
    }

    /// Whether the offer of cost `cand` with predecessor `anchor` to state `next` is one
    /// that a search may make while its last state taken from the queue had cost `low`
    /// and `bound` states were settled.
    pub open spec fn fits(
        &self,
        next: SearchState,
        cand: C,
        anchor: SearchState,
        low: C,
        w: Scene,
        bound: nat,
    ) -> bool {
        &&& low.less(cand)
        &&& self.improves(next, cand, w) ==> {
            &&& self.grounded(next, cand, anchor)
            &&& self.rests_below(next, cand, anchor, low, w)
            &&& 0 <= cand.0 <= bound
            &&& next.d == UNDIRECTED ==> w.starts.contains(next.p)
        }
    }
}

/// What the tables hold for a state after an offer.
pub proof fn lemma_lookup_after(
    pre: BFS,
    post: BFS,
    next: SearchState,
    cand: C,
    anchor: SearchState,
    w: Scene,
    u: SearchState,
)
    requires
        pre.wf(),
        post.relaxed_from(&pre, next, cand, anchor, w),
        u.valid(pre.r as int),
    ensures
        post.cost_of(u) == if pre.improves(next, cand, w) && u == next {
            cand
        } else {
            pre.cost_of(u)
        },
        post.prev_of(u) == if pre.improves(next, cand, w) && u == next {
            anchor
        } else {
            pre.prev_of(u)
        },
{
    let r = pre.r as int;
    lemma_index_bounds(u, r);
    if pre.improves(next, cand, w) {
        lemma_index_bounds(next, r);
        if u != next {
            if u.index(r) == next.index(r) {
                lemma_index_injective(u, next, r);
            }
        }
    }
}

/// An offer that a search may make keeps what holds of every state, leaves the record
/// of every settled state as it is, and settles no state.
pub proof fn lemma_offer_keeps_state(
    pre: BFS,
    post: BFS,
    next: SearchState,
    cand: C,
    anchor: SearchState,
    low: C,
    cur: SearchState,
    w: Scene,
    done: Set<int>,
    s: SearchState,
)
    requires
        pre.searching(low, cur, w, done),
        post.relaxed_from(&pre, next, cand, anchor, w),
        pre.fits(next, cand, anchor, low, w, done.len()),
        s.valid(pre.r as int),
    ensures
        post.sound(s, low, w, done.len()),
        post.settled(s) <==> pre.settled(s),
        pre.settled(s) ==> post.cost_of(s) == pre.cost_of(s) && post.prev_of(s) == pre.prev_of(s),
        post.cost_of(s).at_most(pre.cost_of(s)),
{
    let hit = pre.improves(next, cand, w);
    let fresh = HeapState { c: cand, s: next };
    broadcast use vstd::multiset::group_multiset_axioms;

    assert(pre.sound(s, low, w, done.len()));
    lemma_lookup_after(pre, post, next, cand, anchor, w, s);
    if hit && pre.que@.count(fresh) > 0 {
        // An entry that waits costs no less than what is on record for its state.
        assert(pre.waiting(fresh, low));
    }
    // The states that the record of `s` rests on cost at most `low`, so the offer,
    // which is dearer, leaves their records as they are.
    let c = post.cost_of(s);
    let a = post.prev_of(s);
    if c.finite() && s.d < UNDIRECTED {
        lemma_lookup_after(pre, post, next, cand, anchor, w, a);
        if hops(c, pre.cost_of(a), pre.limits) > 0 {
            lemma_lookup_after(pre, post, next, cand, anchor, w, back(s));
        }
    }
}

/// An edge of a settled state that has been dealt with stays so after an offer that a
/// search may make.
pub proof fn lemma_offer_keeps_edge(
    pre: BFS,
    post: BFS,
    next: SearchState,
    cand: C,
    anchor: SearchState,
    low: C,
    cur: SearchState,
    w: Scene,
    done: Set<int>,
    t: SearchState,
    k: int,
)
    requires
        pre.searching(low, cur, w, done),
        post.relaxed_from(&pre, next, cand, anchor, w),
        pre.fits(next, cand, anchor, low, w, done.len()),
        pre.settled(t),
        pre.edge_done(t, k, w),
    ensures
        post.edge_done(t, k, w),
{
    lemma_offer_keeps_state(pre, post, next, cand, anchor, low, cur, w, done, t);
    let n = edge_target(t, k);
    if n.valid(pre.r as int) {
        lemma_offer_keeps_state(pre, post, next, cand, anchor, low, cur, w, done, n);
    }
}

/// An offer that a search may make keeps the invariant of the search, and afterwards
/// the state it was made to is blocked or costs at most what was offered.
pub proof fn lemma_offer_keeps(
    pre: BFS,
    post: BFS,
    next: SearchState,
    cand: C,
    anchor: SearchState,
    low: C,
    cur: SearchState,
    w: Scene,
    done: Set<int>,
)
    requires
        pre.searching(low, cur, w, done),
        post.relaxed_from(&pre, next, cand, anchor, w),
        pre.fits(next, cand, anchor, low, w, done.len()),
    ensures
        post.searching(low, cur, w, done),
        next.valid(pre.r as int) ==> (w.blocked)(next.p) || post.cost_of(next).at_most(cand),
        forall|k: int|
            cur.valid(pre.r as int) && pre.edge_done(cur, k, w) ==> #[trigger] post.edge_done(
                cur,
                k,
                w,
            ),
        forall|n: int| pre.seeded(w, n) ==> #[trigger] post.seeded(w, n),
        cur.valid(pre.r as int) ==> post.prev_of(cur) == pre.prev_of(cur),
{
    let r = pre.r as int;
    let fresh = HeapState { c: cand, s: next };
    broadcast use vstd::multiset::group_multiset_axioms;

    assert forall|s: SearchState| s.valid(r) implies #[trigger] post.sound(
        s,
        low,
        w,
        done.len(),
    ) by {
        lemma_offer_keeps_state(pre, post, next, cand, anchor, low, cur, w, done, s);
    }
    assert forall|e: HeapState| post.que@.count(e) > 0 implies #[trigger] post.waiting(e, low) by {
        if e == fresh && pre.improves(next, cand, w) {
            lemma_lookup_after(pre, post, next, cand, anchor, w, next);
        } else {
            assert(pre.waiting(e, low));
            lemma_offer_keeps_state(pre, post, next, cand, anchor, low, cur, w, done, e.s);
        }
    }
    assert forall|s: SearchState| #[trigger] post.settled(s) && s != cur implies post.closed(
        s,
        low,
        w,
    ) by {
        lemma_offer_keeps_state(pre, post, next, cand, anchor, low, cur, w, done, s);
        assert forall|k: int| 0 <= k < EDGES implies #[trigger] post.edge_done(s, k, w) by {
            lemma_offer_keeps_edge(pre, post, next, cand, anchor, low, cur, w, done, s, k);
        }
    }
    if cur.valid(r) {
        lemma_offer_keeps_state(pre, post, next, cand, anchor, low, cur, w, done, cur);
    }
    assert forall|s: SearchState| s.valid(r) implies (#[trigger] post.settled(s)
        <==> done.contains(s.index(r))) by {
        lemma_offer_keeps_state(pre, post, next, cand, anchor, low, cur, w, done, s);
    }
    if next.valid(r) {
        lemma_lookup_after(pre, post, next, cand, anchor, w, next);
    }
    assert forall|k: int| cur.valid(r) && pre.edge_done(cur, k, w) implies #[trigger] post.edge_done(
        cur,
        k,
        w,
    ) by {
        lemma_offer_keeps_edge(pre, post, next, cand, anchor, low, cur, w, done, cur, k);
    }
    assert forall|n: int| pre.seeded(w, n) implies #[trigger] post.seeded(w, n) by {
        assert forall|i: int|
            0 <= i < n && (#[trigger] w.starts[i])@.inside(r) implies (w.blocked)(w.starts[i])
            || post.cost_of(SearchState { p: w.starts[i], d: UNDIRECTED }) == C(
            0,
            pre.limits.smove,
        ) by {
            let s = SearchState { p: w.starts[i], d: UNDIRECTED };
            lemma_lookup_after(pre, post, next, cand, anchor, w, s);
        }
    }
}

/// Taking an entry whose cost is no longer the one on record keeps the invariant of
/// the search.
pub proof fn lemma_take_stale(pre: BFS, post: BFS, e: HeapState, low: C, w: Scene, done: Set<int>)
    requires
        pre.searching(low, SearchState::nowhere(), w, done),
        post.took(&pre, e),
        e.c != pre.cost_of(e.s),
    ensures
        post.searching(low, SearchState::nowhere(), w, done),
{
    let r = pre.r as int;
    let cur = SearchState::nowhere();
    broadcast use vstd::multiset::group_multiset_axioms;

    assert forall|s: SearchState| s.valid(r) implies #[trigger] post.sound(
        s,
        low,
        w,
        done.len(),
    ) by {
        assert(pre.sound(s, low, w, done.len()));
    }
    assert forall|x: HeapState| post.que@.count(x) > 0 implies #[trigger] post.waiting(x, low) by {
        assert(pre.waiting(x, low));
    }
    assert forall|s: SearchState| #[trigger] post.settled(s) && s != cur implies post.closed(
        s,
        low,
        w,
    ) by {
        assert(pre.settled(s));
        assert forall|k: int| 0 <= k < EDGES implies #[trigger] post.edge_done(s, k, w) by {
            assert(pre.edge_done(s, k, w));
        }
    }
    assert forall|s: SearchState| s.valid(r) implies (#[trigger] post.settled(s)
        <==> done.contains(s.index(r))) by {
        assert(pre.settled(s) <==> done.contains(s.index(r)));
    }
}

/// Taking a cheapest entry whose cost is the one on record settles its state: the
/// invariant of the search holds with that cost as the last one taken and that state
/// as the one whose edges are to be dealt with.
pub proof fn lemma_take_live(pre: BFS, post: BFS, e: HeapState, low: C, w: Scene, done: Set<int>)
    requires
        pre.searching(low, SearchState::nowhere(), w, done),
        post.took(&pre, e),
        e.c == pre.cost_of(e.s),
    ensures
        post.searching(e.c, e.s, w, done.insert(e.s.index(pre.r as int))),
        e.s.valid(pre.r as int),
        !done.contains(e.s.index(pre.r as int)),
        done.insert(e.s.index(pre.r as int)).len() == done.len() + 1,
        done.len() + 1 <= state_count(pre.r as int),
        low.at_most(e.c),
{
    let r = pre.r as int;
    let s0 = e.s;
    let more = done.insert(s0.index(r));
    broadcast use vstd::multiset::group_multiset_axioms;

    assert(pre.waiting(e, low));
    assert(pre.sound(s0, low, w, done.len()));
    assert(pre.settled(s0) <==> done.contains(s0.index(r)));
    lemma_index_bounds(s0, r);
    assert(more.len() <= state_count(r)) by {
        vstd::set_lib::lemma_int_range(0, state_count(r));
        vstd::set_lib::lemma_len_subset(more, vstd::set_lib::set_int_range(0, state_count(r)));
    }
    assert forall|s: SearchState| s.valid(r) implies #[trigger] post.sound(
        s,
        e.c,
        w,
        more.len(),
    ) by {
        assert(pre.sound(s, low, w, done.len()));
    }
    assert forall|x: HeapState| post.que@.count(x) > 0 implies #[trigger] post.waiting(x, e.c) by {
        assert(pre.waiting(x, low));
    }
    assert forall|s: SearchState| #[trigger] post.settled(s) && s != s0 implies post.closed(
        s,
        e.c,
        w,
    ) by {
        assert(pre.settled(s));
        assert forall|k: int| 0 <= k < EDGES implies #[trigger] post.edge_done(s, k, w) by {
            assert(pre.edge_done(s, k, w));
        }
    }
    assert forall|s: SearchState| s.valid(r) implies (#[trigger] post.settled(s) <==> more.contains(
        s.index(r),
    )) by {
        assert(pre.settled(s) <==> done.contains(s.index(r)));
        if s != s0 {
            if s.index(r) == s0.index(r) {
                lemma_index_injective(s, s0, r);
            }
        }
    }
}

/// Once every edge of the state whose edges were being dealt with has been dealt with,
/// and its point is no goal, the search has left it.
pub proof fn lemma_leave(pre: BFS, low: C, cur: SearchState, w: Scene, done: Set<int>)
    requires
        pre.searching(low, cur, w, done),
        cur.valid(pre.r as int),
        (w.miss)(cur.p),
        pre.expanded(cur, w),
    ensures
        pre.searching(low, SearchState::nowhere(), w, done),
{
    assert(forall|s: SearchState| #[trigger]
        pre.settled(s) && s != SearchState::nowhere() ==> pre.closed(s, low, w));
}

/// A planner with nothing on record satisfies the invariant of a search before its
/// first step.
pub proof fn lemma_fresh_start(b: BFS, w: Scene)
    requires
        b.fresh(),
        w.consistent(b.r as int),
    ensures
        b.searching(C(0, 0), SearchState::nowhere(), w, Set::<int>::empty()),
        b.seeded(w, 0),
{
    let r = b.r as int;
    let low = C(0, 0);
    broadcast use vstd::multiset::group_multiset_axioms;

    assert forall|e: HeapState| b.que@.count(e) == 0 by {
        if b.que@.count(e) > 0 {
            assert(b.que@.len() > 0);
        }
    }
    assert forall|s: SearchState| s.valid(r) implies #[trigger] b.sound(s, low, w, 0) by {
        lemma_index_bounds(s, r);
    }
    assert forall|s: SearchState| s.valid(r) implies (#[trigger] b.settled(s) <==> Set::<
        int,
    >::empty().contains(s.index(r))) by {
        lemma_index_bounds(s, r);
    }
    assert forall|s: SearchState| #[trigger]
        b.settled(s) && s != SearchState::nowhere() implies b.closed(s, low, w) by {
        lemma_index_bounds(s, r);
    }
}

/// When the queue runs empty, the search has left every reached state.
pub proof fn lemma_exhausted(b: BFS, low: C, w: Scene, done: Set<int>)
    requires
        b.searching(low, SearchState::nowhere(), w, done),
        b.seeded(w, w.starts.len() as int),
        b.que@.len() == 0,
    ensures
        b.searched(w, None),
{
    let r = b.r as int;
    broadcast use vstd::multiset::group_multiset_axioms;

    assert forall|s: SearchState| s.valid(r) implies #[trigger] b.shaped(s) by {
        assert(b.sound(s, low, w, done.len()));
    }
    lemma_done_bounded(b, low, SearchState::nowhere(), w, done);
    assert forall|s: SearchState| #[trigger] b.reached(s) implies (w.free)(s.p) && b.cost_of(s).0
        <= state_count(r) && (s.d == UNDIRECTED ==> w.starts.contains(s.p)) && (w.miss)(s.p)
        && b.expanded(s, w) by {
        assert(b.sound(s, low, w, done.len()));
        assert(b.settled(s));
    }
}

/// When the state taken from the queue stands on a goal, it is the cheapest state
/// that the search had not left.
pub proof fn lemma_goal_found(b: BFS, low: C, cur: SearchState, w: Scene, done: Set<int>)
    requires
        b.searching(low, cur, w, done),
        b.seeded(w, w.starts.len() as int),
        cur.valid(b.r as int),
        (w.goal)(cur.p),
    ensures
        b.searched(w, Some(cur.p)),
        b.found(cur, w),
{
    let r = b.r as int;
    assert forall|s: SearchState| s.valid(r) implies #[trigger] b.shaped(s) by {
        assert(b.sound(s, low, w, done.len()));
    }
    lemma_done_bounded(b, low, cur, w, done);
    assert forall|s: SearchState| #[trigger] b.reached(s) implies (w.free)(s.p) && b.cost_of(s).0
        <= state_count(r) && (s.d == UNDIRECTED ==> w.starts.contains(s.p)) by {
        assert(b.sound(s, low, w, done.len()));
    }
    assert forall|t: SearchState| #[trigger]
        b.reached(t) && b.cost_of(t).less(b.cost_of(cur)) implies (w.miss)(t.p) && b.expanded(
        t,
        w,
    ) by {
        if b.que@.count(b.entry(t)) > 0 {
            assert(b.waiting(b.entry(t), low));
        }
        assert(b.settled(t));
    }
    assert forall|t: SearchState| t.valid(r) implies #[trigger] b.rests_below(
        t,
        b.cost_of(t),
        b.prev_of(t),
        b.cost_of(cur),
        w,
    ) by {
        assert(b.sound(t, low, w, done.len()));
    }
    assert(b.found(SearchState { p: cur.p, d: cur.d }, w));
    assert(exists|d: usize| #[trigger] b.found(SearchState { p: cur.p, d }, w));
}

/// No more states are settled than the grid has.
pub proof fn lemma_done_bounded(b: BFS, low: C, cur: SearchState, w: Scene, done: Set<int>)
    requires
        b.searching(low, cur, w, done),
    ensures
        done.len() <= state_count(b.r as int),
{
    vstd::set_lib::lemma_int_range(0, state_count(b.r as int));
    vstd::set_lib::lemma_len_subset(done, vstd::set_lib::set_int_range(0, state_count(b.r as int)));
}

/// What an edge of the state whose edges are being dealt with offers is an offer that
/// the search may make.
pub proof fn lemma_edge_fits(b: BFS, low: C, cur: SearchState, w: Scene, done: Set<int>, k: int)
    requires
        b.searching(low, cur, w, done),
        cur.valid(b.r as int),
        (w.miss)(cur.p),
        0 <= k < EDGES,
        edge_open(cur, low, k, b.limits),
    ensures
        b.fits(
            edge_target(cur, k),
            edge_cost(low, k, b.limits),
            b.edge_anchor(cur, k),
            low,
            w,
            done.len(),
        ),
        edge_target(cur, k).d < UNDIRECTED,
{
    assert(b.sound(cur, low, w, done.len()));
    lemma_done_bounded(b, low, cur, w, done);
    lemma_extent_bounded(b.r as int);
}

} // verus!
