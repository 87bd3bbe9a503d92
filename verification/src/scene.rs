//! What one search is run against: the caller's two predicates, as mathematical
//! predicates, and the start points.

use crate::point::P;
use vstd::prelude::*;

verus! {

/// The points at which the executable predicate `f` may answer `true`.
pub open spec fn accepts<F: Fn(P) -> bool>(f: F) -> spec_fn(P) -> bool {
    |p: P| f.ensures((p,), true)
}

/// The points at which the executable predicate `f` may answer `false`.
pub open spec fn rejects<F: Fn(P) -> bool>(f: F) -> spec_fn(P) -> bool {
    |p: P| f.ensures((p,), false)
}

/// Whether `f` may be called at every point of the grid of extent `r` and has one
/// answer there: it cannot answer both `true` and `false` at the same point.
pub open spec fn decides<F: Fn(P) -> bool>(f: F, r: int) -> bool {
    &&& forall|p: P| p@.inside(r) ==> #[trigger] f.requires((p,))
    &&& forall|p: P|
        #![trigger f.ensures((p,), true)]
        #![trigger f.ensures((p,), false)]
        p@.inside(r) ==> !(f.ensures((p,), true) && f.ensures((p,), false))
}

/// The setting of one search.
pub struct Scene {
    /// The points that the occupancy predicate may call blocked.
    pub blocked: spec_fn(P) -> bool,
    /// The points that the occupancy predicate may call free.
    pub free: spec_fn(P) -> bool,
    /// The points that the goal predicate may accept.
    pub goal: spec_fn(P) -> bool,
    /// The points that the goal predicate may turn down.
    pub miss: spec_fn(P) -> bool,
    /// The points from which the search starts.
    pub starts: Seq<P>,
}

impl Scene {
    /// The setting made of an occupancy predicate, start points and a goal predicate.
    pub open spec fn of<G: Fn(P) -> bool, H: Fn(P) -> bool>(
        filled: G,
        starts: Seq<P>,
        goal: H,
    ) -> Scene {
        Scene {
            blocked: accepts(filled),
            free: rejects(filled),
            goal: accepts(goal),
            miss: rejects(goal),
            starts,
        }
    }

    /// No point of the grid of extent `r` is both blocked and free, and none is both a
    /// goal and a miss.
    pub open spec fn consistent(self, r: int) -> bool {
        &&& forall|p: P|
            #![trigger (self.blocked)(p)]
            #![trigger (self.free)(p)]
            p@.inside(r) ==> !((self.blocked)(p) && (self.free)(p))
        &&& forall|p: P|
            #![trigger (self.goal)(p)]
            #![trigger (self.miss)(p)]
            p@.inside(r) ==> !((self.goal)(p) && (self.miss)(p))
    }
}

/// Whether `q` is one unit step away from `p` along an axis.
pub open spec fn adjacent(p: P, q: P) -> bool {
    let dx = q.x - p.x;
    let dy = q.y - p.y;
    let dz = q.z - p.z;
    ||| (dy == 0 && dz == 0 && (dx == 1 || dx == -1))
    ||| (dx == 0 && dz == 0 && (dy == 1 || dy == -1))
    ||| (dx == 0 && dy == 0 && (dz == 1 || dz == -1))
}

impl Scene {
    /// Whether `path` leads from a start point, by unit steps, through free points of
    /// the grid of extent `r` only.
    pub open spec fn walk(self, r: int, path: Seq<P>) -> bool {
        &&& path.len() > 0
        &&& self.starts.contains(path[0])
        &&& forall|i: int| 0 <= i < path.len() ==> (#[trigger] path[i])@.inside(r) && (self.free)(path[i])
        &&& forall|i: int| 1 <= i < path.len() ==> adjacent(path[i - 1], #[trigger] path[i])
    }

    /// Whether some walk from a start point ends at `p`.
    pub open spec fn walkable(self, r: int, p: P) -> bool {
        exists|path: Seq<P>| #[trigger] self.walk(r, path) && path.last() == p
    }
}

} // verus!
