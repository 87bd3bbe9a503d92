//! Grid coordinates and the six axis-aligned unit directions.

use vstd::prelude::*;

verus! {

/// A mathematical vector with integer components: the view of a [`P`].
pub struct Vec3 {
    pub x: int,
    pub y: int,
    pub z: int,
}

impl Vec3 {
    /// Componentwise sum.
    pub open spec fn plus(self, o: Vec3) -> Vec3 {
        Vec3 { x: self.x + o.x, y: self.y + o.y, z: self.z + o.z }
    }

    /// Componentwise difference.
    pub open spec fn minus(self, o: Vec3) -> Vec3 {
        Vec3 { x: self.x - o.x, y: self.y - o.y, z: self.z - o.z }
    }

    /// Whether the vector lies along one axis: at most one component is not zero.
    pub open spec fn axial(self) -> bool {
        ||| (self.y == 0 && self.z == 0)
        ||| (self.x == 0 && self.z == 0)
        ||| (self.x == 0 && self.y == 0)
    }

    /// The length of the vector in unit steps: the sum of the magnitudes of its
    /// components.
    pub open spec fn length(self) -> int {
        (if self.x < 0 { -self.x } else { self.x })
        + (if self.y < 0 { -self.y } else { self.y })
        + (if self.z < 0 { -self.z } else { self.z })
    }

    /// Whether the vector lies in the box spanned by `a` and `b`: on the straight line
    /// between them, where they differ along one axis only.
    pub open spec fn between(self, a: Vec3, b: Vec3) -> bool {
        &&& (a.x <= self.x <= b.x || b.x <= self.x <= a.x)
        &&& (a.y <= self.y <= b.y || b.y <= self.y <= a.y)
        &&& (a.z <= self.z <= b.z || b.z <= self.z <= a.z)
    }

    /// Whether every component lies in `[0, r)`.
    pub open spec fn inside(self, r: int) -> bool {
        0 <= self.x < r && 0 <= self.y < r && 0 <= self.z < r
    }
}

/// The unit vector of direction `d`, for `d` in `0..6`; the zero vector otherwise.
pub open spec fn unit(d: int) -> Vec3 {
    if d == 0 {
        Vec3 { x: 1, y: 0, z: 0 }
    } else if d == 1 {
        Vec3 { x: -1, y: 0, z: 0 }
    } else if d == 2 {
        Vec3 { x: 0, y: 1, z: 0 }
    } else if d == 3 {
        Vec3 { x: 0, y: -1, z: 0 }
    } else if d == 4 {
        Vec3 { x: 0, y: 0, z: 1 }
    } else if d == 5 {
        Vec3 { x: 0, y: 0, z: -1 }
    } else {
        Vec3 { x: 0, y: 0, z: 0 }
    }
}

/// The displacement of `n` unit steps in direction `d`.
pub open spec fn run(d: int, n: int) -> Vec3 {
    if d == 0 {
        Vec3 { x: n, y: 0, z: 0 }
    } else if d == 1 {
        Vec3 { x: -n, y: 0, z: 0 }
    } else if d == 2 {
        Vec3 { x: 0, y: n, z: 0 }
    } else if d == 3 {
        Vec3 { x: 0, y: -n, z: 0 }
    } else if d == 4 {
        Vec3 { x: 0, y: 0, z: n }
    } else if d == 5 {
        Vec3 { x: 0, y: 0, z: -n }
    } else {
        Vec3 { x: 0, y: 0, z: 0 }
    }
}

/// A point of the grid, or a displacement between two points.
#[derive(Clone, Copy, Debug, PartialEq, Eq, Structural, Hash)]
pub struct P {
    pub x: i32,
    pub y: i32,
    pub z: i32,
}

impl View for P {
    type V = Vec3;

    open spec fn view(&self) -> Vec3 {
        Vec3 { x: self.x as int, y: self.y as int, z: self.z as int }
    }
}

impl P {
    /// The point with the components of `v`, where they fit the coordinate type.
    pub open spec fn at(v: Vec3) -> P {
        P { x: v.x as i32, y: v.y as i32, z: v.z as i32 }
    }

    /// The point with the given coordinates.
    pub fn new(x: i32, y: i32, z: i32) -> (p: P)
        ensures
            p == (P { x, y, z }),
    {
        P { x, y, z }
    }

    /// Whether the point lies inside the cube of extent `r`.
    pub fn is_valid(&self, r: usize) -> (b: bool)
        ensures
            b == self@.inside(r as int),
    {
        self.x >= 0 && self.y >= 0 && self.z >= 0 && (self.x as usize) < r && (self.y as usize) < r
            && (self.z as usize) < r
    }

    /// Componentwise sum, for operands whose sum fits the coordinate type.
    pub fn plus(self, o: P) -> (p: P)
        requires
            i32::MIN <= self.x + o.x <= i32::MAX,
            i32::MIN <= self.y + o.y <= i32::MAX,
            i32::MIN <= self.z + o.z <= i32::MAX,
        ensures
            p@ == self@.plus(o@),
    {
        P { x: self.x + o.x, y: self.y + o.y, z: self.z + o.z }
    }

    /// Componentwise difference, for operands whose difference fits the coordinate type.
    pub fn minus(self, o: P) -> (p: P)
        requires
            i32::MIN <= self.x - o.x <= i32::MAX,
            i32::MIN <= self.y - o.y <= i32::MAX,
            i32::MIN <= self.z - o.z <= i32::MAX,
        ensures
            p@ == self@.minus(o@),
    {
        P { x: self.x - o.x, y: self.y - o.y, z: self.z - o.z }
    }
}

/// The unit step of direction `d`, in the order in which the search tries the directions.
pub fn dir6(d: usize) -> (v: P)
    requires
        d < 6,
    ensures
        v@ == unit(d as int),
{
    if d == 0 {
        P { x: 1, y: 0, z: 0 }
    } else if d == 1 {
        P { x: -1, y: 0, z: 0 }
    } else if d == 2 {
        P { x: 0, y: 1, z: 0 }
    } else if d == 3 {
        P { x: 0, y: -1, z: 0 }
    } else if d == 4 {
        P { x: 0, y: 0, z: 1 }
    } else {
        P { x: 0, y: 0, z: -1 }
    }
}

} // verus!
