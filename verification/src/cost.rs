//! The two-component cost of a search state and its lexicographic order.

use std::cmp::Ordering;
use vstd::prelude::*;
use vstd::std_specs::cmp::PartialOrdSpecImpl;

verus! {

/// Longest straight run, in unit steps, that one command may usually cover.
pub const LIMIT_SMOVE: i32 = 15;

/// Longest leg, in unit steps, that a command made of two legs may usually have.
pub const LIMIT_LMOVE: i32 = 5;

/// The run limits of the two kinds of command.
#[derive(Debug, PartialEq, Eq, Structural, Clone, Copy)]
pub struct Limits {
    /// Longest straight run, in unit steps, that one command may cover.
    pub smove: i32,
    /// Longest leg, in unit steps, of a command made of two legs.
    pub lmove: i32,
}

impl Limits {
    /// Whether a search can work with the limits: a second leg begins with the run
    /// length that leaves it the leg limit, and that length must exceed the leg limit,
    /// so that no run counts both as a first and as a second leg.
    pub open spec fn wf(self) -> bool {
        0 <= self.lmove && 2 * self.lmove < self.smove
    }

    /// The run length with which the second leg of a command begins: what is left of
    /// the straight-run limit is the leg limit.
    pub open spec fn base(self) -> int {
        self.smove - self.lmove
    }

    /// The usual limits.
    pub open spec fn standard() -> Limits {
        Limits { smove: LIMIT_SMOVE, lmove: LIMIT_LMOVE }
    }

    /// The usual limits.
    #[verifier::when_used_as_spec(standard)]
    pub fn usual() -> (l: Limits)
        ensures
            l == Limits::standard(),
            l.wf(),
    {
        Limits { smove: LIMIT_SMOVE, lmove: LIMIT_LMOVE }
    }
}

/// The cost of a state: the number of commands issued so far, then the number of unit
/// steps already taken in the current run.
#[derive(Debug, PartialEq, Eq, Structural, Clone, Copy, Ord)]
pub struct C(pub i32, pub i32);

impl C {
    /// The cost recorded for a state that the search has not reached.
    pub open spec fn infinity() -> C {
        C(i32::MAX, i32::MAX)
    }

    /// The cost recorded for a state that the search has not reached.
    #[verifier::when_used_as_spec(infinity)]
    pub fn max() -> (c: C)
        ensures
            c == C::infinity(),
    {
        C(i32::MAX, i32::MAX)
    }

    /// Strict lexicographic order: fewer commands first, then the shorter run.
    pub open spec fn less(self, o: C) -> bool {
        self.0 < o.0 || (self.0 == o.0 && self.1 < o.1)
    }

    /// Lexicographic order.
    pub open spec fn at_most(self, o: C) -> bool {
        self.less(o) || self == o
    }

    /// Whether this is the cost of a state that was reached.
    pub open spec fn finite(self) -> bool {
        self != C::infinity()
    }
}

impl PartialOrd for C {
    fn partial_cmp(&self, other: &C) -> (o: Option<Ordering>) {
        if self.0 < other.0 {
            Some(Ordering::Less)
        } else if self.0 > other.0 {
            Some(Ordering::Greater)
        } else if self.1 < other.1 {
            Some(Ordering::Less)
        } else if self.1 > other.1 {
            Some(Ordering::Greater)
        } else {
            Some(Ordering::Equal)
        }
    }
}

impl PartialOrdSpecImpl for C {
    open spec fn obeys_partial_cmp_spec() -> bool {
        true
    }

    open spec fn partial_cmp_spec(&self, other: &C) -> Option<Ordering> {
        if self.less(*other) {
            Some(Ordering::Less)
        } else if other.less(*self) {
            Some(Ordering::Greater)
        } else {
            Some(Ordering::Equal)
        }
    }
}

} // verus!
