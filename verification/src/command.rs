//! Movement commands.

use crate::cost::Limits;
use crate::point::{P, Vec3};
use vstd::prelude::*;

verus! {

/// A movement instruction for the agent.
#[derive(Debug, PartialEq, Eq, Structural, Clone, Copy)]
pub enum Command {
    /// One straight run by the given displacement.
    SMove(P),
    /// Two straight legs, the first by the first displacement, the second by the second.
    LMove(P, P),
}

impl Command {
    /// Whether every leg of the command lies along one axis and is no longer than its
    /// kind allows: a single run the straight-run limit, each of two legs the leg limit.
    pub open spec fn within(self, lim: Limits) -> bool {
        match self {
            Command::SMove(d) => d@.axial() && d@.length() <= lim.smove,
            Command::LMove(d1, d2) => {
                &&& d1@.axial()
                &&& d1@.length() <= lim.lmove
                &&& d2@.axial()
                &&& d2@.length() <= lim.lmove
            },
        }
    }

    /// Whether the agent passes the point `q` when it carries out the command from
    /// the point `from`.
    pub open spec fn passes(self, from: Vec3, q: Vec3) -> bool {
        match self {
            Command::SMove(d) => q.between(from, from.plus(d@)),
            Command::LMove(d1, d2) => {
                ||| q.between(from, from.plus(d1@))
                ||| q.between(from.plus(d1@), from.plus(d1@).plus(d2@))
            },
        }
    }

    /// The total displacement of the command.
    pub open spec fn shift(self) -> Vec3 {
        match self {
            Command::SMove(d) => d@,
            Command::LMove(d1, d2) => d1@.plus(d2@),
        }
    }
}

/// The point reached from `from` by carrying out `cmds` in order.
pub open spec fn arrival(from: Vec3, cmds: Seq<Command>) -> Vec3
    decreases cmds.len(),
{
    if cmds.len() == 0 {
        from
    } else {
        arrival(from, cmds.drop_last()).plus(cmds.last().shift())
    }
}

/// Whether the agent passes the point `q` when it carries out `cmds` in order from the
/// point `from`.
pub open spec fn swept(from: Vec3, cmds: Seq<Command>, q: Vec3) -> bool
    decreases cmds.len(),
{
    if cmds.len() == 0 {
        q == from
    } else {
        ||| swept(from, cmds.drop_last(), q)
        ||| cmds.last().passes(arrival(from, cmds.drop_last()), q)
    }
}

} // verus!
