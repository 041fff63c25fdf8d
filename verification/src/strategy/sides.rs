//! The two outcome tokens of a market.
use vstd::prelude::*;

verus! {

/// Direction of a bitcoin move.
#[derive(Clone, Copy, Debug, PartialEq, Eq, Structural)]
pub enum Side {
    Up,
    Down,
}

/// Outcome token that a position holds.
#[derive(Clone, Copy, Debug, PartialEq, Eq, Structural)]
pub enum PositionSide {
    Up,
    Down,
}

impl PositionSide {
    /// The other token.
    pub open spec fn opposite_spec(self) -> PositionSide {
        match self {
            PositionSide::Up => PositionSide::Down,
            PositionSide::Down => PositionSide::Up,
        }
    }

    /// The other token.
    pub fn opposite(self) -> (r: PositionSide)
        ensures
            r == self.opposite_spec(),
    {
        match self {
            PositionSide::Up => PositionSide::Down,
            PositionSide::Down => PositionSide::Up,
        }
    }

    /// The direction that this token pays on.
    pub open spec fn direction_spec(self) -> Side {
        match self {
            PositionSide::Up => Side::Up,
            PositionSide::Down => Side::Down,
        }
    }

    /// The direction that this token pays on.
    pub fn direction(self) -> (r: Side)
        ensures
            r == self.direction_spec(),
    {
        match self {
            PositionSide::Up => Side::Up,
            PositionSide::Down => Side::Down,
        }
    }
}

/// The token that pays on a direction.
pub open spec fn token_of(s: Side) -> PositionSide {
    match s {
        Side::Up => PositionSide::Up,
        Side::Down => PositionSide::Down,
    }
}

impl From<Side> for PositionSide {
    fn from(s: Side) -> (r: Self) {
        match s {
            Side::Up => PositionSide::Up,
            Side::Down => PositionSide::Down,
        }
    }
}

impl vstd::std_specs::convert::FromSpecImpl<Side> for PositionSide {
    open spec fn obeys_from_spec() -> bool {
        true
    }

    open spec fn from_spec(s: Side) -> PositionSide {
        token_of(s)
    }
}

/// There are two tokens, and each is the other of the other; a direction's token pays on
/// that direction.
pub proof fn two_tokens_are_each_other_s_opposite(side: PositionSide, direction: Side)
    ensures
        side.opposite_spec() != side,
        side.opposite_spec().opposite_spec() == side,
        token_of(Side::Up) == PositionSide::Up,
        token_of(Side::Down) == PositionSide::Down,
        token_of(direction).direction_spec() == direction,
        token_of(side.direction_spec()) == side,
{
}

} // verus!
