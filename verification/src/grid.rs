//! Tiles and the distance between them.
use vstd::prelude::*;

verus! {

/// A tile of the grid, by its two coordinates.
pub type Position = (usize, usize);

/// Whether two positions are the same tile.
pub fn same_tile(a: &Position, b: &Position) -> (same: bool)
    ensures
        same == (*a == *b),
{
    a.0 == b.0 && a.1 == b.1
}

/// How far apart two coordinates are.
pub open spec fn gap(a: usize, b: usize) -> nat {
    if a >= b {
        (a - b) as nat
    } else {
        (b - a) as nat
    }
}

/// The square of the Euclidean distance between two tiles.
pub open spec fn squared_distance(a: Position, b: Position) -> nat {
    gap(a.0, b.0) * gap(a.0, b.0) + gap(a.1, b.1) * gap(a.1, b.1)
}

/// One more than the largest `u128`.
pub open spec fn wide_base() -> nat {
    (u128::MAX + 1) as nat
}

/// A squared distance. The sum of two squares of `usize` can exceed a `u128` by one bit, which
/// `carry` holds.
#[derive(Clone, Copy, Debug, PartialEq, Eq, Structural)]
pub struct Distance {
    pub carry: bool,
    pub low: u128,
}

impl View for Distance {
    type V = nat;

    open spec fn view(&self) -> nat {
        self.low as nat + if self.carry {
            wide_base()
        } else {
            0
        }
    }
}

impl Distance {
    /// Whether this distance is the smaller one.
    pub fn is_less(&self, other: &Distance) -> (less: bool)
        ensures
            less == (self@ < other@),
    {
        if self.carry == other.carry {
            self.low < other.low
        } else {
            other.carry
        }
    }

    /// Whether the two distances are the same.
    pub fn is_same(&self, other: &Distance) -> (same: bool)
        ensures
            same == (self@ == other@),
    {
        self.carry == other.carry && self.low == other.low
    }
}

fn squared_gap(a: usize, b: usize) -> (square: u128)
    ensures
        square == gap(a, b) * gap(a, b),
{
    let side: u128 = if a >= b {
        (a - b) as u128
    } else {
        (b - a) as u128
    };
    assert(side * side <= 0xffff_ffff_ffff_ffff * 0xffff_ffff_ffff_ffff) by (nonlinear_arith)
        requires
            side <= 0xffff_ffff_ffff_ffff,
    ;
    side * side
}

/// The squared Euclidean distance between two tiles.
pub fn squared_euclidian_distance(a: &Position, b: &Position) -> (distance: Distance)
    ensures
        distance@ == squared_distance(*a, *b),
{
    let across: u128 = squared_gap(a.0, b.0);
    let down: u128 = squared_gap(a.1, b.1);
    let low: u128 = across.wrapping_add(down);
    Distance { carry: low < across, low }
}

} // verus!
