//! What the referee asks of the maze.
use crate::grid::Position;
use crate::player::FullPlayerInfo;
use crate::state::State;
use vstd::prelude::*;

verus! {

#[derive(Clone, Copy, Debug, PartialEq, Eq, Structural)]
pub enum CompassDirection {
    North,
    South,
    East,
    West,
}

/// The push of one row or column of the maze by one tile.
#[derive(Clone, Copy, Debug, PartialEq, Eq, Structural)]
pub struct Slide {
    pub index: usize,
    pub direction: CompassDirection,
}

/// A maze of sliding tiles, with one tile to spare.
///
/// The referee applies `rotate_spare`, `slide_and_insert` and `slide_position` only for a move that
/// `is_valid_move` has accepted.
pub trait Board: Clone {
    /// The board that a game starts on when nobody brings one.
    fn default_board(cols: u32, rows: u32) -> Self;

    /// The slide of this board that pushes the row or column `index` in `direction`, if it has one.
    fn new_slide(&self, index: usize, direction: CompassDirection) -> Option<Slide>;

    /// The tiles that can be a player's home.
    fn possible_homes(&self) -> Vec<Position>;

    /// The tiles that can be a goal, in the order in which they are handed out.
    fn possible_goals(&self) -> Vec<Position>;

    /// Whether the current player of `state` may turn the spare tile `rotations` times, make the
    /// slide, and then walk to `destination`.
    fn is_valid_move(
        state: &State<Self, FullPlayerInfo>,
        slide: Slide,
        rotations: usize,
        destination: Position,
    ) -> bool;

    /// This board, with its spare tile turned.
    fn rotate_spare(&self, rotations: usize) -> Self;

    /// This board once the slide is made and the spare tile is pushed in.
    fn slide_and_insert(&self, slide: Slide) -> Self;

    /// Where the slide carries a player who stands on the tile `at` of this board.
    fn slide_position(&self, slide: Slide, at: Position) -> Position;
}

} // verus!
