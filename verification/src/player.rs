//! The players: what is known of them, and how they are spoken to.
use crate::board::Slide;
use crate::grid::Position;
use crate::state::State;
use vstd::prelude::*;

verus! {

/// An avatar's color.
#[derive(Clone, Copy, Debug, PartialEq, Eq, Structural)]
pub struct Color {
    pub red: u8,
    pub green: u8,
    pub blue: u8,
}

/// What everybody may know of a player.
#[derive(Clone, Copy, Debug, PartialEq, Eq)]
pub struct PubPlayerInfo {
    pub home: Position,
    pub position: Position,
    pub color: Color,
}

/// All that the referee knows of a player. The goal is between the two of them.
#[derive(Clone, Copy, Debug, PartialEq, Eq)]
pub struct FullPlayerInfo {
    pub home: Position,
    pub position: Position,
    pub goal: Position,
    pub goals_reached: usize,
    pub color: Color,
}

impl FullPlayerInfo {
    /// The part that everybody may know.
    pub open spec fn spec_public(self) -> PubPlayerInfo {
        PubPlayerInfo { home: self.home, position: self.position, color: self.color }
    }

    /// The same player, on another tile.
    pub open spec fn at(self, position: Position) -> FullPlayerInfo {
        FullPlayerInfo { position, ..self }
    }

    /// The same player, with one more goal reached and `goal` to look for next.
    pub open spec fn awarded(self, goal: Position) -> FullPlayerInfo {
        FullPlayerInfo { goal, goals_reached: (self.goals_reached + 1) as usize, ..self }
    }

    /// A player who has not reached any goal yet.
    pub fn new(home: Position, position: Position, goal: Position, color: Color) -> (info: Self)
        ensures
            info == (FullPlayerInfo { home, position, goal, goals_reached: 0, color }),
    {
        FullPlayerInfo { home, position, goal, goals_reached: 0, color }
    }

    /// The part that everybody may know.
    pub fn public(&self) -> (info: PubPlayerInfo)
        ensures
            info == self.spec_public(),
    {
        PubPlayerInfo { home: self.home, position: self.position, color: self.color }
    }

    /// Counts a goal as reached and sets the next one.
    pub fn award(&mut self, goal: Position)
        requires
            old(self).goals_reached < usize::MAX,
        ensures
            *final(self) == old(self).awarded(goal),
    {
        self.goals_reached = self.goals_reached + 1;
        self.goal = goal;
    }
}

/// A turn: how often to rotate the spare tile, the slide that pushes it in, and where to walk then.
#[derive(Clone, Copy, Debug, PartialEq, Eq)]
pub struct PlayerMove {
    pub slide: Slide,
    pub rotations: usize,
    pub destination: Position,
}

/// What a player wants to do with a turn; `None` is to pass.
pub type PlayerAction = Option<PlayerMove>;

/// Why a player could not be spoken to.
#[derive(Clone, Debug, PartialEq, Eq)]
pub enum PlayerApiError {
    /// The connection failed.
    Io(String),
    /// What came back could not be read.
    Json(String),
    /// Anything else.
    Other(String),
}

pub type PlayerApiResult<T> = Result<T, PlayerApiError>;

/// How the referee speaks to a player. An error is misbehaviour.
pub trait PlayerApi<B> {
    /// The player's name.
    fn name(&self) -> PlayerApiResult<String>;

    /// Asks the player for a board of so many columns and rows to play on.
    fn propose_board0(&self, cols: u32, rows: u32) -> PlayerApiResult<B>;

    /// Tells the player of the tile to reach next and, at the start of a game, of the game.
    fn setup(&self, state: Option<State<B, PubPlayerInfo>>, goal: Position) -> PlayerApiResult<()>;

    /// Asks the player for a turn.
    fn take_turn(&self, state: State<B, PubPlayerInfo>) -> PlayerApiResult<PlayerAction>;

    /// Tells the player how the game ended for them.
    fn won(&self, did_win: bool) -> PlayerApiResult<()>;
}

/// A player at the table: the line to them, and what the referee knows of them.
pub struct Player<'a, A: ?Sized> {
    pub api: &'a A,
    pub info: FullPlayerInfo,
}

impl<'a, A: ?Sized> Copy for Player<'a, A> {

}

impl<'a, A: ?Sized> Clone for Player<'a, A> {
    fn clone(&self) -> (player: Self)
        ensures
            player == *self,
    {
        *self
    }
}

impl<'a, A: ?Sized> Player<'a, A> {
    pub fn new(api: &'a A, info: FullPlayerInfo) -> (player: Self)
        ensures
            player == (Player { api, info }),
    {
        Player { api, info }
    }

    /// The same player, on another tile.
    pub open spec fn at(self, position: Position) -> Player<'a, A> {
        Player { api: self.api, info: self.info.at(position) }
    }

    /// The same player, with one more goal reached and `goal` to look for next.
    pub open spec fn awarded(self, goal: Position) -> Player<'a, A> {
        Player { api: self.api, info: self.info.awarded(goal) }
    }
}

} // verus!
