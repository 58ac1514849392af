//! The onlookers of a game.
use crate::player::FullPlayerInfo;
use crate::state::State;
use vstd::prelude::*;

verus! {

/// Someone who watches a game. Nothing depends on how an observer takes it.
pub trait Observer<B> {
    /// Shows the observer the game as it now stands.
    fn recieve_state(&self, state: State<B, FullPlayerInfo>);

    /// Tells the observer that the game is over.
    fn game_over(&self);
}

} // verus!
