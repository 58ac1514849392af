//! How a game is set up.
use vstd::prelude::*;

verus! {

/// The variants of the rules.
#[derive(Clone, Copy, Debug, PartialEq, Eq, Structural)]
pub struct Config {
    /// Whether a player who has reached a goal is sent to another one, while there are any.
    pub multiple_goals: bool,
}

impl Default for Config {
    /// One goal for each player.
    fn default() -> (config: Self)
        ensures
            config == (Config { multiple_goals: false }),
    {
        Config { multiple_goals: false }
    }
}

} // verus!
