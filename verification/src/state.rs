//! A game as it stands: the board, and the players in the order of their turns.
use crate::board::Slide;
use crate::grid::{same_tile, Position};
use crate::player::{FullPlayerInfo, Player, PubPlayerInfo};
use std::collections::VecDeque;
use vstd::prelude::*;

verus! {

/// A game as it stands. The player in front is the one whose turn it is.
pub struct State<B, P> {
    pub board: B,
    pub player_info: VecDeque<P>,
    pub previous_slide: Option<Slide>,
}

/// The mathematical content of a [`State`].
#[verifier::ext_equal]
pub struct StateModel<B, P> {
    pub board: B,
    pub players: Seq<P>,
    pub previous_slide: Option<Slide>,
}

impl<B, P> View for State<B, P> {
    type V = StateModel<B, P>;

    open spec fn view(&self) -> StateModel<B, P> {
        StateModel {
            board: self.board,
            players: self.player_info@,
            previous_slide: self.previous_slide,
        }
    }
}

/// Why a state refused an operation.
#[derive(Clone, Copy, Debug, PartialEq, Eq, Structural)]
pub enum StateError {
    /// Nobody is left in the game.
    NoPlayers,
}

/// `queue` with its first `count` elements moved to the end.
pub open spec fn rotated<P>(queue: Seq<P>, count: int) -> Seq<P> {
    queue.skip(count) + queue.take(count)
}

impl<B, P> State<B, P> {
    /// A game that has just begun.
    pub fn new(board: B, player_info: VecDeque<P>) -> (state: Self)
        ensures
            state@ == (StateModel { board, players: player_info@, previous_slide: None }),
    {
        State { board, player_info, previous_slide: None }
    }

    /// Lets one more player have their turn last.
    pub fn add_player(&mut self, player: P)
        ensures
            final(self)@ == (StateModel { players: old(self)@.players.push(player), ..old(self)@ }),
    {
        self.player_info.push_back(player);
    }

    /// The player whose turn it is.
    pub fn current_player_info(&self) -> (player: &P)
        requires
            self@.players.len() > 0,
        ensures
            *player == self@.players[0],
    {
        &self.player_info[0]
    }

    /// Ends the turn of the current player, who then comes last.
    pub fn next_player(&mut self)
        ensures
            final(self)@ == (StateModel {
                players: if old(self)@.players.len() > 0 {
                    rotated(old(self)@.players, 1)
                } else {
                    old(self)@.players
                },
                ..old(self)@
            }),
    {
        match self.player_info.pop_front() {
            Some(player) => {
                self.player_info.push_back(player);
            },
            None => {},
        }
        proof {
            if old(self)@.players.len() > 0 {
                assert(self@.players =~= rotated(old(self)@.players, 1));
            } else {
                assert(self@.players =~= old(self)@.players);
            }
        }
    }

    /// Takes the current player out of the game.
    pub fn remove_player(&mut self) -> (removed: Result<P, StateError>)
        ensures
            old(self)@.players.len() > 0 ==> removed == Ok::<P, StateError>(old(self)@.players[0])
                && final(self)@ == (StateModel {
                players: old(self)@.players.skip(1),
                ..old(self)@
            }),
            old(self)@.players.len() == 0 ==> removed == Err::<P, StateError>(StateError::NoPlayers)
                && final(self)@ == old(self)@,
    {
        match self.player_info.pop_front() {
            Some(player) => {
                assert(self@.players =~= old(self)@.players.skip(1));
                Ok(player)
            },
            None => {
                assert(self@.players =~= old(self)@.players);
                Err(StateError::NoPlayers)
            },
        }
    }
}

/// `view` is what a player may see of `state`: nobody's goal, and nobody's count of goals.
pub open spec fn is_player_state<'a, B: Clone, A: ?Sized>(
    state: StateModel<B, Player<'a, A>>,
    view: StateModel<B, PubPlayerInfo>,
) -> bool {
    &&& cloned(state.board, view.board)
    &&& view.players == public_infos(state.players)
    &&& view.previous_slide == state.previous_slide
}

/// What everybody may know of the players.
pub open spec fn public_infos<'a, A: ?Sized>(players: Seq<Player<'a, A>>) -> Seq<PubPlayerInfo> {
    Seq::new(players.len(), |i: int| players[i].info.spec_public())
}

/// `view` is `state` without the lines to the players.
pub open spec fn is_full_state<'a, B: Clone, A: ?Sized>(
    state: StateModel<B, Player<'a, A>>,
    view: StateModel<B, FullPlayerInfo>,
) -> bool {
    &&& cloned(state.board, view.board)
    &&& view.players == full_infos(state.players)
    &&& view.previous_slide == state.previous_slide
}

/// All that the referee knows of the players.
pub open spec fn full_infos<'a, A: ?Sized>(players: Seq<Player<'a, A>>) -> Seq<FullPlayerInfo> {
    Seq::new(players.len(), |i: int| players[i].info)
}

/// `state` once a slide has led to `board` and has left the players on `positions`.
pub open spec fn moved<'a, B, A: ?Sized>(
    state: StateModel<B, Player<'a, A>>,
    slide: Slide,
    board: B,
    positions: Seq<Position>,
) -> StateModel<B, Player<'a, A>> {
    StateModel {
        board,
        players: Seq::new(state.players.len(), |i: int| state.players[i].at(positions[i])),
        previous_slide: Some(slide),
    }
}

impl<'a, B, A: ?Sized> State<B, Player<'a, A>> {
    /// What a player may see of the game.
    pub fn to_player_state(&self) -> (view: State<B, PubPlayerInfo>) where B: Clone
        ensures
            is_player_state(self@, view@),
    {
        let mut player_info: VecDeque<PubPlayerInfo> = VecDeque::new();
        let count: usize = self.player_info.len();
        for i in 0..count
            invariant
                count == self.player_info@.len(),
                player_info@ =~= public_infos(self@.players).take(i as int),
        {
            player_info.push_back(self.player_info[i].info.public());
        }
        assert(player_info@ =~= public_infos(self@.players));
        State { board: self.board.clone(), player_info, previous_slide: self.previous_slide }
    }

    /// The game without the lines to the players.
    pub fn to_full_state(&self) -> (view: State<B, FullPlayerInfo>) where B: Clone
        ensures
            is_full_state(self@, view@),
    {
        let mut player_info: VecDeque<FullPlayerInfo> = VecDeque::new();
        let count: usize = self.player_info.len();
        for i in 0..count
            invariant
                count == self.player_info@.len(),
                player_info@ =~= full_infos(self@.players).take(i as int),
        {
            player_info.push_back(self.player_info[i].info);
        }
        assert(player_info@ =~= full_infos(self@.players));
        State { board: self.board.clone(), player_info, previous_slide: self.previous_slide }
    }

    /// Puts the board and the players where a slide has taken them.
    pub fn make_move(&mut self, slide: Slide, board: B, positions: &Vec<Position>)
        requires
            positions@.len() == old(self)@.players.len(),
        ensures
            final(self)@ == moved(old(self)@, slide, board, positions@),
    {
        let count: usize = self.player_info.len();
        let ghost start = self.player_info@;
        let ghost goal = moved(self@, slide, board, positions@).players;
        for i in 0..count
            invariant
                count == start.len(),
                count == positions@.len(),
                goal.len() == count,
                forall|j: int| 0 <= j < count ==> #[trigger] goal[j] == start[j].at(positions@[j]),
                self.player_info@ =~= start.skip(i as int) + goal.take(i as int),
                self.board == old(self).board,
                self.previous_slide == old(self).previous_slide,
        {
            match self.player_info.pop_front() {
                Some(player) => {
                    let mut player = player;
                    player.info.position = positions[i];
                    assert(player == goal[i as int]);
                    self.player_info.push_back(player);
                },
                None => {},
            }
        }
        assert(self.player_info@ =~= goal);
        self.board = board;
        self.previous_slide = Some(slide);
    }

    /// Whether the current player stands on their goal.
    pub fn player_reached_goal(&self) -> (reached: bool)
        requires
            self@.players.len() > 0,
        ensures
            reached == (self@.players[0].info.position == self@.players[0].info.goal),
    {
        let info = self.player_info[0].info;
        same_tile(&info.position, &info.goal)
    }

    /// Whether the current player stands on their home.
    pub fn player_reached_home(&self) -> (reached: bool)
        requires
            self@.players.len() > 0,
        ensures
            reached == (self@.players[0].info.position == self@.players[0].info.home),
    {
        let info = self.player_info[0].info;
        same_tile(&info.position, &info.home)
    }
}

} // verus!
