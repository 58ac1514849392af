//! One turn of one player: what is asked, and what follows from the answer.
use crate::board::{Board, Slide};
use crate::grid::{same_tile, Position};
use crate::history::{since, spoke, Call, History};
use crate::player::{FullPlayerInfo, Player, PlayerApi, PlayerMove, PubPlayerInfo};
use crate::state::{is_full_state, is_player_state, moved, rotated, State, StateModel};
use std::collections::VecDeque;
use vstd::prelude::*;

verus! {

/// What came of asking a player for a turn.
pub enum TurnReply<B> {
    /// The player could not be asked.
    Failed,
    /// The player passed.
    Passed,
    /// The player wanted a move that the rules forbid.
    Rejected,
    /// The player made a move.
    Moved {
        slide: Slide,
        /// The board after the slide.
        board: B,
        /// Where everybody then stands, in the order of their turns; the player in front has
        /// walked.
        positions: Vec<Position>,
        /// Whether the player took notice of a new goal; `true` where there was none to tell of.
        accepted: bool,
    },
}

/// The mathematical content of a [`TurnReply`].
pub enum ReplyModel<B> {
    Failed,
    Passed,
    Rejected,
    Moved { slide: Slide, board: B, positions: Seq<Position>, accepted: bool },
}

impl<B> View for TurnReply<B> {
    type V = ReplyModel<B>;

    open spec fn view(&self) -> ReplyModel<B> {
        match *self {
            TurnReply::Failed => ReplyModel::Failed,
            TurnReply::Passed => ReplyModel::Passed,
            TurnReply::Rejected => ReplyModel::Rejected,
            TurnReply::Moved { slide, board, positions, accepted } => ReplyModel::Moved {
                slide,
                board,
                positions: positions@,
                accepted,
            },
        }
    }
}

/// How a turn ended.
#[derive(Clone, Copy, Debug, PartialEq, Eq, Structural)]
pub enum TurnEnd {
    /// The player was thrown out.
    Kicked,
    /// The player passed.
    Passed,
    /// The player moved, and the game goes on.
    Moved,
    /// The player came home and has won.
    Won,
}

/// A game in progress: how it stands, who has been thrown out, and the goals still to be handed
/// out.
#[verifier::ext_equal]
pub struct Table<'a, B, A: ?Sized> {
    pub state: StateModel<B, Player<'a, A>>,
    pub kicked: Seq<Player<'a, A>>,
    pub remaining: Seq<Position>,
}

impl<'a, B, A: ?Sized> Table<'a, B, A> {
    /// The same game, with other players.
    pub open spec fn with_players(self, players: Seq<Player<'a, A>>) -> Table<'a, B, A> {
        Table { state: StateModel { players, ..self.state }, ..self }
    }

    /// The current player is thrown out.
    pub open spec fn kick_current(self) -> Table<'a, B, A> {
        Table {
            kicked: self.kicked.push(self.state.players[0]),
            ..self.with_players(self.state.players.skip(1))
        }
    }

    /// The turn of the current player is over.
    pub open spec fn pass_on(self) -> Table<'a, B, A> {
        self.with_players(rotated(self.state.players, 1))
    }

    /// The current player has reached a goal and is sent to `goal`, which is taken from the goals
    /// to be handed out, while there are any.
    pub open spec fn award_current(self, goal: Position) -> Table<'a, B, A> {
        Table {
            remaining: if self.remaining.len() > 0 {
                self.remaining.skip(1)
            } else {
                self.remaining
            },
            ..self.with_players(
                self.state.players.update(0, self.state.players[0].awarded(goal)),
            )
        }
    }

    /// The current player has moved.
    pub open spec fn moved(self, slide: Slide, board: B, positions: Seq<Position>) -> Table<
        'a,
        B,
        A,
    > {
        Table { state: moved(self.state, slide, board, positions), ..self }
    }
}

/// A player wins who comes home when home is what they were looking for and no goal is left.
pub open spec fn wins(info: FullPlayerInfo, at: Position, remaining: Seq<Position>) -> bool {
    at == info.goal && at == info.home && remaining.len() == 0
}

/// The goal that a player who arrives on the tile `at` is sent to next, if any: the first of those
/// that are left, or else home.
pub open spec fn next_goal(
    info: FullPlayerInfo,
    at: Position,
    remaining: Seq<Position>,
) -> Option<Position> {
    if at != info.goal || wins(info, at, remaining) {
        None
    } else if remaining.len() > 0 {
        Some(remaining[0])
    } else {
        Some(info.home)
    }
}

/// The game after a turn of the current player.
pub open spec fn settled<'a, B, A: ?Sized>(table: Table<'a, B, A>, reply: ReplyModel<B>) -> Table<
    'a,
    B,
    A,
> {
    match reply {
        ReplyModel::Failed => table.kick_current(),
        ReplyModel::Rejected => table.kick_current(),
        ReplyModel::Passed => table.pass_on(),
        ReplyModel::Moved { slide, board, positions, accepted } => {
            let after = table.moved(slide, board, positions);
            let info = table.state.players[0].info;
            if wins(info, positions[0], table.remaining) {
                after
            } else {
                match next_goal(info, positions[0], table.remaining) {
                    None => after.pass_on(),
                    Some(goal) => if accepted {
                        after.award_current(goal).pass_on()
                    } else {
                        after.award_current(goal).kick_current()
                    },
                }
            }
        },
    }
}

/// How a turn of the current player ends.
pub open spec fn turn_end<'a, B, A: ?Sized>(
    table: Table<'a, B, A>,
    reply: ReplyModel<B>,
) -> TurnEnd {
    match reply {
        ReplyModel::Failed => TurnEnd::Kicked,
        ReplyModel::Rejected => TurnEnd::Kicked,
        ReplyModel::Passed => TurnEnd::Passed,
        ReplyModel::Moved { slide, board, positions, accepted } => {
            let info = table.state.players[0].info;
            if wins(info, positions[0], table.remaining) {
                TurnEnd::Won
            } else if next_goal(info, positions[0], table.remaining) is Some && !accepted {
                TurnEnd::Kicked
            } else {
                TurnEnd::Moved
            }
        },
    }
}

/// A reply that says of every player where they stand.
pub open spec fn fits<'a, B, A: ?Sized>(table: Table<'a, B, A>, reply: ReplyModel<B>) -> bool {
    reply matches ReplyModel::Moved { positions, .. } ==> positions.len()
        == table.state.players.len()
}

/// The current player of `state` was shown the game and asked for a turn, and `reply` is what came
/// of it. In its course `calls` were made.
pub open spec fn asked<'a, B: Board, A: ?Sized>(
    state: StateModel<B, Player<'a, A>>,
    remaining: Seq<Position>,
    reply: ReplyModel<B>,
    calls: Seq<Call<'a, B, A>>,
) -> bool {
    &&& calls.len() > 0
    &&& calls[0] matches Call::TakeTurn { player, state: view, answer }
    &&& player == state.players[0].api
    &&& is_player_state(state, view)
    &&& match answer {
        None => reply is Failed && calls.len() == 1,
        Some(None) => reply is Passed && calls.len() == 1,
        Some(Some(choice)) => judged(state, remaining, choice, reply, calls.skip(1)),
    }
}

/// The board was asked whether the rules allow `choice`, and `reply` is what came of it. In its
/// course `calls` were made.
pub open spec fn judged<'a, B: Board, A: ?Sized>(
    state: StateModel<B, Player<'a, A>>,
    remaining: Seq<Position>,
    choice: PlayerMove,
    reply: ReplyModel<B>,
    calls: Seq<Call<'a, B, A>>,
) -> bool {
    exists|view: State<B, FullPlayerInfo>, valid: bool|
        {
            &&& is_full_state(state, view@)
            &&& #[trigger] call_ensures(
                B::is_valid_move,
                (&view, choice.slide, choice.rotations, choice.destination),
                valid,
            )
            &&& if valid {
                carried_out(state, remaining, choice, reply, calls)
            } else {
                reply is Rejected && calls.len() == 0
            }
        }
}

/// `choice` was made on the board, the slide carried everybody along, the player walked, and heard
/// of the next goal, if there is one, which is all that `calls` hold; `reply` is what came of it.
pub open spec fn carried_out<'a, B: Board, A: ?Sized>(
    state: StateModel<B, Player<'a, A>>,
    remaining: Seq<Position>,
    choice: PlayerMove,
    reply: ReplyModel<B>,
    calls: Seq<Call<'a, B, A>>,
) -> bool {
    reply matches ReplyModel::Moved { slide, board, positions, accepted } && {
        &&& slide == choice.slide
        &&& slid(state, choice, board, positions)
        &&& match next_goal(
            state.players[0].info,
            choice.destination,
            remaining,
        ) {
            None => accepted && calls.len() == 0,
            Some(goal) => calls == seq![
                Call::Setup {
                    player: state.players[0].api,
                    game: None::<StateModel<B, PubPlayerInfo>>,
                    goal,
                    accepted,
                },
            ],
        }
    }
}

/// The spare tile was rotated and pushed in, which led to `board`, and everybody then stands on
/// `positions`.
pub open spec fn slid<'a, B: Board, A: ?Sized>(
    state: StateModel<B, Player<'a, A>>,
    choice: PlayerMove,
    board: B,
    positions: Seq<Position>,
) -> bool {
    exists|turned: B|
        {
            &&& #[trigger] call_ensures(B::rotate_spare, (&state.board, choice.rotations), turned)
            &&& call_ensures(B::slide_and_insert, (&turned, choice.slide), board)
            &&& positions.len() == state.players.len()
            &&& positions[0] == choice.destination
            &&& forall|i: int| 1 <= i < positions.len() ==> carried(
                turned,
                choice.slide,
                state.players[i].info.position,
                #[trigger] positions[i],
            )
        }
}

/// The board says that the slide carries a player from the tile `from` to the tile `to`.
pub open spec fn carried<B: Board>(board: B, slide: Slide, from: Position, to: Position) -> bool {
    call_ensures(B::slide_position, (&board, slide, from), to)
}

/// The game that is held in these parts.
pub open spec fn table_of<'a, B, A: ?Sized>(
    state: State<B, Player<'a, A>>,
    kicked: Vec<Player<'a, A>>,
    remaining: VecDeque<Position>,
) -> Table<'a, B, A> {
    Table { state: state@, kicked: kicked@, remaining: remaining@ }
}

/// Whether a player who arrives on the tile `at` has won.
pub fn has_won(info: &FullPlayerInfo, at: &Position, remaining: &VecDeque<Position>) -> (won: bool)
    ensures
        won == wins(*info, *at, remaining@),
{
    same_tile(at, &info.goal) && same_tile(at, &info.home) && remaining.len() == 0
}

/// The goal that a player who arrives on the tile `at` is sent to next.
pub fn goal_after(
    info: &FullPlayerInfo,
    at: &Position,
    remaining: &VecDeque<Position>,
) -> (goal: Option<Position>)
    ensures
        goal == next_goal(*info, *at, remaining@),
{
    if !same_tile(at, &info.goal) || has_won(info, at, remaining) {
        None
    } else if remaining.len() > 0 {
        Some(remaining[0])
    } else {
        Some(info.home)
    }
}

/// Throws the current player out.
pub fn kick_current<'a, B, A: ?Sized>(
    state: &mut State<B, Player<'a, A>>,
    kicked: &mut Vec<Player<'a, A>>,
)
    requires
        old(state)@.players.len() > 0,
    ensures
        final(state)@ == (StateModel { players: old(state)@.players.skip(1), ..old(state)@ }),
        final(kicked)@ == old(kicked)@.push(old(state)@.players[0]),
{
    match state.remove_player() {
        Ok(player) => kicked.push(player),
        Err(_) => {},
    }
}

/// Carries out what follows from the answer of the current player.
pub fn settle_turn<'a, B, A: ?Sized>(
    state: &mut State<B, Player<'a, A>>,
    kicked: &mut Vec<Player<'a, A>>,
    remaining: &mut VecDeque<Position>,
    reply: TurnReply<B>,
) -> (end: TurnEnd)
    requires
        old(state)@.players.len() > 0,
        old(state)@.players[0].info.goals_reached < usize::MAX,
        fits(table_of(*old(state), *old(kicked), *old(remaining)), reply@),
    ensures
        table_of(*final(state), *final(kicked), *final(remaining)) == settled(
            table_of(*old(state), *old(kicked), *old(remaining)),
            reply@,
        ),
        end == turn_end(table_of(*old(state), *old(kicked), *old(remaining)), reply@),
{
    match reply {
        TurnReply::Failed => {
            kick_current(state, kicked);
            TurnEnd::Kicked
        },
        TurnReply::Rejected => {
            kick_current(state, kicked);
            TurnEnd::Kicked
        },
        TurnReply::Passed => {
            state.next_player();
            TurnEnd::Passed
        },
        TurnReply::Moved { slide, board, positions, accepted } => {
            state.make_move(slide, board, &positions);
            let ghost after = table_of(*state, *kicked, *remaining);
            if state.player_reached_home() && state.player_reached_goal() && remaining.len() == 0 {
                return TurnEnd::Won;
            }
            let info = state.current_player_info().info;
            match goal_after(&info, &info.position, remaining) {
                None => {
                    state.next_player();
                    TurnEnd::Moved
                },
                Some(goal) => {
                    match state.player_info.pop_front() {
                        Some(player) => {
                            let mut player = player;
                            player.info.award(goal);
                            state.player_info.push_front(player);
                        },
                        None => {},
                    }
                    if remaining.len() > 0 {
                        let _ = remaining.pop_front();
                    }
                    proof {
                        let awarded = after.award_current(goal);
                        assert(state@.players =~= awarded.state.players);
                        assert(remaining@ =~= awarded.remaining);
                    }
                    if accepted {
                        state.next_player();
                        TurnEnd::Moved
                    } else {
                        kick_current(state, kicked);
                        TurnEnd::Kicked
                    }
                },
            }
        },
    }
}

/// Asks the current player for a turn, makes the move on the board if the rules allow it, and tells
/// the player of the next goal, if there is one.
pub fn ask_turn<'a, B: Board, A: PlayerApi<B> + ?Sized>(
    state: &State<B, Player<'a, A>>,
    remaining: &VecDeque<Position>,
    history: &mut History<'a, B, A>,
) -> (reply: TurnReply<B>)
    requires
        state@.players.len() > 0,
    ensures
        spoke(old(history)@, final(history)@),
        asked(state@, remaining@, reply@, since(old(history)@, final(history)@)),
{
    let player = *state.current_player_info();
    let view = state.to_player_state();
    let answer = history.take_turn(player.api, view);
    let ghost said = history@;
    let reply = match answer {
        Err(_) => TurnReply::Failed,
        Ok(None) => TurnReply::Passed,
        Ok(Some(choice)) => judge_move(state, remaining, choice, history),
    };
    proof {
        let calls = since(old(history)@, history@);
        assert forall|i: int| 0 <= i < said.len() implies #[trigger] history@[i] == said[i] by {
            assert(history@.take(said.len() as int)[i] == history@[i]);
        }
        assert(history@.take(old(history)@.len() as int) =~= old(history)@);
        assert(calls[0] == said.last());
        assert(calls.skip(1) =~= since(said, history@));
    }
    reply
}

/// Makes the move that the current player wants, if the rules allow it.
fn judge_move<'a, B: Board, A: PlayerApi<B> + ?Sized>(
    state: &State<B, Player<'a, A>>,
    remaining: &VecDeque<Position>,
    choice: PlayerMove,
    history: &mut History<'a, B, A>,
) -> (reply: TurnReply<B>)
    requires
        state@.players.len() > 0,
    ensures
        spoke(old(history)@, final(history)@),
        judged(state@, remaining@, choice, reply@, since(old(history)@, final(history)@)),
{
    let view = state.to_full_state();
    let valid = B::is_valid_move(&view, choice.slide, choice.rotations, choice.destination);
    assert(call_ensures(
        B::is_valid_move,
        (&view, choice.slide, choice.rotations, choice.destination),
        valid,
    ));
    if valid {
        carry_out(state, remaining, choice, history)
    } else {
        assert(history@.take(history@.len() as int) =~= history@);
        TurnReply::Rejected
    }
}

/// Makes a move on the board and tells the player of the next goal, if there is one.
fn carry_out<'a, B: Board, A: PlayerApi<B> + ?Sized>(
    state: &State<B, Player<'a, A>>,
    remaining: &VecDeque<Position>,
    choice: PlayerMove,
    history: &mut History<'a, B, A>,
) -> (reply: TurnReply<B>)
    requires
        state@.players.len() > 0,
    ensures
        spoke(old(history)@, final(history)@),
        carried_out(state@, remaining@, choice, reply@, since(old(history)@, final(history)@)),
{
    let turned = state.board.rotate_spare(choice.rotations);
    let board = turned.slide_and_insert(choice.slide);
    let mut positions: Vec<Position> = Vec::new();
    positions.push(choice.destination);
    let count: usize = state.player_info.len();
    for i in 1..count
        invariant
            count == state.player_info@.len(),
            positions@.len() == i,
            positions@[0] == choice.destination,
            forall|j: int|
                1 <= j < i ==> carried(
                    turned,
                    choice.slide,
                    state@.players[j].info.position,
                    #[trigger] positions@[j],
                ),
    {
        positions.push(turned.slide_position(choice.slide, state.player_info[i].info.position));
    }
    assert(call_ensures(B::rotate_spare, (&state@.board, choice.rotations), turned));
    assert(slid(state@, choice, board, positions@));
    let player = state.current_player_info();
    let accepted = match goal_after(&player.info, &choice.destination, remaining) {
        None => true,
        Some(goal) => history.setup(player.api, None, goal),
    };
    proof {
        assert(history@.take(old(history)@.len() as int) =~= old(history)@);
        if history@.len() > old(history)@.len() {
            assert(since(old(history)@, history@) =~= seq![history@.last()]);
        }
    }
    TurnReply::Moved { slide: choice.slide, board, positions, accepted }
}

} // verus!
