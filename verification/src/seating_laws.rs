//! How a game begins: boards, homes, goals and colors, in plain terms.
use crate::board::Board;
use crate::grid::Position;
use crate::history::Call;
use crate::laws::law_chosen_board_was_proposed;
use crate::player::Player;
use crate::random::{chacha_byte, chacha_range, Random};
use crate::referee::{game_came_to, game_played, game_run, GameResult};
use crate::seating::{
    board_chosen, first_proposal, free_goals, initial_goals, initial_state, is_free, lemma_seated,
    lemma_who_accepted, proposal_calls, seated, seats_drawn, start_broadcast, still_there,
    told_in_turn, SeatingError, COLUMNS, ROWS,
};
use crate::state::{State, StateModel};
use crate::view_laws::{law_player_view, shows_places};
use crate::winner_laws::{lemma_with_answer, went_well, with_answer};
use vstd::prelude::*;

verus! {

/// What a player proposed in a call.
pub open spec fn proposed<'a, B, A: ?Sized>(call: Call<'a, B, A>) -> Option<B> {
    match call {
        Call::ProposeBoard { proposal, .. } => proposal,
        _ => None,
    }
}

/// Every player is asked once, in their order, for a board of 7 columns and 7 rows. The board that
/// is played on is the first that comes back; where none does, it is a default one of that size.
pub proof fn law_board<'a, B: Board, A: ?Sized>(
    apis: Seq<&'a A>,
    board: B,
    calls: Seq<Call<'a, B, A>>,
)
    requires
        board_chosen(apis, board, calls),
    ensures
        calls.len() == apis.len(),
        forall|i: int|
            0 <= i < calls.len() ==> (#[trigger] calls[i] matches Call::ProposeBoard {
                player,
                cols,
                rows,
                ..
            } && player == apis[i] && cols == 7 && rows == 7),
        forall|i: int|
            0 <= i < calls.len() && proposed(#[trigger] calls[i]) is Some && (forall|j: int|
                0 <= j < i ==> proposed(#[trigger] calls[j]) is None) ==> proposed(calls[i])
                == Some(board),
        (forall|i: int| 0 <= i < calls.len() ==> proposed(#[trigger] calls[i]) is None)
            ==> call_ensures(B::default_board, (7u32, 7u32), board),
{
    let proposals = choose|proposals: Seq<Option<B>>|
        {
            &&& proposals.len() == apis.len()
            &&& calls == #[trigger] proposal_calls(apis, proposals)
            &&& match first_proposal(proposals) {
                Some(proposal) => board == proposal,
                None => call_ensures(
                    B::default_board,
                    (COLUMNS, ROWS),
                    board,
                ),
            }
        };
    law_chosen_board_was_proposed(proposals);
    assert forall|i: int| 0 <= i < calls.len() implies proposed(#[trigger] calls[i])
        == proposals[i] by {}
    assert forall|i: int|
        0 <= i < calls.len() && proposed(#[trigger] calls[i]) is Some && (forall|j: int|
            0 <= j < i ==> proposed(#[trigger] calls[j]) is None) implies proposed(calls[i])
        == Some(board) by {
        assert(proposals[i] is Some);
        let chosen = first_proposal(proposals);
        let k = choose|k: int|
            {
                &&& 0 <= k < proposals.len()
                &&& #[trigger] proposals[k] == Some(chosen->0)
                &&& forall|j: int| 0 <= j < k ==> (#[trigger] proposals[j]) is None
            };
        assert(proposed(calls[k]) == proposals[k]);
    }
    if forall|i: int| 0 <= i < calls.len() ==> proposed(#[trigger] calls[i]) is None {
        if let Some(b) = first_proposal(proposals) {
            let k = choose|k: int|
                {
                    &&& 0 <= k < proposals.len()
                    &&& #[trigger] proposals[k] == Some(b)
                    &&& forall|j: int| 0 <= j < k ==> (#[trigger] proposals[j]) is None
                };
            assert(proposed(calls[k]) == proposals[k]);
        }
    }
}

/// The word after `word` in the stream of a generator, which repeats itself after 2^68 words.
pub open spec fn next_word(word: u128) -> u128 {
    ((word + 1) % 0x10_0000_0000_0000_0000int) as u128
}

/// Before anybody is seated, all homes are free and nothing is drawn.
pub proof fn law_no_seats<'a, A: ?Sized>(
    homes: Seq<Position>,
    goals: Seq<Position>,
    rand: Random,
)
    ensures
        seated(Seq::<&'a A>::empty(), homes, goals, rand).players.len() == 0,
        seated(Seq::<&'a A>::empty(), homes, goals, rand).homes == homes,
        seated(Seq::<&'a A>::empty(), homes, goals, rand).rand == rand,
{
}

/// The next player gets the home that is drawn from those still free, which is then free no more,
/// and stands on it. They get the goal of their place, have reached none, and get a color of which
/// red, green and blue are drawn in this order. All is drawn from one stream, without a gap.
pub proof fn law_next_seat<'a, A: ?Sized>(
    apis: Seq<&'a A>,
    api: &'a A,
    homes: Seq<Position>,
    goals: Seq<Position>,
    rand: Random,
)
    ensures
        ({
            let before = seated(apis, homes, goals, rand);
            let after = seated(apis.push(api), homes, goals, rand);
            let seed = before.rand.seed;
            let drawn = chacha_range(
                seed,
                before.rand.word,
                before.homes.len() as usize,
                usize::BITS,
            );
            let player = after.players.last();
            &&& after.players.len() == before.players.len() + 1
            &&& after.players.drop_last() == before.players
            &&& player.api == api
            &&& player.info.home == before.homes[drawn.0 as int]
            &&& player.info.position == player.info.home
            &&& player.info.goal == goals[apis.len() as int]
            &&& player.info.goals_reached == 0
            &&& player.info.color.red == chacha_byte(seed, drawn.1)
            &&& player.info.color.green == chacha_byte(seed, next_word(drawn.1))
            &&& player.info.color.blue == chacha_byte(seed, next_word(next_word(drawn.1)))
            &&& after.homes == before.homes.remove(drawn.0 as int)
            &&& after.rand.seed == seed
            &&& after.rand.word == next_word(next_word(next_word(drawn.1)))
        }),
{
    assert(apis.push(api).drop_last() =~= apis);
    let before = seated(apis, homes, goals, rand);
    let after = seated(apis.push(api), homes, goals, rand);
    assert(after.players.drop_last() =~= before.players);
}

/// The players are seated exactly if there are as many homes and as many goals as players. If not,
/// the homes are to blame where there are no more homes than goals, and else the goals, and nothing
/// is drawn. Nobody has made a slide yet, the board is the one that was chosen, and everybody
/// stands at home, has the goal of their place and has reached none.
pub proof fn law_seats<'a, B: Board, A: ?Sized>(
    apis: Seq<&'a A>,
    board: B,
    rand: Random,
    result: Result<State<B, Player<'a, A>>, SeatingError>,
    after: Random,
) -> (named: (Vec<Position>, Vec<Position>))
    requires
        initial_state(apis, board, rand, result, after),
    ensures
        call_ensures(B::possible_homes, (&board,), named.0),
        call_ensures(B::possible_goals, (&board,), named.1),
        result is Ok <==> apis.len() <= named.0@.len() && apis.len() <= named.1@.len(),
        result is Err && named.0@.len() <= named.1@.len() ==> result == Err::<
            State<B, Player<'a, A>>,
            SeatingError,
        >(SeatingError::NotEnoughHomes),
        result is Err && named.0@.len() > named.1@.len() ==> result == Err::<
            State<B, Player<'a, A>>,
            SeatingError,
        >(SeatingError::NotEnoughGoals),
        result is Err ==> after == rand,
        result matches Ok(state) ==> {
            &&& state.board == board
            &&& state.previous_slide is None
            &&& state.player_info@ == seated(apis, named.0@, named.1@, rand).players
            &&& after == seated(apis, named.0@, named.1@, rand).rand
            &&& state.player_info@.len() == apis.len()
            &&& forall|i: int|
                0 <= i < apis.len() ==> {
                    let player = #[trigger] state.player_info@[i];
                    &&& player.api == apis[i]
                    &&& player.info.position == player.info.home
                    &&& player.info.goal == named.1@[i]
                    &&& player.info.goals_reached == 0
                }
        },
{
    let (homes, goals) = choose|homes: Vec<Position>, goals: Vec<Position>| #[trigger]
        seats_drawn(apis, board, rand, result, after, homes, goals);
    lemma_seated(apis, homes@, goals@, rand);
    (homes, goals)
}

/// Whether a goal is none of those that the players begin with.
pub open spec fn unclaimed<'a, A: ?Sized>(players: Seq<Player<'a, A>>) -> spec_fn(
    Position,
) -> bool {
    |goal: Position|
        !exists|i: int|
            0 <= i < players.len() && (#[trigger] players[i]).info.goal.0 == goal.0
                && players[i].info.goal.1 == goal.1
}

proof fn lemma_free_is_unclaimed<'a, A: ?Sized>(
    possible: Seq<Position>,
    players: Seq<Player<'a, A>>,
)
    ensures
        possible.filter(is_free(players)) == possible.filter(unclaimed(players)),
    decreases possible.len(),
{
    reveal(Seq::filter);
    if possible.len() > 0 {
        lemma_free_is_unclaimed(possible.drop_last(), players);
        let goal = possible.last();
        if is_free(players)(goal) {
            assert(unclaimed(players)(goal));
        } else {
            let i = choose|i: int|
                0 <= i < players.len() && (#[trigger] players[i]).info.goal == goal;
            assert(players[i].info.goal.0 == goal.0);
        }
    }
}

/// Of the goals that the board names, those are left in their order that nobody begins with, where
/// more than one goal is to be reached; else none is left.
pub proof fn law_goals_left<'a, B: Board, A: ?Sized>(
    multiple_goals: bool,
    state: StateModel<B, Player<'a, A>>,
    goals: Seq<Position>,
)
    requires
        initial_goals(multiple_goals, state, goals),
    ensures
        !multiple_goals ==> goals.len() == 0,
        multiple_goals ==> exists|possible: Vec<Position>| #[trigger]
            call_ensures(B::possible_goals, (&state.board,), possible) && goals
                == possible@.filter(unclaimed(state.players)),
{
    if multiple_goals {
        let possible = choose|possible: Vec<Position>|
            {
                &&& #[trigger] call_ensures(B::possible_goals, (&state.board,), possible)
                &&& goals == possible@.filter(is_free(state.players))
            };
        lemma_free_is_unclaimed(possible@, state.players);
    }
}

/// The goals out of a list that nobody begins with come out in their order.
pub proof fn law_free_goals<'a, B, A: ?Sized>(
    possible: Vec<Position>,
    state: State<B, Player<'a, A>>,
    goals: Vec<Position>,
)
    requires
        call_ensures(free_goals::<B, A>, (&possible, &state), goals),
    ensures
        goals@ == possible@.filter(unclaimed(state.player_info@)),
{
    lemma_free_is_unclaimed(possible@, state@.players);
}

/// Each player is told once of the game, in their order, with their own goal. They are shown a copy
/// of the board, the last slide, and home, position and color of those who are in the game at that
/// time: first those who are still to be told, then those who were told and took it well. Whoever
/// takes it well stays, in their order, and all others are thrown out, in theirs. The board and the
/// last slide stay.
pub proof fn law_players_are_told<'a, B: Board, A: ?Sized>(
    start: StateModel<B, Player<'a, A>>,
    kicked: Seq<Player<'a, A>>,
    state: StateModel<B, Player<'a, A>>,
    final_kicked: Seq<Player<'a, A>>,
    calls: Seq<Call<'a, B, A>>,
)
    requires
        start_broadcast(start, kicked, state, final_kicked, calls),
    ensures
        calls.len() == start.players.len(),
        forall|i: int|
            0 <= i < calls.len() ==> (#[trigger] calls[i] matches Call::Setup {
                player,
                game: Some(view),
                goal,
                ..
            } && {
                &&& player == start.players[i].api
                &&& goal == start.players[i].info.goal
                &&& cloned(start.board, view.board)
                &&& view.previous_slide == start.previous_slide
                &&& shows_places(
                    start.players.skip(i) + with_answer(
                        start.players.take(i),
                        calls.take(i),
                        true,
                    ),
                    view.players,
                )
            }),
        state.board == start.board,
        state.previous_slide == start.previous_slide,
        state.players == with_answer(start.players, calls, true),
        final_kicked == kicked + with_answer(start.players, calls, false),
{
    let accepted = lemma_who_accepted(start, kicked, state, final_kicked, calls);
    assert forall|i: int| 0 <= i < calls.len() implies went_well(
        #[trigger] calls[i],
    ) == accepted[i] by {
        assert(told_in_turn(start, accepted, calls, i));
    }
    lemma_with_answer(start.players, accepted, calls, true);
    lemma_with_answer(start.players, accepted, calls, false);
    assert forall|i: int| 0 <= i < calls.len() implies (#[trigger] calls[i] matches Call::Setup {
        player,
        game: Some(view),
        goal,
        ..
    } && {
        &&& player == start.players[i].api
        &&& goal == start.players[i].info.goal
        &&& cloned(start.board, view.board)
        &&& view.previous_slide == start.previous_slide
        &&& shows_places(
            start.players.skip(i) + with_answer(start.players.take(i), calls.take(i), true),
            view.players,
        )
    }) by {
        assert(told_in_turn(start, accepted, calls, i));
        lemma_with_answer(start.players.take(i), accepted.take(i), calls.take(i), true);
        if let Call::Setup { player, game: Some(view), goal, .. } = calls[i] {
            law_player_view(
                StateModel { players: still_there(start.players, accepted, i), ..start },
                view,
            );
        }
    }
}

/// Without players there is no game, and nothing is said or drawn. With players, they are asked for
/// a board, and then seated on it; if that fails, this is the result, and nothing more is said.
/// Else a game is played from there, and its winners and those thrown out are the result.
pub proof fn law_whole_game<'a, B: Board, A: ?Sized>(
    multiple_goals: bool,
    rand: Random,
    apis: Seq<&'a A>,
    observers: nat,
    result: Result<GameResult<'a, A>, SeatingError>,
    after: Random,
    calls: Seq<Call<'a, B, A>>,
)
    requires
        game_run(multiple_goals, rand, apis, observers, result, after, calls),
    ensures
        apis.len() == 0 ==> {
            &&& result == Err::<GameResult<'a, A>, SeatingError>(SeatingError::NoPlayers)
            &&& after == rand
            &&& calls.len() == 0
        },
        apis.len() > 0 ==> exists|
            board: B,
            start: Result<State<B, Player<'a, A>>, SeatingError>,
        | #[trigger]
            begun(apis, board, rand, start, after, calls) && match start {
                Err(error) => result == Err::<GameResult<'a, A>, SeatingError>(error)
                    && calls.len() == apis.len(),
                Ok(state) => result matches Ok(game) && ended(
                    multiple_goals,
                    state@,
                    observers,
                    game,
                    calls.skip(apis.len() as int),
                ),
            },
{
    if apis.len() > 0 {
        let (board, start) = choose|
            board: B,
            start: Result<State<B, Player<'a, A>>, SeatingError>,
        |
            {
                &&& apis.len() <= calls.len()
                &&& board_chosen(apis, board, calls.take(apis.len() as int))
                &&& #[trigger] initial_state(apis, board, rand, start, after)
                &&& match start {
                    Err(error) => {
                        &&& result == Err::<GameResult<'a, A>, SeatingError>(error)
                        &&& calls.len() == apis.len()
                    },
                    Ok(state) => result matches Ok(game) && game_came_to(
                        multiple_goals,
                        state@,
                        observers,
                        game,
                        calls.skip(apis.len() as int),
                    ),
                }
            };
        if let Ok(state) = start {
            if let Ok(game) = result {
                let rest = calls.skip(apis.len() as int);
                let end = choose|end: StateModel<B, Player<'a, A>>| #[trigger]
                    game_played(
                        multiple_goals,
                        state@,
                        observers,
                        end,
                        game.winners@,
                        game.kicked@,
                        rest,
                    );
                assert(ended(multiple_goals, state@, observers, game, rest));
            }
        }
        assert(begun(apis, board, rand, start, after, calls));
    }
}

/// The first of `calls` ask each player for a board, on which they are then seated.
pub open spec fn begun<'a, B: Board, A: ?Sized>(
    apis: Seq<&'a A>,
    board: B,
    rand: Random,
    start: Result<State<B, Player<'a, A>>, SeatingError>,
    after: Random,
    calls: Seq<Call<'a, B, A>>,
) -> bool {
    &&& apis.len() <= calls.len()
    &&& board_chosen(apis, board, calls.take(apis.len() as int))
    &&& initial_state(apis, board, rand, start, after)
}

/// A game with exactly these calls came to this result.
pub open spec fn ended<'a, B: Board, A: ?Sized>(
    multiple_goals: bool,
    start: StateModel<B, Player<'a, A>>,
    observers: nat,
    result: GameResult<'a, A>,
    calls: Seq<Call<'a, B, A>>,
) -> bool {
    exists|end: StateModel<B, Player<'a, A>>| #[trigger]
        game_played(
            multiple_goals,
            start,
            observers,
            end,
            result.winners@,
            result.kicked@,
            calls,
        )
}

} // verus!
