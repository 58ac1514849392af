//! What each operation does to what it is handed, in plain terms.
use crate::board::{Board, Slide};
use crate::grid::{same_tile, Position};
use crate::history::{announced, spoke, spoke_before, Call, History};
use crate::observer::Observer;
use crate::player::{Color, FullPlayerInfo, Player, PlayerApi};
use crate::random::{chacha_byte, chacha_range, Random};
use crate::referee::{game_played, game_run, GameResult, Referee};
use crate::round::round_played;
use crate::seating::{
    board_chosen, initial_goals, initial_state, seat_player, settle_setup, start_broadcast,
    SeatingError,
};
use crate::seating_laws::next_word;
use crate::state::{State, StateError, StateModel};
use crate::turn::{
    ask_turn, asked, kick_current, settle_turn, settled, turn_end, Table, TurnEnd, TurnReply,
};
use crate::turn_laws::standing;
use crate::view_laws::{all_see, law_observers_see_all};
use crate::winner_laws::law_sorted_out_by_answer;
use crate::winners::{dismiss, outcome_broadcast, tell_outcome};
use std::collections::VecDeque;
use vstd::prelude::*;

verus! {

/// Two positions are the same tile exactly if they agree in both coordinates.
pub proof fn law_same_tile(a: Position, b: Position, same: bool)
    requires
        call_ensures(same_tile, (&a, &b), same),
    ensures
        same <==> a.0 == b.0 && a.1 == b.1,
{
}

/// A player begins with what they are given, and with no goal reached.
pub proof fn law_new_player(
    home: Position,
    position: Position,
    goal: Position,
    color: Color,
    info: FullPlayerInfo,
)
    requires
        call_ensures(FullPlayerInfo::new, (home, position, goal, color), info),
    ensures
        info.home == home,
        info.position == position,
        info.goal == goal,
        info.color == color,
        info.goals_reached == 0,
{
}

/// Each goal that is awarded counts for one, however many there were before; besides that, only the
/// next goal changes.
pub proof fn law_award(info: &mut FullPlayerInfo, goal: Position)
    requires
        call_ensures(FullPlayerInfo::award, (info, goal), ()),
        old(info).goals_reached < usize::MAX,
    ensures
        final(info).goals_reached == old(info).goals_reached + 1,
        final(info).goal == goal,
        final(info).home == old(info).home,
        final(info).position == old(info).position,
        final(info).color == old(info).color,
{
}

/// A player at the table is the line to them and what is known of them.
pub proof fn law_new_seat<'a, A: ?Sized>(api: &'a A, info: FullPlayerInfo, player: Player<'a, A>)
    requires
        call_ensures(Player::<'a, A>::new, (api, info), player),
    ensures
        player.api == api,
        player.info == info,
{
}

/// A new game has the board and the players that it is given, and nobody has made a slide.
pub proof fn law_new_state<B, P>(board: B, players: VecDeque<P>, state: State<B, P>)
    requires
        call_ensures(State::<B, P>::new, (board, players), state),
    ensures
        state.board == board,
        state.player_info@ == players@,
        state.previous_slide is None,
{
}

/// Only the players change when one joins, who comes last.
pub proof fn law_add_player<B, P>(state: &mut State<B, P>, player: P)
    requires
        call_ensures(State::<B, P>::add_player, (state, player), ()),
    ensures
        final(state).player_info@ == old(state).player_info@.push(player),
        final(state).board == old(state).board,
        final(state).previous_slide == old(state).previous_slide,
{
}

/// The current player is the first.
pub proof fn law_current_player<B, P>(state: State<B, P>, player: &P)
    requires
        call_ensures(State::<B, P>::current_player_info, (&state,), player),
    ensures
        *player == state.player_info@[0],
{
}

/// At the end of a turn the first player becomes the last, and nothing else changes.
pub proof fn law_next_player<B, P>(state: &mut State<B, P>)
    requires
        call_ensures(State::<B, P>::next_player, (state,), ()),
    ensures
        old(state).player_info@.len() > 0 ==> final(state).player_info@ == old(
            state,
        ).player_info@.skip(1).push(old(state).player_info@[0]),
        old(state).player_info@.len() == 0 ==> final(state).player_info@.len() == 0,
        final(state).board == old(state).board,
        final(state).previous_slide == old(state).previous_slide,
{
    if old(state).player_info@.len() > 0 {
        assert(final(state)@.players =~= old(state).player_info@.skip(1).push(
            old(state).player_info@[0],
        ));
    }
}

/// The player who is taken out is the first, and nothing else changes; where nobody is left, that
/// is an error.
pub proof fn law_remove_player<B, P>(state: &mut State<B, P>, removed: Result<P, StateError>)
    requires
        call_ensures(State::<B, P>::remove_player, (state,), removed),
    ensures
        old(state).player_info@.len() > 0 ==> {
            &&& removed is Ok
            &&& removed->Ok_0 == old(state).player_info@[0]
            &&& final(state).player_info@ == old(state).player_info@.skip(1)
        },
        old(state).player_info@.len() == 0 ==> removed is Err && final(state).player_info@.len()
            == 0,
        final(state).board == old(state).board,
        final(state).previous_slide == old(state).previous_slide,
{
}

/// A move sets the board and the last slide, and puts everybody on their new tile; all else that is
/// known of them, and their order, stays.
pub proof fn law_make_move<'a, B, A: ?Sized>(
    state: &mut State<B, Player<'a, A>>,
    slide: Slide,
    board: B,
    positions: Vec<Position>,
)
    requires
        call_ensures(
            State::<B, Player<'a, A>>::make_move,
            (state, slide, board, &positions),
            (),
        ),
    ensures
        final(state).board == board,
        final(state).previous_slide == Some(slide),
        final(state).player_info@.len() == old(state).player_info@.len(),
        forall|i: int|
            0 <= i < old(state).player_info@.len() ==> {
                &&& (#[trigger] final(state).player_info@[i]).api == old(state).player_info@[i].api
                &&& final(state).player_info@[i].info == standing(
                    old(state).player_info@[i].info,
                    positions@[i],
                )
            },
{
    assert(final(state).player_info@ == final(state)@.players);
}

/// A player has reached their goal, or their home, exactly if they stand on that tile.
pub proof fn law_arrivals<'a, B, A: ?Sized>(
    state: State<B, Player<'a, A>>,
    at_goal: bool,
    at_home: bool,
)
    requires
        call_ensures(State::<B, Player<'a, A>>::player_reached_goal, (&state,), at_goal),
        call_ensures(State::<B, Player<'a, A>>::player_reached_home, (&state,), at_home),
    ensures
        at_goal <==> state.player_info@[0].info.position == state.player_info@[0].info.goal,
        at_home <==> state.player_info@[0].info.position == state.player_info@[0].info.home,
{
}

/// Whoever is thrown out is the first player, who goes to the end of those thrown out before.
pub proof fn law_kick_current<'a, B, A: ?Sized>(
    state: &mut State<B, Player<'a, A>>,
    kicked: &mut Vec<Player<'a, A>>,
)
    requires
        call_ensures(kick_current::<B, A>, (state, kicked), ()),
    ensures
        final(state).player_info@ == old(state).player_info@.skip(1),
        final(state).board == old(state).board,
        final(state).previous_slide == old(state).previous_slide,
        final(kicked)@ == old(kicked)@.push(old(state).player_info@[0]),
{
    assert(final(state)@.players == final(state).player_info@);
}

/// A game as it lies on the table: the board, the players, the last slide, who has been thrown out,
/// and the goals that are left.
pub open spec fn as_it_lies<'a, B, A: ?Sized>(
    state: State<B, Player<'a, A>>,
    kicked: Vec<Player<'a, A>>,
    remaining: VecDeque<Position>,
) -> Table<'a, B, A> {
    Table {
        state: StateModel {
            board: state.board,
            players: state.player_info@,
            previous_slide: state.previous_slide,
        },
        kicked: kicked@,
        remaining: remaining@,
    }
}

/// The state as it lies.
pub open spec fn as_it_is<B, P>(state: State<B, P>) -> StateModel<B, P> {
    StateModel {
        board: state.board,
        players: state.player_info@,
        previous_slide: state.previous_slide,
    }
}

/// Settling a turn takes the game as it lies to the game after the turn.
pub proof fn law_settle_turn<'a, B, A: ?Sized>(
    state: &mut State<B, Player<'a, A>>,
    kicked: &mut Vec<Player<'a, A>>,
    remaining: &mut VecDeque<Position>,
    reply: TurnReply<B>,
    end: TurnEnd,
)
    requires
        call_ensures(settle_turn::<B, A>, (state, kicked, remaining, reply), end),
    ensures
        as_it_lies(*final(state), *final(kicked), *final(remaining)) == settled(
            as_it_lies(*old(state), *old(kicked), *old(remaining)),
            reply@,
        ),
        end == turn_end(as_it_lies(*old(state), *old(kicked), *old(remaining)), reply@),
{
}

/// What comes of asking for a turn is what came of asking the current player of the game as it
/// lies.
pub proof fn law_ask_turn<'a, B: Board, A: PlayerApi<B> + ?Sized>(
    state: State<B, Player<'a, A>>,
    remaining: VecDeque<Position>,
    history: &mut History<'a, B, A>,
    reply: TurnReply<B>,
)
    requires
        call_ensures(ask_turn::<B, A>, (&state, &remaining, history), reply),
    ensures
        spoke(old(history)@, final(history)@),
        asked(
            as_it_is(state),
            remaining@,
            reply@,
            final(history)@.skip(old(history)@.len() as int),
        ),
{
}

/// A new referee plays by the plain rules, draws from the start of the stream of its seed, and has
/// said nothing.
pub proof fn law_new_referee<'a, B, A: ?Sized>(seed: u64, referee: Referee<'a, B, A>)
    requires
        call_ensures(Referee::<'a, B, A>::new, (seed,), referee),
    ensures
        !referee.config.multiple_goals,
        referee.rand.seed == seed,
        referee.rand.word == 0,
        referee.history@.len() == 0,
{
}

/// An index is drawn by what the generator gives for its seed, its place in the stream and the
/// bound; the generator then stands where that draw has left it.
pub proof fn law_draw_index(random: &mut Random, bound: usize, index: usize)
    requires
        call_ensures(Random::index, (random, bound), index),
    ensures
        index < bound,
        index == chacha_range(old(random).seed, old(random).word, bound, usize::BITS).0,
        final(random).seed == old(random).seed,
        final(random).word == chacha_range(
            old(random).seed,
            old(random).word,
            bound,
            usize::BITS,
        ).1,
{
}

/// A byte is drawn by what the generator gives for its seed and its place in the stream, and uses
/// up one word.
pub proof fn law_draw_byte(random: &mut Random, byte: u8)
    requires
        call_ensures(Random::byte, (random,), byte),
    ensures
        byte == chacha_byte(old(random).seed, old(random).word),
        final(random).seed == old(random).seed,
        final(random).word == next_word(old(random).word),
{
}

/// A player who is seated gets the home at the place that was drawn, which is then free no more,
/// and the first goal, which is then no longer to be had.
pub proof fn law_seat_player<'a, A: ?Sized>(
    api: &'a A,
    homes: &mut Vec<Position>,
    goals: &mut VecDeque<Position>,
    index: usize,
    color: Color,
    player: Player<'a, A>,
)
    requires
        call_ensures(seat_player::<A>, (api, homes, goals, index, color), player),
    ensures
        player.api == api,
        player.info.home == old(homes)@[index as int],
        player.info.position == old(homes)@[index as int],
        player.info.goal == old(goals)@[0],
        player.info.goals_reached == 0,
        player.info.color == color,
        final(homes)@ == old(homes)@.remove(index as int),
        final(goals)@ == old(goals)@.skip(1),
{
}

/// A player who was told of the game stays as the last if they took it well, and else is thrown
/// out.
pub proof fn law_settle_setup<'a, B, A: ?Sized>(
    state: &mut State<B, Player<'a, A>>,
    kicked: &mut Vec<Player<'a, A>>,
    accepted: bool,
)
    requires
        call_ensures(settle_setup::<B, A>, (state, kicked, accepted), ()),
        old(state).player_info@.len() > 0,
    ensures
        final(state).board == old(state).board,
        final(state).previous_slide == old(state).previous_slide,
        accepted ==> final(state).player_info@ == old(state).player_info@.skip(1).push(
            old(state).player_info@[0],
        ) && final(kicked)@ == old(kicked)@,
        !accepted ==> final(state).player_info@ == old(state).player_info@.skip(1) && final(kicked)@
            == old(kicked)@.push(old(state).player_info@[0]),
{
    assert(final(state)@.players == final(state).player_info@);
    if accepted {
        assert(final(state)@.players =~= old(state).player_info@.skip(1).push(
            old(state).player_info@[0],
        ));
    }
}

/// Sorting out keeps those who took it well, in their order, and throws out the others, the last
/// one first.
pub proof fn law_dismiss<'a, A: ?Sized>(
    players: &mut Vec<Player<'a, A>>,
    accepted: Vec<bool>,
    kicked: &mut Vec<Player<'a, A>>,
)
    requires
        call_ensures(dismiss::<A>, (players, &accepted, kicked), ()),
        accepted@.len() == old(players)@.len(),
    ensures
        final(players)@ == old(players)@.zip_with(accepted@).filter(
            |pair: (Player<'a, A>, bool)| pair.1 == true,
        ).map_values(|pair: (Player<'a, A>, bool)| pair.0),
        final(kicked)@ == old(kicked)@ + old(players)@.zip_with(accepted@).filter(
            |pair: (Player<'a, A>, bool)| pair.1 == false,
        ).map_values(|pair: (Player<'a, A>, bool)| pair.0).reverse(),
{
    law_sorted_out_by_answer(old(players)@, accepted@, true);
    law_sorted_out_by_answer(old(players)@, accepted@, false);
}

/// Telling players of the outcome makes one call to each, in their order, and gives back how each
/// of them went.
pub proof fn law_tell_outcome<'a, B, A: PlayerApi<B> + ?Sized>(
    players: Vec<Player<'a, A>>,
    did_win: bool,
    history: &mut History<'a, B, A>,
    accepted: Vec<bool>,
)
    requires
        call_ensures(tell_outcome::<B, A>, (&players, did_win, history), accepted),
    ensures
        spoke(old(history)@, final(history)@),
        accepted@.len() == players@.len(),
        final(history)@.skip(old(history)@.len() as int).len() == players@.len(),
        forall|i: int|
            0 <= i < players@.len() ==> (#[trigger] final(history)@.skip(
                old(history)@.len() as int,
            )[i] matches Call::Won { player, did_win: outcome, accepted: ok } && player
                == players@[i].api && outcome == did_win && ok == accepted@[i]),
{
}

/// The referee's rules and draws are untouched.
pub open spec fn untouched<'a, B, A: ?Sized>(
    before: Referee<'a, B, A>,
    after: Referee<'a, B, A>,
) -> bool {
    &&& after.config.multiple_goals == before.config.multiple_goals
    &&& after.rand.seed == before.rand.seed
    &&& after.rand.word == before.rand.word
}

/// What the referee has said in the meantime.
pub open spec fn said<'a, B, A: ?Sized>(
    before: Referee<'a, B, A>,
    after: Referee<'a, B, A>,
) -> Seq<Call<'a, B, A>> {
    after.history@.skip(before.history@.len() as int)
}

/// Asking for boards asks the players for one, and the result is the one chosen.
pub proof fn law_get_player_boards<'a, B: Board, A: PlayerApi<B> + ?Sized>(
    referee: &mut Referee<'a, B, A>,
    players: Vec<&'a A>,
    board: B,
)
    requires
        call_ensures(Referee::<'a, B, A>::get_player_boards, (referee, &players), board),
    ensures
        untouched(*old(referee), *final(referee)),
        spoke(old(referee).history@, final(referee).history@),
        board_chosen(players@, board, said(*old(referee), *final(referee))),
{
}

/// The goals that are left at the start go by the referee's own rules and by the game as it is.
pub proof fn law_get_initial_goals<'a, B: Board, A: ?Sized>(
    referee: Referee<'a, B, A>,
    state: State<B, Player<'a, A>>,
    goals: Vec<Position>,
)
    requires
        call_ensures(Referee::<'a, B, A>::get_initial_goals, (&referee, &state), goals),
    ensures
        initial_goals(referee.config.multiple_goals, as_it_is(state), goals@),
{
}

/// Seating goes by the referee's own draws, and by the players and the board that it is given.
/// Nothing is said.
pub proof fn law_make_initial_state<'a, B: Board, A: ?Sized>(
    referee: &mut Referee<'a, B, A>,
    players: Vec<&'a A>,
    board: B,
    state: Result<State<B, Player<'a, A>>, SeatingError>,
)
    requires
        call_ensures(Referee::<'a, B, A>::make_initial_state, (referee, players, board), state),
    ensures
        final(referee).config == old(referee).config,
        final(referee).history@ == old(referee).history@,
        initial_state(players@, board, old(referee).rand, state, final(referee).rand),
{
}

/// Telling the players of the game takes the game as it is to the game of those who took it well.
pub proof fn law_broadcast_initial_state<'a, B: Board, A: PlayerApi<B> + ?Sized>(
    referee: &mut Referee<'a, B, A>,
    state: &mut State<B, Player<'a, A>>,
    kicked: &mut Vec<Player<'a, A>>,
)
    requires
        call_ensures(
            Referee::<'a, B, A>::broadcast_initial_state,
            (referee, state, kicked),
            (),
        ),
    ensures
        untouched(*old(referee), *final(referee)),
        spoke(old(referee).history@, final(referee).history@),
        start_broadcast(
            as_it_is(*old(state)),
            old(kicked)@,
            as_it_is(*final(state)),
            final(kicked)@,
            said(*old(referee), *final(referee)),
        ),
{
}

/// Showing the game to the observers shows each of them the game as it is.
pub proof fn law_broadcast_state<'a, B: Clone, A: ?Sized, O: Observer<B> + ?Sized>(
    referee: &mut Referee<'a, B, A>,
    state: State<B, Player<'a, A>>,
    observers: Vec<Box<O>>,
)
    requires
        call_ensures(
            Referee::<'a, B, A>::broadcast_state_to_observers::<O>,
            (referee, &state, &observers),
            (),
        ),
    ensures
        untouched(*old(referee), *final(referee)),
        announced(observers@, old(referee).history@, final(referee).history@),
        all_see(observers@.len(), as_it_is(state), said(*old(referee), *final(referee))),
{
    law_observers_see_all(
        observers@.len(),
        as_it_is(state),
        said(*old(referee), *final(referee)),
    );
}

/// Telling the observers that the game is over tells each of them once, in their order.
pub proof fn law_broadcast_game_over<'a, B, A: ?Sized, O: Observer<B> + ?Sized>(
    referee: &mut Referee<'a, B, A>,
    observers: Vec<Box<O>>,
)
    requires
        call_ensures(
            Referee::<'a, B, A>::broadcast_game_over_to_observers::<O>,
            (referee, &observers),
            (),
        ),
    ensures
        untouched(*old(referee), *final(referee)),
        announced(observers@, old(referee).history@, final(referee).history@),
        said(*old(referee), *final(referee)).len() == observers@.len(),
        forall|i: int|
            0 <= i < observers@.len() ==> (#[trigger] said(
                *old(referee),
                *final(referee),
            )[i] matches Call::GameOver { observer } && observer == i),
{
}

/// Playing a round takes the game as it lies to the game after the round, before the observers that
/// are given.
pub proof fn law_run_round<'a, B: Board, A: PlayerApi<B> + ?Sized, O: Observer<B> + ?Sized>(
    referee: &mut Referee<'a, B, A>,
    state: &mut State<B, Player<'a, A>>,
    observers: Vec<Box<O>>,
    kicked: &mut Vec<Player<'a, A>>,
    remaining: &mut VecDeque<Position>,
    over: bool,
)
    requires
        call_ensures(
            Referee::<'a, B, A>::run_round::<O>,
            (referee, state, &observers, kicked, remaining),
            over,
        ),
    ensures
        untouched(*old(referee), *final(referee)),
        spoke_before(observers@, old(referee).history@, final(referee).history@),
        round_played(
            as_it_lies(*old(state), *old(kicked), *old(remaining)),
            observers@.len(),
            said(*old(referee), *final(referee)),
            as_it_lies(*final(state), *final(kicked), *final(remaining)),
            over,
        ),
{
}

/// Telling of the outcome tells the winners and the losers that are given.
pub proof fn law_broadcast_winners<'a, B, A: PlayerApi<B> + ?Sized>(
    referee: &mut Referee<'a, B, A>,
    winners: &mut Vec<Player<'a, A>>,
    losers: Vec<Player<'a, A>>,
    kicked: &mut Vec<Player<'a, A>>,
)
    requires
        call_ensures(
            Referee::<'a, B, A>::broadcast_winners,
            (referee, winners, losers, kicked),
            (),
        ),
    ensures
        untouched(*old(referee), *final(referee)),
        spoke(old(referee).history@, final(referee).history@),
        outcome_broadcast(
            old(winners)@,
            losers@,
            old(kicked)@,
            final(winners)@,
            final(kicked)@,
            said(*old(referee), *final(referee)),
        ),
{
}

/// Playing from a state plays one game by the referee's own rules, which begins with the game as it
/// is and ends with it as it is then.
pub proof fn law_run_from_state<'a, B: Board, A: PlayerApi<B> + ?Sized, O: Observer<B> + ?Sized>(
    referee: &mut Referee<'a, B, A>,
    state: &mut State<B, Player<'a, A>>,
    observers: Vec<Box<O>>,
    result: GameResult<'a, A>,
)
    requires
        call_ensures(
            Referee::<'a, B, A>::run_from_state::<O>,
            (referee, state, &observers),
            result,
        ),
    ensures
        untouched(*old(referee), *final(referee)),
        spoke_before(observers@, old(referee).history@, final(referee).history@),
        game_played(
            old(referee).config.multiple_goals,
            as_it_is(*old(state)),
            observers@.len(),
            as_it_is(*final(state)),
            result.winners@,
            result.kicked@,
            said(*old(referee), *final(referee)),
        ),
{
}

/// Playing a game plays one of the players that are given, by the referee's own rules and draws.
pub proof fn law_run_game<'a, B: Board, A: PlayerApi<B> + ?Sized, O: Observer<B> + ?Sized>(
    referee: &mut Referee<'a, B, A>,
    players: Vec<&'a A>,
    observers: Vec<Box<O>>,
    result: Result<GameResult<'a, A>, SeatingError>,
)
    requires
        call_ensures(
            Referee::<'a, B, A>::run_game::<O>,
            (referee, players, &observers),
            result,
        ),
    ensures
        final(referee).config == old(referee).config,
        spoke_before(observers@, old(referee).history@, final(referee).history@),
        game_run(
            old(referee).config.multiple_goals,
            old(referee).rand,
            players@,
            observers@.len(),
            result,
            final(referee).rand,
            said(*old(referee), *final(referee)),
        ),
{
}

} // verus!
