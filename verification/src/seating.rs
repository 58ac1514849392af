//! The start of a game: the board, the players' places, and the first goals.
use crate::board::Board;
use crate::grid::{same_tile, Position};
use crate::history::{since, spoke, success, Call};
use crate::player::{Color, FullPlayerInfo, Player, PlayerApi};
use crate::random::Random;
use crate::referee::Referee;
use crate::state::{is_player_state, rotated, State, StateModel};
use crate::turn::kick_current;
use crate::winners::{answered, lemma_answered_push, lemma_filter_step};
use std::collections::VecDeque;
use vstd::prelude::*;

verus! {

/// The number of columns of the board that a game is played on.
pub const COLUMNS: u32 = 7;

/// The number of rows of the board that a game is played on.
pub const ROWS: u32 = 7;

/// Why a game could not begin.
#[derive(Clone, Copy, Debug, PartialEq, Eq, Structural)]
pub enum SeatingError {
    /// There is nobody to play.
    NoPlayers,
    /// The homes were the first to run out.
    NotEnoughHomes,
    /// The goals were the first to run out.
    NotEnoughGoals,
}

/// The players are asked for a board, one after the other, and answer with `proposals`.
pub open spec fn proposal_calls<'a, B, A: ?Sized>(
    apis: Seq<&'a A>,
    proposals: Seq<Option<B>>,
) -> Seq<Call<'a, B, A>> {
    Seq::new(
        apis.len(),
        |i: int|
            Call::ProposeBoard {
                player: apis[i],
                cols: COLUMNS,
                rows: ROWS,
                proposal: proposals[i],
            },
    )
}

/// The first board that somebody proposed.
pub open spec fn first_proposal<B>(proposals: Seq<Option<B>>) -> Option<B>
    decreases proposals.len(),
{
    if proposals.len() == 0 {
        None
    } else if proposals[0] is Some {
        proposals[0]
    } else {
        first_proposal(proposals.skip(1))
    }
}

proof fn lemma_first_proposal_push<B>(proposals: Seq<Option<B>>, next: Option<B>)
    ensures
        first_proposal(proposals.push(next)) == if first_proposal(proposals) is Some {
            first_proposal(proposals)
        } else {
            next
        },
    decreases proposals.len(),
{
    let grown = proposals.push(next);
    if proposals.len() == 0 {
        assert(grown.skip(1) =~= Seq::empty());
        assert(first_proposal(grown.skip(1)) is None);
    } else {
        assert(grown.skip(1) =~= proposals.skip(1).push(next));
        lemma_first_proposal_push(proposals.skip(1), next);
    }
}

/// All players were asked for a board, which is all that `calls` hold, and the first one proposed
/// is `board`. Where nobody proposes any, `board` is a default one.
pub open spec fn board_chosen<'a, B: Board, A: ?Sized>(
    apis: Seq<&'a A>,
    board: B,
    calls: Seq<Call<'a, B, A>>,
) -> bool {
    exists|proposals: Seq<Option<B>>|
        {
            &&& proposals.len() == apis.len()
            &&& calls == #[trigger] proposal_calls(apis, proposals)
            &&& match first_proposal(proposals) {
                Some(proposal) => board == proposal,
                None => call_ensures(B::default_board, (COLUMNS, ROWS), board),
            }
        }
}

/// A player who starts at home.
pub open spec fn newcomer<'a, A: ?Sized>(
    api: &'a A,
    home: Position,
    goal: Position,
    color: Color,
) -> Player<'a, A> {
    Player { api, info: FullPlayerInfo { home, position: home, goal, goals_reached: 0, color } }
}

/// The color that `rand` draws next.
pub open spec fn next_color(rand: Random) -> Color {
    Color {
        red: rand.next_byte(),
        green: rand.after_byte().next_byte(),
        blue: rand.after_byte().after_byte().next_byte(),
    }
}

/// How far the seating of the players has come: who is seated, and which homes are free.
#[verifier::ext_equal]
pub struct Seating<'a, A: ?Sized> {
    pub players: Seq<Player<'a, A>>,
    pub homes: Seq<Position>,
    pub rand: Random,
}

/// Seats `apis` in their order. Each gets a home that is drawn from those still free, the next of
/// `goals`, and a color that is drawn then.
pub open spec fn seated<'a, A: ?Sized>(
    apis: Seq<&'a A>,
    homes: Seq<Position>,
    goals: Seq<Position>,
    rand: Random,
) -> Seating<'a, A>
    decreases apis.len(),
{
    if apis.len() == 0 {
        Seating { players: Seq::empty(), homes, rand }
    } else {
        let before = seated(apis.drop_last(), homes, goals, rand);
        let bound = before.homes.len() as usize;
        let index = before.rand.next_index(bound) as int;
        let drawn = before.rand.after_index(bound);
        Seating {
            players: before.players.push(
                newcomer(
                    apis.last(),
                    before.homes[index],
                    goals[apis.len() - 1],
                    next_color(drawn),
                ),
            ),
            homes: before.homes.remove(index),
            rand: drawn.after_byte().after_byte().after_byte(),
        }
    }
}

/// Each draw of a home in [`seated`] hits one that is still free.
pub open spec fn drawn_within<'a, A: ?Sized>(
    apis: Seq<&'a A>,
    homes: Seq<Position>,
    goals: Seq<Position>,
    rand: Random,
) -> bool
    decreases apis.len(),
{
    apis.len() == 0 || {
        let before = seated(apis.drop_last(), homes, goals, rand);
        &&& drawn_within(apis.drop_last(), homes, goals, rand)
        &&& before.rand.next_index(before.homes.len() as usize) < before.homes.len()
    }
}

/// Everyone who is seated starts at home, with the goal that is theirs by order, and has not
/// reached any goal.
pub proof fn lemma_seated<'a, A: ?Sized>(
    apis: Seq<&'a A>,
    homes: Seq<Position>,
    goals: Seq<Position>,
    rand: Random,
)
    ensures
        ({
            let players = seated(apis, homes, goals, rand).players;
            &&& players.len() == apis.len()
            &&& forall|i: int|
                0 <= i < players.len() ==> (#[trigger] players[i]) == newcomer(
                    apis[i],
                    players[i].info.home,
                    goals[i],
                    players[i].info.color,
                )
        }),
    decreases apis.len(),
{
    if apis.len() > 0 {
        lemma_seated(apis.drop_last(), homes, goals, rand);
    }
}

/// Why `count` players cannot be seated, if they cannot.
pub open spec fn shortage(count: nat, homes: nat, goals: nat) -> Option<SeatingError> {
    if count <= homes && count <= goals {
        None
    } else if homes <= goals {
        Some(SeatingError::NotEnoughHomes)
    } else {
        Some(SeatingError::NotEnoughGoals)
    }
}

/// The board named its homes and goals, and `result` and `after` are what the seating of `apis`
/// makes of them, if `rand` makes the draws.
pub open spec fn initial_state<'a, B: Board, A: ?Sized>(
    apis: Seq<&'a A>,
    board: B,
    rand: Random,
    result: Result<State<B, Player<'a, A>>, SeatingError>,
    after: Random,
) -> bool {
    exists|homes: Vec<Position>, goals: Vec<Position>| #[trigger]
        seats_drawn(apis, board, rand, result, after, homes, goals)
}

/// What [`initial_state`] says where the board named `homes` and `goals`.
pub open spec fn seats_drawn<'a, B: Board, A: ?Sized>(
    apis: Seq<&'a A>,
    board: B,
    rand: Random,
    result: Result<State<B, Player<'a, A>>, SeatingError>,
    after: Random,
    homes: Vec<Position>,
    goals: Vec<Position>,
) -> bool {
    &&& call_ensures(B::possible_homes, (&board,), homes)
    &&& call_ensures(B::possible_goals, (&board,), goals)
    &&& match shortage(apis.len(), homes@.len(), goals@.len()) {
        Some(error) => result == Err::<State<B, Player<'a, A>>, SeatingError>(error) && after
            == rand,
        None => {
            let seating = seated(apis, homes@, goals@, rand);
            &&& result matches Ok(state) && state@ == (StateModel {
                board,
                players: seating.players,
                previous_slide: None,
            })
            &&& after == seating.rand
            &&& drawn_within(apis, homes@, goals@, rand)
        },
    }
}

/// Whether a goal is none of those that the players look for already.
pub open spec fn is_free<'a, A: ?Sized>(players: Seq<Player<'a, A>>) -> spec_fn(Position) -> bool {
    |goal: Position|
        forall|i: int| 0 <= i < players.len() ==> (#[trigger] players[i]).info.goal != goal
}

/// The board named the goals, and `goals` are those of them that are still free, in their order;
/// but with one goal for each player there are none.
pub open spec fn initial_goals<'a, B: Board, A: ?Sized>(
    multiple_goals: bool,
    state: StateModel<B, Player<'a, A>>,
    goals: Seq<Position>,
) -> bool {
    if multiple_goals {
        exists|possible: Vec<Position>|
            {
                &&& #[trigger] call_ensures(B::possible_goals, (&state.board,), possible)
                &&& goals == possible@.filter(is_free(state.players))
            }
    } else {
        goals == Seq::<Position>::empty()
    }
}

/// The players when `i` of them have been told of the game: first those who still wait to be told,
/// then those who have been told and have stayed.
pub open spec fn still_there<'a, A: ?Sized>(
    players: Seq<Player<'a, A>>,
    accepted: Seq<bool>,
    i: int,
) -> Seq<Player<'a, A>> {
    players.skip(i) + answered(players.take(i), accepted.take(i), true)
}

/// The first players of `start` were told of the game one after the other, which is all that
/// `calls` hold, and `accepted` says of whom that went well.
pub open spec fn introduced<'a, B: Board, A: ?Sized>(
    start: StateModel<B, Player<'a, A>>,
    accepted: Seq<bool>,
    calls: Seq<Call<'a, B, A>>,
) -> bool {
    &&& calls.len() == accepted.len()
    &&& forall|i: int|
        0 <= i < accepted.len() ==> #[trigger] told_in_turn(start, accepted, calls, i)
}

/// The player `i` was told what everybody may know of the game as it stood then, and of their goal.
pub open spec fn told_in_turn<'a, B: Board, A: ?Sized>(
    start: StateModel<B, Player<'a, A>>,
    accepted: Seq<bool>,
    calls: Seq<Call<'a, B, A>>,
    i: int,
) -> bool {
    &&& calls[i] matches Call::Setup { player, game: Some(view), goal, accepted: ok }
    &&& player == start.players[i].api
    &&& goal == start.players[i].info.goal
    &&& ok == accepted[i]
    &&& is_player_state(
        StateModel { players: still_there(start.players, accepted, i), ..start },
        view,
    )
}

/// One more player was told.
proof fn lemma_introduced_push<'a, B: Board, A: ?Sized>(
    start: StateModel<B, Player<'a, A>>,
    accepted: Seq<bool>,
    calls: Seq<Call<'a, B, A>>,
    ok: bool,
    call: Call<'a, B, A>,
)
    requires
        introduced(start, accepted, calls),
        told_in_turn(start, accepted.push(ok), calls.push(call), accepted.len() as int),
    ensures
        introduced(start, accepted.push(ok), calls.push(call)),
{
    let grown = accepted.push(ok);
    assert forall|i: int| 0 <= i < grown.len() implies #[trigger] told_in_turn(
        start,
        grown,
        calls.push(call),
        i,
    ) by {
        if i < accepted.len() {
            assert(told_in_turn(start, accepted, calls, i));
            assert(grown.take(i) =~= accepted.take(i));
        }
    }
}

/// All players of `start` were told of the game, which is all that `calls` hold. Who did not take
/// it well was thrown out; the others stay, in their order.
pub open spec fn start_broadcast<'a, B: Board, A: ?Sized>(
    start: StateModel<B, Player<'a, A>>,
    kicked: Seq<Player<'a, A>>,
    state: StateModel<B, Player<'a, A>>,
    final_kicked: Seq<Player<'a, A>>,
    calls: Seq<Call<'a, B, A>>,
) -> bool {
    exists|accepted: Seq<bool>|
        {
            &&& #[trigger] introduced(start, accepted, calls)
            &&& accepted.len() == start.players.len()
            &&& state == (StateModel {
                players: answered(start.players, accepted, true),
                ..start
            })
            &&& final_kicked == kicked + answered(start.players, accepted, false)
        }
}

/// Who took it well.
pub proof fn lemma_who_accepted<'a, B: Board, A: ?Sized>(
    start: StateModel<B, Player<'a, A>>,
    kicked: Seq<Player<'a, A>>,
    state: StateModel<B, Player<'a, A>>,
    final_kicked: Seq<Player<'a, A>>,
    calls: Seq<Call<'a, B, A>>,
) -> (accepted: Seq<bool>)
    requires
        start_broadcast(start, kicked, state, final_kicked, calls),
    ensures
        introduced(start, accepted, calls),
        accepted.len() == start.players.len(),
        state == (StateModel { players: answered(start.players, accepted, true), ..start }),
        final_kicked == kicked + answered(start.players, accepted, false),
{
    choose|accepted: Seq<bool>|
        {
            &&& #[trigger] introduced(start, accepted, calls)
            &&& accepted.len() == start.players.len()
            &&& state == (StateModel { players: answered(start.players, accepted, true), ..start })
            &&& final_kicked == kicked + answered(start.players, accepted, false)
        }
}

/// Gives a player the home at `index` of those still free, and the next goal.
pub fn seat_player<'a, A: ?Sized>(
    api: &'a A,
    homes: &mut Vec<Position>,
    goals: &mut VecDeque<Position>,
    index: usize,
    color: Color,
) -> (player: Player<'a, A>)
    requires
        index < old(homes)@.len(),
        old(goals)@.len() > 0,
    ensures
        player == newcomer(api, old(homes)@[index as int], old(goals)@[0], color),
        final(homes)@ == old(homes)@.remove(index as int),
        final(goals)@ == old(goals)@.skip(1),
{
    let home = homes.remove(index);
    let goal = goals[0];
    let _ = goals.pop_front();
    assert(goals@ =~= old(goals)@.skip(1));
    Player::new(api, FullPlayerInfo::new(home, home, goal, color))
}

/// The goals out of `possible` that none of the players looks for already.
pub fn free_goals<'a, B, A: ?Sized>(
    possible: &Vec<Position>,
    state: &State<B, Player<'a, A>>,
) -> (goals: Vec<Position>)
    ensures
        goals@ == possible@.filter(is_free(state@.players)),
{
    let mut goals: Vec<Position> = Vec::new();
    let count: usize = possible.len();
    let players: usize = state.player_info.len();
    proof {
        reveal(Seq::filter);
    }
    for i in 0..count
        invariant
            count == possible@.len(),
            players == state@.players.len(),
            goals@ == possible@.take(i as int).filter(is_free(state@.players)),
    {
        let goal = possible[i];
        let mut free = true;
        for j in 0..players
            invariant
                players == state@.players.len(),
                free == (forall|k: int|
                    0 <= k < j ==> (#[trigger] state@.players[k]).info.goal != goal),
        {
            if same_tile(&state.player_info[j].info.goal, &goal) {
                free = false;
            }
        }
        proof {
            lemma_filter_step(possible@, i as int, is_free(state@.players));
        }
        if free {
            goals.push(goal);
        }
    }
    assert(possible@.take(count as int) =~= possible@);
    goals
}

/// Goes on to the next player; the current one is thrown out unless `accepted`.
pub fn settle_setup<'a, B, A: ?Sized>(
    state: &mut State<B, Player<'a, A>>,
    kicked: &mut Vec<Player<'a, A>>,
    accepted: bool,
)
    requires
        old(state)@.players.len() > 0,
    ensures
        accepted ==> final(state)@ == (StateModel {
            players: rotated(old(state)@.players, 1),
            ..old(state)@
        }) && final(kicked)@ == old(kicked)@,
        !accepted ==> final(state)@ == (StateModel {
            players: old(state)@.players.skip(1),
            ..old(state)@
        }) && final(kicked)@ == old(kicked)@.push(old(state)@.players[0]),
{
    if accepted {
        state.next_player();
    } else {
        kick_current(state, kicked);
    }
}

impl<'a, B, A: ?Sized> Referee<'a, B, A> {
    /// Asks every player to propose a board, and returns the first that is proposed, or a default
    /// one if nobody proposes any.
    pub fn get_player_boards(&mut self, players: &Vec<&'a A>) -> (board: B) where
        B: Board,
        A: PlayerApi<B>,

        requires
            players@.len() > 0,
        ensures
            final(self).config == old(self).config,
            final(self).rand == old(self).rand,
            spoke(old(self).history@, final(self).history@),
            board_chosen(players@, board, since(old(self).history@, final(self).history@)),
    {
        let ghost start = self.history@;
        let ghost mut proposals: Seq<Option<B>> = Seq::empty();
        let mut chosen: Option<B> = None;
        let count: usize = players.len();
        assert(start.take(start.len() as int) =~= start);
        for i in 0..count
            invariant
                count == players@.len(),
                self.config == old(self).config,
                self.rand == old(self).rand,
                start == old(self).history@,
                spoke(start, self.history@),
                proposals.len() == i,
                since(start, self.history@) =~= proposal_calls(players@.take(i as int), proposals),
                chosen == first_proposal(proposals),
        {
            let ghost said = self.history@;
            let answer = self.history.propose_board0(players[i], COLUMNS, ROWS);
            proof {
                assert(self.history@.take(start.len() as int) =~= said.take(start.len() as int));
                assert(since(start, self.history@) =~= since(start, said).push(
                    self.history@.last(),
                ));
                lemma_first_proposal_push(proposals, success(answer));
                proposals = proposals.push(success(answer));
            }
            match answer {
                Ok(board) => {
                    if chosen.is_none() {
                        chosen = Some(board);
                    }
                },
                Err(_) => {},
            }
        }
        assert(players@.take(count as int) =~= players@);
        assert(since(start, self.history@) == proposal_calls(players@, proposals));
        match chosen {
            Some(board) => board,
            None => B::default_board(COLUMNS, ROWS),
        }
    }

    /// The goals that are handed out in the course of a game that begins with `state`.
    pub fn get_initial_goals(&self, state: &State<B, Player<'a, A>>) -> (goals: Vec<
        Position,
    >) where B: Board
        ensures
            initial_goals(self.config.multiple_goals, state@, goals@),
    {
        if self.config.multiple_goals {
            let possible = state.board.possible_goals();
            assert(call_ensures(B::possible_goals, (&state@.board,), possible));
            free_goals(&possible, state)
        } else {
            Vec::new()
        }
    }

    /// Draws a color.
    fn draw_color(&mut self) -> (color: Color)
        ensures
            color == next_color(old(self).rand),
            final(self).rand == old(self).rand.after_byte().after_byte().after_byte(),
            final(self).config == old(self).config,
            final(self).history@ == old(self).history@,
    {
        let red: u8 = self.rand.byte();
        let green: u8 = self.rand.byte();
        let blue: u8 = self.rand.byte();
        Color { red, green, blue }
    }

    /// Seats the players, each on a home that is drawn, if there are enough homes and goals.
    pub fn seat_players(
        &mut self,
        players: Vec<&'a A>,
        homes: Vec<Position>,
        goals: Vec<Position>,
    ) -> (seats: Result<VecDeque<Player<'a, A>>, SeatingError>)
        ensures
            final(self).config == old(self).config,
            final(self).history@ == old(self).history@,
            match shortage(players@.len(), homes@.len(), goals@.len()) {
                Some(error) => seats == Err::<VecDeque<Player<'a, A>>, SeatingError>(error)
                    && final(self).rand == old(self).rand,
                None => {
                    let seating = seated(players@, homes@, goals@, old(self).rand);
                    &&& seats matches Ok(seats) && seats@ == seating.players
                    &&& final(self).rand == seating.rand
                    &&& drawn_within(players@, homes@, goals@, old(self).rand)
                },
            },
    {
        let count: usize = players.len();
        if count > homes.len() || count > goals.len() {
            return Err(
                if homes.len() <= goals.len() {
                    SeatingError::NotEnoughHomes
                } else {
                    SeatingError::NotEnoughGoals
                },
            );
        }
        let mut possible_homes = homes;
        let mut possible_goals: VecDeque<Position> = VecDeque::new();
        let goal_count: usize = goals.len();
        for i in 0..goal_count
            invariant
                goal_count == goals@.len(),
                possible_goals@ =~= goals@.take(i as int),
        {
            possible_goals.push_back(goals[i]);
        }
        let mut player_info: VecDeque<Player<'a, A>> = VecDeque::new();
        assert(goals@.skip(0) =~= goals@);
        for i in 0..count
            invariant
                count == players@.len(),
                count <= homes@.len(),
                count <= goals@.len(),
                self.config == old(self).config,
                self.history@ == old(self).history@,
                possible_homes@.len() == homes@.len() - i,
                possible_goals@ =~= goals@.skip(i as int),
                ({
                    let seating = seated(players@.take(i as int), homes@, goals@, old(self).rand);
                    &&& player_info@ == seating.players
                    &&& possible_homes@ == seating.homes
                    &&& self.rand == seating.rand
                }),
                drawn_within(players@.take(i as int), homes@, goals@, old(self).rand),
        {
            assert(players@.take(i + 1).drop_last() =~= players@.take(i as int));
            let index: usize = self.rand.index(possible_homes.len());
            let color = self.draw_color();
            let player = seat_player(
                players[i],
                &mut possible_homes,
                &mut possible_goals,
                index,
                color,
            );
            player_info.push_back(player);
        }
        assert(players@.take(count as int) =~= players@);
        Ok(player_info)
    }

    /// The state that a game of these players on this board begins with: each player has a goal and
    /// a home, and stands at home.
    pub fn make_initial_state(
        &mut self,
        players: Vec<&'a A>,
        board: B,
    ) -> (state: Result<State<B, Player<'a, A>>, SeatingError>) where B: Board
        ensures
            final(self).config == old(self).config,
            final(self).history@ == old(self).history@,
            initial_state(players@, board, old(self).rand, state, final(self).rand),
    {
        let homes = board.possible_homes();
        let goals = board.possible_goals();
        let ghost named = (players@, homes, goals);
        let state = match self.seat_players(players, homes, goals) {
            Ok(seats) => Ok(State::new(board, seats)),
            Err(error) => Err(error),
        };
        assert(seats_drawn(
            named.0,
            board,
            old(self).rand,
            state,
            self.rand,
            named.1,
            named.2,
        ));
        state
    }

    /// Tells every player what everybody may know of the game as it stands, and the player's own
    /// goal. Throws out whoever does not take it well.
    pub fn broadcast_initial_state(
        &mut self,
        state: &mut State<B, Player<'a, A>>,
        kicked: &mut Vec<Player<'a, A>>,
    ) where B: Board, A: PlayerApi<B>
        ensures
            final(self).config == old(self).config,
            final(self).rand == old(self).rand,
            spoke(old(self).history@, final(self).history@),
            start_broadcast(
                old(state)@,
                old(kicked)@,
                final(state)@,
                final(kicked)@,
                since(old(self).history@, final(self).history@),
            ),
    {
        let ghost start = state@;
        let ghost opening = self.history@;
        let ghost mut accepted: Seq<bool> = Seq::empty();
        let total_players: usize = state.player_info.len();
        assert(opening.take(opening.len() as int) =~= opening);
        for idx in 0..total_players
            invariant
                total_players == start.players.len(),
                start == old(state)@,
                opening == old(self).history@,
                self.config == old(self).config,
                self.rand == old(self).rand,
                accepted.len() == idx,
                spoke(opening, self.history@),
                introduced(start, accepted, since(opening, self.history@)),
                state@ == (StateModel {
                    players: start.players.skip(idx as int) + answered(
                        start.players.take(idx as int),
                        accepted,
                        true,
                    ),
                    ..start
                }),
                kicked@ == old(kicked)@ + answered(
                    start.players.take(idx as int),
                    accepted,
                    false,
                ),
        {
            let ghost said = self.history@;
            let player = *state.current_player_info();
            assert(player == start.players[idx as int]);
            let view = state.to_player_state();
            let ok = self.history.setup(player.api, Some(view), player.info.goal);
            settle_setup(state, kicked, ok);
            proof {
                let calls = since(opening, said);
                let call = self.history@.last();
                assert(self.history@.take(opening.len() as int) =~= said.take(
                    opening.len() as int,
                ));
                assert(since(opening, self.history@) =~= calls.push(call));
                assert(accepted.push(ok).take(idx as int) =~= accepted);
                lemma_introduced_push(start, accepted, calls, ok, call);
                lemma_answered_push(start.players, accepted, ok, true);
                lemma_answered_push(start.players, accepted, ok, false);
                let kept = answered(start.players.take(idx as int), accepted, true);
                let waiting = start.players.skip(idx as int);
                assert((waiting + kept).skip(1) =~= start.players.skip(idx + 1) + kept);
                assert(rotated(waiting + kept, 1) =~= start.players.skip(idx + 1) + kept.push(
                    player,
                ));
                accepted = accepted.push(ok);
            }
        }
        assert(start.players.take(total_players as int) =~= start.players);
        assert(state@.players =~= answered(start.players, accepted, true));
    }
}

} // verus!
