//! The referee: a game from its start to its end.
use crate::board::Board;
use crate::config::Config;
use crate::grid::Position;
use crate::history::{announced, joined, lemma_since, since, spoke_before, Call, History};
use crate::observer::Observer;
use crate::player::{Player, PlayerApi};
use crate::random::Random;
use crate::round::{
    goals_within, lemma_one_goal_a_round, lemma_turns_of_round, round_played, shown_to_all,
};
use crate::seating::{
    board_chosen, initial_goals, initial_state, lemma_seated, lemma_who_accepted, seated,
    start_broadcast, SeatingError,
};
use crate::state::{State, StateModel};
use crate::turn::{table_of, Table};
use crate::winners::{answered, losers_of, outcome_broadcast, winners_of};
use std::collections::VecDeque;
use vstd::prelude::*;

verus! {

/// After this many rounds a game is over in any case.
pub const ROUNDS: usize = 1000;

/// How a game came out: who won it, and who misbehaved in its course.
pub struct GameResult<'a, A: ?Sized> {
    pub winners: Vec<Player<'a, A>>,
    pub kicked: Vec<Player<'a, A>>,
}

impl<'a, A: ?Sized> Default for GameResult<'a, A> {
    /// A game that nobody has won, and in which nobody misbehaved.
    fn default() -> (result: Self)
        ensures
            result.winners@ == Seq::<Player<'a, A>>::empty(),
            result.kicked@ == Seq::<Player<'a, A>>::empty(),
    {
        GameResult { winners: Vec::new(), kicked: Vec::new() }
    }
}

impl<'a, A: ?Sized> Clone for GameResult<'a, A> {
    fn clone(&self) -> (result: Self)
        ensures
            result.winners@ == self.winners@,
            result.kicked@ == self.kicked@,
    {
        let result = GameResult { winners: self.winners.clone(), kicked: self.kicked.clone() };
        assert(result.winners@ =~= self.winners@);
        assert(result.kicked@ =~= self.kicked@);
        result
    }
}

/// The player who won a game alone, if there is one.
pub type GameWinner<'a, A> = Option<Player<'a, A>>;

/// Runs games.
pub struct Referee<'a, B, A: ?Sized> {
    pub config: Config,
    pub rand: Random,
    /// What this referee has said to players and observers.
    pub history: History<'a, B, A>,
}

/// The round `i` led from the table `i` to the next. Only the last round may end the game, which is
/// what `over` says.
pub open spec fn linked<'a, B: Board, A: ?Sized>(
    tables: Seq<Table<'a, B, A>>,
    observers: nat,
    rounds: Seq<Seq<Call<'a, B, A>>>,
    over: bool,
    i: int,
) -> bool {
    round_played(tables[i], observers, rounds[i], tables[i + 1], over && i == tables.len() - 2)
}

/// Round after round was played, which led through `tables`; `over` says whether the last round
/// ended the game. `rounds` holds the calls that were made in each round.
pub open spec fn rounds_through<'a, B: Board, A: ?Sized>(
    tables: Seq<Table<'a, B, A>>,
    observers: nat,
    rounds: Seq<Seq<Call<'a, B, A>>>,
    over: bool,
) -> bool {
    &&& 1 <= tables.len() <= ROUNDS + 1
    &&& rounds.len() == tables.len() - 1
    &&& over ==> tables.len() >= 2
    &&& forall|i: int|
        0 <= i < tables.len() - 1 ==> #[trigger] linked(tables, observers, rounds, over, i)
}

/// Rounds were played from `opened` on until one ended the game, but no more than [`ROUNDS`], and
/// that led to `closed`. `calls` were made in their course.
pub open spec fn rounds_played<'a, B: Board, A: ?Sized>(
    opened: Table<'a, B, A>,
    observers: nat,
    calls: Seq<Call<'a, B, A>>,
    closed: Table<'a, B, A>,
) -> bool {
    exists|tables: Seq<Table<'a, B, A>>, rounds: Seq<Seq<Call<'a, B, A>>>, over: bool| #[trigger]
        rounds_of(opened, observers, calls, closed, tables, rounds, over)
}

/// What [`rounds_played`] says where the rounds led through `tables`.
pub open spec fn rounds_of<'a, B: Board, A: ?Sized>(
    opened: Table<'a, B, A>,
    observers: nat,
    calls: Seq<Call<'a, B, A>>,
    closed: Table<'a, B, A>,
    tables: Seq<Table<'a, B, A>>,
    rounds: Seq<Seq<Call<'a, B, A>>>,
    over: bool,
) -> bool {
    &&& rounds_through(tables, observers, rounds, over)
    &&& over || tables.len() == ROUNDS + 1
    &&& tables[0] == opened
    &&& tables.last() == closed
    &&& calls == joined(rounds)
}

/// The tables that the rounds of a game led through, the calls that were made in each of them, and
/// whether the last one ended the game.
pub proof fn lemma_tables_of_rounds<'a, B: Board, A: ?Sized>(
    opened: Table<'a, B, A>,
    observers: nat,
    calls: Seq<Call<'a, B, A>>,
    closed: Table<'a, B, A>,
) -> (rounds: (Seq<Table<'a, B, A>>, Seq<Seq<Call<'a, B, A>>>, bool))
    requires
        rounds_played(opened, observers, calls, closed),
    ensures
        rounds_of(opened, observers, calls, closed, rounds.0, rounds.1, rounds.2),
{
    choose|tables: Seq<Table<'a, B, A>>, rounds: Seq<Seq<Call<'a, B, A>>>, over: bool| #[trigger]
        rounds_of(opened, observers, calls, closed, tables, rounds, over)
}

/// So many observers are told, one after the other, that the game is over.
pub open spec fn ending_calls<'a, B, A: ?Sized>(observers: nat) -> Seq<Call<'a, B, A>> {
    Seq::new(observers, |i: int| Call::GameOver { observer: i as nat })
}

/// The calls that are made in a game, in their order.
#[verifier::ext_equal]
pub struct Story<'a, B, A: ?Sized> {
    /// The players are told of the game.
    pub setups: Seq<Call<'a, B, A>>,
    /// The observers are shown how it begins.
    pub opening: Seq<Call<'a, B, A>>,
    /// The rounds are played.
    pub rounds: Seq<Call<'a, B, A>>,
    /// The observers are told that it is over.
    pub ending: Seq<Call<'a, B, A>>,
    /// The players are told how it ended for them.
    pub outcome: Seq<Call<'a, B, A>>,
}

impl<'a, B, A: ?Sized> Story<'a, B, A> {
    /// All the calls.
    pub open spec fn calls(self) -> Seq<Call<'a, B, A>> {
        self.setups + (self.opening + (self.rounds + (self.ending + self.outcome)))
    }
}

/// A game that began with `start` was played: the players were told of it, the observers were shown
/// it, rounds led from `opened` to `closed`, the observers were told that it is over, and the
/// players how it ended for them. It led to `winners` and `kicked`.
pub open spec fn game_of<'a, B: Board, A: ?Sized>(
    multiple_goals: bool,
    start: StateModel<B, Player<'a, A>>,
    observers: nat,
    opened: Table<'a, B, A>,
    closed: Table<'a, B, A>,
    story: Story<'a, B, A>,
    winners: Seq<Player<'a, A>>,
    kicked: Seq<Player<'a, A>>,
) -> bool {
    &&& initial_goals(multiple_goals, start, opened.remaining)
    &&& start_broadcast(start, Seq::empty(), opened.state, opened.kicked, story.setups)
    &&& shown_to_all(observers, opened.state, story.opening)
    &&& rounds_played(opened, observers, story.rounds, closed)
    &&& story.ending == ending_calls::<B, A>(observers)
    &&& outcome_broadcast(
        winners_of(closed.state.players),
        losers_of(closed.state.players),
        closed.kicked,
        winners,
        kicked,
        story.outcome,
    )
}

/// A game that began with `start` was played, in which exactly `calls` were made. It led to `end`
/// and to `winners` and `kicked`.
pub open spec fn game_played<'a, B: Board, A: ?Sized>(
    multiple_goals: bool,
    start: StateModel<B, Player<'a, A>>,
    observers: nat,
    end: StateModel<B, Player<'a, A>>,
    winners: Seq<Player<'a, A>>,
    kicked: Seq<Player<'a, A>>,
    calls: Seq<Call<'a, B, A>>,
) -> bool {
    exists|opened: Table<'a, B, A>, closed: Table<'a, B, A>, story: Story<'a, B, A>|
        {
            &&& #[trigger] game_of(
                multiple_goals,
                start,
                observers,
                opened,
                closed,
                story,
                winners,
                kicked,
            )
            &&& end == closed.state
            &&& calls == story.calls()
        }
}

/// How a game stood before its first round and after its last, and the calls that were made in it.
pub proof fn lemma_story_of_game<'a, B: Board, A: ?Sized>(
    multiple_goals: bool,
    start: StateModel<B, Player<'a, A>>,
    observers: nat,
    end: StateModel<B, Player<'a, A>>,
    winners: Seq<Player<'a, A>>,
    kicked: Seq<Player<'a, A>>,
    calls: Seq<Call<'a, B, A>>,
) -> (game: (Table<'a, B, A>, Table<'a, B, A>, Story<'a, B, A>))
    requires
        game_played(multiple_goals, start, observers, end, winners, kicked, calls),
    ensures
        game_of(multiple_goals, start, observers, game.0, game.1, game.2, winners, kicked),
        end == game.1.state,
        calls == game.2.calls(),
{
    choose|opened: Table<'a, B, A>, closed: Table<'a, B, A>, story: Story<'a, B, A>|
        {
            &&& #[trigger] game_of(
                multiple_goals,
                start,
                observers,
                opened,
                closed,
                story,
                winners,
                kicked,
            )
            &&& end == closed.state
            &&& calls == story.calls()
        }
}

/// A game that began with `start`, and in which exactly `calls` were made, came to `result`.
pub open spec fn game_came_to<'a, B: Board, A: ?Sized>(
    multiple_goals: bool,
    start: StateModel<B, Player<'a, A>>,
    observers: nat,
    result: GameResult<'a, A>,
    calls: Seq<Call<'a, B, A>>,
) -> bool {
    exists|end: StateModel<B, Player<'a, A>>| #[trigger]
        game_played(
            multiple_goals,
            start,
            observers,
            end,
            result.winners@,
            result.kicked@,
            calls,
        )
}

/// The players were asked for a board and were seated on it; `result` is why they could not be, or
/// what the game came to. Exactly `calls` were made. Without players there is no game.
pub open spec fn game_run<'a, B: Board, A: ?Sized>(
    multiple_goals: bool,
    rand: Random,
    apis: Seq<&'a A>,
    observers: nat,
    result: Result<GameResult<'a, A>, SeatingError>,
    after: Random,
    calls: Seq<Call<'a, B, A>>,
) -> bool {
    if apis.len() == 0 {
        &&& result == Err::<GameResult<'a, A>, SeatingError>(SeatingError::NoPlayers)
        &&& after == rand
        &&& calls.len() == 0
    } else {
        exists|board: B, start: Result<State<B, Player<'a, A>>, SeatingError>|
            {
                &&& apis.len() <= calls.len()
                &&& board_chosen(apis, board, calls.take(apis.len() as int))
                &&& #[trigger] initial_state(apis, board, rand, start, after)
                &&& match start {
                    Err(error) => {
                        &&& result == Err::<GameResult<'a, A>, SeatingError>(error)
                        &&& calls.len() == apis.len()
                    },
                    Ok(state) => result matches Ok(game) && game_came_to(
                        multiple_goals,
                        state@,
                        observers,
                        game,
                        calls.skip(apis.len() as int),
                    ),
                }
            }
    }
}

/// Nobody has reached a goal when a game begins.
proof fn lemma_newcomers<'a, B: Board, A: ?Sized>(
    apis: Seq<&'a A>,
    board: B,
    rand: Random,
    start: Result<State<B, Player<'a, A>>, SeatingError>,
    after: Random,
)
    requires
        initial_state(apis, board, rand, start, after),
        start is Ok,
    ensures
        goals_within(start->Ok_0@.players, 0),
{
    assert forall|homes: Seq<Position>, goals: Seq<Position>| goals_within(
        #[trigger] seated(apis, homes, goals, rand).players,
        0,
    ) by {
        lemma_seated(apis, homes, goals, rand);
    }
}

/// Whoever answered is one of those who were asked.
proof fn lemma_answered_within<'a, A: ?Sized>(
    players: Seq<Player<'a, A>>,
    answers: Seq<bool>,
    answer: bool,
    bound: int,
)
    requires
        answers.len() == players.len(),
        goals_within(players, bound),
    ensures
        goals_within(answered(players, answers, answer), bound),
    decreases players.len(),
{
    if players.len() > 0 {
        lemma_answered_within(players.drop_last(), answers.drop_last(), answer, bound);
    }
}

impl<'a, B, A: ?Sized> Referee<'a, B, A> {
    /// A referee for the plain rules, whose draws are those of `seed`.
    pub fn new(seed: u64) -> (referee: Self)
        ensures
            referee.config == (Config { multiple_goals: false }),
            referee.rand == (Random { seed, word: 0 }),
            referee.history@ == Seq::<Call<'a, B, A>>::empty(),
    {
        Referee { rand: Random::new(seed), config: Config::default(), history: History::new() }
    }

    /// Tells all observers that the game is over.
    pub fn broadcast_game_over_to_observers<O: Observer<B> + ?Sized>(
        &mut self,
        observers: &Vec<Box<O>>,
    )
        ensures
            final(self).config == old(self).config,
            final(self).rand == old(self).rand,
            announced(observers@, old(self).history@, final(self).history@),
            since(old(self).history@, final(self).history@) == ending_calls::<B, A>(
                observers@.len(),
            ),
    {
        let ghost start = self.history@;
        let count: usize = observers.len();
        assert(start.take(start.len() as int) =~= start);
        for i in 0..count
            invariant
                count == observers@.len(),
                start == old(self).history@,
                self.config == old(self).config,
                self.rand == old(self).rand,
                announced(observers@, start, self.history@),
                since(start, self.history@) =~= ending_calls::<B, A>(i as nat),
        {
            let ghost said = self.history@;
            self.history.game_over(observers, i);
            proof {
                assert(self.history@.take(start.len() as int) =~= said.take(start.len() as int));
                assert(since(start, self.history@) =~= since(start, said).push(
                    self.history@.last(),
                ));
            }
        }
    }

    /// Plays rounds until one ends the game, but no more than [`ROUNDS`].
    fn run_rounds<O: Observer<B> + ?Sized>(
        &mut self,
        state: &mut State<B, Player<'a, A>>,
        observers: &Vec<Box<O>>,
        kicked: &mut Vec<Player<'a, A>>,
        remaining_goals: &mut VecDeque<Position>,
    ) where B: Board, A: PlayerApi<B>
        requires
            goals_within(old(state)@.players, usize::MAX - ROUNDS),
        ensures
            final(self).config == old(self).config,
            final(self).rand == old(self).rand,
            spoke_before(observers@, old(self).history@, final(self).history@),
            rounds_played(
                table_of(*old(state), *old(kicked), *old(remaining_goals)),
                observers@.len(),
                since(old(self).history@, final(self).history@),
                table_of(*final(state), *final(kicked), *final(remaining_goals)),
            ),
    {
        let ghost opened = table_of(*state, *kicked, *remaining_goals);
        let ghost opening = self.history@;
        let ghost mut tables: Seq<Table<'a, B, A>> = seq![opened];
        let ghost mut parts: Seq<Seq<Call<'a, B, A>>> = Seq::empty();
        let mut over = false;
        let mut rounds: usize = 0;
        proof {
            assert(opening.take(opening.len() as int) =~= opening);
            assert(since(opening, opening) =~= joined(parts));
        }
        while !over && rounds < ROUNDS
            invariant
                self.config == old(self).config,
                self.rand == old(self).rand,
                opening == old(self).history@,
                rounds <= ROUNDS,
                tables.len() == rounds + 1,
                tables[0] == opened,
                tables.last() == table_of(*state, *kicked, *remaining_goals),
                rounds_through(tables, observers@.len(), parts, over),
                spoke_before(observers@, opening, self.history@),
                since(opening, self.history@) == joined(parts),
                goals_within(state@.players, usize::MAX - ROUNDS + rounds),
            decreases ROUNDS - rounds,
        {
            let ghost before = table_of(*state, *kicked, *remaining_goals);
            let ghost said = self.history@;
            over = self.run_round(state, observers, kicked, remaining_goals);
            proof {
                let count = observers@.len();
                let after = table_of(*state, *kicked, *remaining_goals);
                let calls = since(said, self.history@);
                let (replies, turns) = lemma_turns_of_round(before, count, calls, after, over);
                lemma_one_goal_a_round(
                    before,
                    count,
                    replies,
                    turns,
                    usize::MAX - ROUNDS + rounds,
                );
                lemma_since(opening, said, self.history@);
                assert(parts.push(calls).drop_last() =~= parts);
                let grown = tables.push(after);
                assert forall|i: int| 0 <= i < grown.len() - 1 implies #[trigger] linked(
                    grown,
                    count,
                    parts.push(calls),
                    over,
                    i,
                ) by {
                    if i < tables.len() - 1 {
                        assert(linked(tables, count, parts, false, i));
                    }
                }
                tables = grown;
                parts = parts.push(calls);
            }
            rounds = rounds + 1;
        }
        assert(rounds_of(
            opened,
            observers@.len(),
            since(opening, self.history@),
            table_of(*state, *kicked, *remaining_goals),
            tables,
            parts,
            over,
        ));
    }

    /// Plays a game from `state` on: tells the players of it, plays rounds, and tells everyone of
    /// the end. Returns who won and who was thrown out.
    pub fn run_from_state<O: Observer<B> + ?Sized>(
        &mut self,
        state: &mut State<B, Player<'a, A>>,
        observers: &Vec<Box<O>>,
    ) -> (result: GameResult<'a, A>) where B: Board, A: PlayerApi<B>
        requires
            goals_within(old(state)@.players, usize::MAX - ROUNDS),
        ensures
            final(self).config == old(self).config,
            final(self).rand == old(self).rand,
            spoke_before(observers@, old(self).history@, final(self).history@),
            game_played(
                old(self).config.multiple_goals,
                old(state)@,
                observers@.len(),
                final(state)@,
                result.winners@,
                result.kicked@,
                since(old(self).history@, final(self).history@),
            ),
    {
        let ghost start = state@;
        let ghost count = observers@.len();
        let ghost h0 = self.history@;
        let mut kicked: Vec<Player<'a, A>> = Vec::new();
        let goals = self.get_initial_goals(state);
        let mut remaining_goals: VecDeque<Position> = VecDeque::new();
        let goal_count: usize = goals.len();
        for i in 0..goal_count
            invariant
                goal_count == goals@.len(),
                remaining_goals@ =~= goals@.take(i as int),
        {
            remaining_goals.push_back(goals[i]);
        }
        assert(remaining_goals@ =~= goals@);
        self.broadcast_initial_state(state, &mut kicked);
        let ghost h1 = self.history@;
        proof {
            let accepted = lemma_who_accepted(start, Seq::empty(), state@, kicked@, since(h0, h1));
            lemma_answered_within(start.players, accepted, true, usize::MAX - ROUNDS);
        }
        self.broadcast_state_to_observers(state, observers);
        let ghost h2 = self.history@;
        let ghost opened = table_of(*state, kicked, remaining_goals);
        self.run_rounds(state, observers, &mut kicked, &mut remaining_goals);
        let ghost h3 = self.history@;
        let ghost closed = table_of(*state, kicked, remaining_goals);
        self.broadcast_game_over_to_observers(observers);
        let ghost h4 = self.history@;
        let (winners, losers) = Referee::calculate_winners(state);
        let mut winners = winners;
        self.broadcast_winners(&mut winners, losers, &mut kicked);
        proof {
            let h5 = self.history@;
            let story = Story {
                setups: since(h0, h1),
                opening: since(h1, h2),
                rounds: since(h2, h3),
                ending: since(h3, h4),
                outcome: since(h4, h5),
            };
            lemma_since(h3, h4, h5);
            lemma_since(h2, h3, h5);
            lemma_since(h1, h2, h5);
            lemma_since(h0, h1, h5);
            assert(since(h0, h5) == story.calls());
            assert(game_of(
                self.config.multiple_goals,
                start,
                count,
                opened,
                closed,
                story,
                winners@,
                kicked@,
            ));
        }
        GameResult { winners, kicked }
    }

    /// Plays a game of these players, who are in the order of their turns.
    pub fn run_game<O: Observer<B> + ?Sized>(
        &mut self,
        players: Vec<&'a A>,
        observers: &Vec<Box<O>>,
    ) -> (result: Result<GameResult<'a, A>, SeatingError>) where B: Board, A: PlayerApi<B>
        ensures
            final(self).config == old(self).config,
            spoke_before(observers@, old(self).history@, final(self).history@),
            game_run(
                old(self).config.multiple_goals,
                old(self).rand,
                players@,
                observers@.len(),
                result,
                final(self).rand,
                since(old(self).history@, final(self).history@),
            ),
    {
        let ghost h0 = self.history@;
        assert(h0.take(h0.len() as int) =~= h0);
        if players.len() == 0 {
            return Err(SeatingError::NoPlayers);
        }
        let ghost apis = players@;
        let board: B = self.get_player_boards(&players);
        let ghost h1 = self.history@;
        let start = self.make_initial_state(players, board);
        let ghost drawn = self.rand;
        assert(initial_state(apis, board, old(self).rand, start, drawn));
        assert(since(h0, h1).take(apis.len() as int) =~= since(h0, h1));
        match start {
            Err(error) => Err(error),
            Ok(state) => {
                let ghost model = state@;
                let mut state = state;
                proof {
                    lemma_newcomers(apis, board, old(self).rand, start, drawn);
                }
                let game = self.run_from_state(&mut state, observers);
                proof {
                    let calls = since(h0, self.history@);
                    lemma_since(h0, h1, self.history@);
                    assert(calls.take(apis.len() as int) =~= since(h0, h1));
                    assert(calls.skip(apis.len() as int) =~= since(h1, self.history@));
                    assert(game_came_to(
                        self.config.multiple_goals,
                        model,
                        observers@.len(),
                        game,
                        since(h1, self.history@),
                    ));
                }
                Ok(game)
            },
        }
    }
}

} // verus!
