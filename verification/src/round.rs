//! One round: the players have their turns, in their order. Who is still waiting when two or more
//! have been thrown out may have to wait for the next round.
use crate::board::Board;
use crate::grid::Position;
use crate::history::{announced, joined, lemma_since, since, spoke_before, Call};
use crate::observer::Observer;
use crate::player::{Player, PlayerApi};
use crate::referee::Referee;
use crate::state::{is_full_state, State, StateModel};
use crate::turn::{
    ask_turn, asked, settle_turn, settled, table_of, turn_end, ReplyModel, Table, TurnEnd,
};
use std::collections::VecDeque;
use vstd::prelude::*;

verus! {

/// What the referee counts in a round.
#[derive(Clone, Copy, Debug, PartialEq, Eq, Structural)]
pub struct Tally {
    players_in_round: usize,
    num_turns: usize,
    num_kicked: usize,
    num_passed: usize,
    won: bool,
}

/// The mathematical content of a [`Tally`].
pub struct TallyModel {
    /// How many players were at the table when the round began.
    pub count: nat,
    /// How many of them have had their turn.
    pub turns: nat,
    /// How many of those were thrown out.
    pub kicked: nat,
    /// How many of those passed.
    pub passed: nat,
    /// Whether the last of them has won.
    pub won: bool,
}

impl View for Tally {
    type V = TallyModel;

    closed spec fn view(&self) -> TallyModel {
        TallyModel {
            count: self.players_in_round as nat,
            turns: self.num_turns as nat,
            kicked: self.num_kicked as nat,
            passed: self.num_passed as nat,
            won: self.won,
        }
    }
}

impl TallyModel {
    /// A round of `count` players that begins.
    pub open spec fn start(count: nat) -> TallyModel {
        TallyModel { count, turns: 0, kicked: 0, passed: 0, won: false }
    }

    /// The count after a turn that ended with `end`.
    pub open spec fn counted(self, end: TurnEnd) -> TallyModel {
        TallyModel {
            count: self.count,
            turns: self.turns + 1,
            kicked: if end is Kicked {
                self.kicked + 1
            } else {
                self.kicked
            },
            passed: if end is Passed {
                self.passed + 1
            } else {
                self.passed
            },
            won: end is Won,
        }
    }

    /// Nobody was thrown out or passed without having had a turn.
    pub open spec fn consistent(self) -> bool {
        self.turns <= self.count && self.kicked + self.passed <= self.turns
    }

    /// A round is finished when someone has won, when all have had their turn, and also when the
    /// players thrown out and the turns before the last one together make up the number of players:
    /// whoever still waits then has to wait for the next round.
    pub open spec fn finished(self) -> bool {
        ||| self.won
        ||| self.turns >= self.count
        ||| self.turns > 0 && self.turns - 1 + self.kicked >= self.count
    }

    /// A finished round ends the game when someone has won in it, or when everyone who is still at
    /// the table has passed in it.
    pub open spec fn ends_game(self) -> bool {
        self.won || self.passed == self.count - self.kicked
    }
}

impl Tally {
    /// A round of this many players that begins.
    pub fn new(players_in_round: usize) -> (tally: Self)
        ensures
            tally@ == TallyModel::start(players_in_round as nat),
    {
        Tally { players_in_round, num_turns: 0, num_kicked: 0, num_passed: 0, won: false }
    }

    /// Counts a turn.
    pub fn record(&mut self, end: TurnEnd)
        requires
            old(self)@.consistent(),
            old(self)@.turns < old(self)@.count,
        ensures
            final(self)@ == old(self)@.counted(end),
    {
        self.num_turns = self.num_turns + 1;
        match end {
            TurnEnd::Kicked => {
                self.num_kicked = self.num_kicked + 1;
            },
            TurnEnd::Passed => {
                self.num_passed = self.num_passed + 1;
            },
            _ => {},
        }
        self.won = matches!(end, TurnEnd::Won);
    }

    /// Whether the round is finished.
    pub fn is_finished(&self) -> (finished: bool)
        requires
            self@.consistent(),
        ensures
            finished == self@.finished(),
    {
        self.won || self.num_turns == self.players_in_round || self.num_kicked
            > self.players_in_round - self.num_turns
    }

    /// Whether the round, now that it is finished, ends the game.
    pub fn ends_game(&self) -> (ends: bool)
        requires
            self@.consistent(),
        ensures
            ends == self@.ends_game(),
    {
        self.won || self.num_passed == self.players_in_round - self.num_kicked
    }
}

/// How far a round has come.
#[verifier::ext_equal]
pub struct Progress<'a, B, A: ?Sized> {
    pub table: Table<'a, B, A>,
    pub tally: TallyModel,
}

/// A round that has come one turn further.
pub open spec fn advanced<'a, B, A: ?Sized>(
    before: Progress<'a, B, A>,
    reply: ReplyModel<B>,
) -> Progress<'a, B, A> {
    Progress {
        table: settled(before.table, reply),
        tally: before.tally.counted(turn_end(before.table, reply)),
    }
}

/// How far a round has come that began with `table` and in which the players gave `replies`.
pub open spec fn progress<'a, B, A: ?Sized>(
    table: Table<'a, B, A>,
    replies: Seq<ReplyModel<B>>,
) -> Progress<'a, B, A>
    decreases replies.len(),
{
    if replies.len() == 0 {
        Progress { table, tally: TallyModel::start(table.state.players.len()) }
    } else {
        advanced(progress(table, replies.drop_last()), replies.last())
    }
}

/// The observer at the place `i` of `calls` was shown `state`.
pub open spec fn shown<'a, B: Clone, A: ?Sized>(
    state: StateModel<B, Player<'a, A>>,
    calls: Seq<Call<'a, B, A>>,
    i: int,
) -> bool {
    calls[i] matches Call::RecieveState { observer, shown } && observer == i && is_full_state(
        state,
        shown,
    )
}

/// All of so many observers were shown `state`, one after the other, and that is all that `calls`
/// hold.
pub open spec fn shown_to_all<'a, B: Clone, A: ?Sized>(
    observers: nat,
    state: StateModel<B, Player<'a, A>>,
    calls: Seq<Call<'a, B, A>>,
) -> bool {
    &&& calls.len() == observers
    &&& forall|i: int| 0 <= i < calls.len() ==> #[trigger] shown(state, calls, i)
}

/// In a round that began with `table`, the players in turn were asked and gave `replies`, and the
/// observers were shown the game after each turn; before the last reply the round was not finished.
/// `turns` holds the calls that were made in each turn.
pub open spec fn taken<'a, B: Board, A: ?Sized>(
    table: Table<'a, B, A>,
    observers: nat,
    replies: Seq<ReplyModel<B>>,
    turns: Seq<Seq<Call<'a, B, A>>>,
) -> bool {
    &&& turns.len() == replies.len()
    &&& forall|i: int|
        0 <= i < replies.len() ==> #[trigger] turn_taken(table, observers, replies, turns, i)
}

/// What [`taken`] says of the turn `i`.
pub open spec fn turn_taken<'a, B: Board, A: ?Sized>(
    table: Table<'a, B, A>,
    observers: nat,
    replies: Seq<ReplyModel<B>>,
    turns: Seq<Seq<Call<'a, B, A>>>,
    i: int,
) -> bool {
    let before = progress(table, replies.take(i));
    !before.tally.finished() && turn_had(before.table, observers, replies[i], turns[i])
}

/// The current player of `table` was asked and gave `reply`, and then the observers were shown the
/// game, and that is all that `calls` hold.
pub open spec fn turn_had<'a, B: Board, A: ?Sized>(
    table: Table<'a, B, A>,
    observers: nat,
    reply: ReplyModel<B>,
    calls: Seq<Call<'a, B, A>>,
) -> bool {
    let said = calls.len() - observers;
    &&& said >= 0
    &&& asked(table.state, table.remaining, reply, calls.take(said))
    &&& shown_to_all(observers, settled(table, reply).state, calls.skip(said))
}

/// A round in which `calls` were made led from `before` to `after`, and `over` says whether it
/// ended the game.
pub open spec fn round_played<'a, B: Board, A: ?Sized>(
    before: Table<'a, B, A>,
    observers: nat,
    calls: Seq<Call<'a, B, A>>,
    after: Table<'a, B, A>,
    over: bool,
) -> bool {
    exists|replies: Seq<ReplyModel<B>>, turns: Seq<Seq<Call<'a, B, A>>>| #[trigger]
        round_of(before, observers, replies, turns, after, over) && calls == joined(turns)
}

/// The round in which the players gave `replies` led from `before` to `after`, and `over` says
/// whether it ended the game. `turns` holds the calls that were made in each turn.
pub open spec fn round_of<'a, B: Board, A: ?Sized>(
    before: Table<'a, B, A>,
    observers: nat,
    replies: Seq<ReplyModel<B>>,
    turns: Seq<Seq<Call<'a, B, A>>>,
    after: Table<'a, B, A>,
    over: bool,
) -> bool {
    let round = progress(before, replies);
    &&& taken(before, observers, replies, turns)
    &&& round.tally.finished()
    &&& after == round.table
    &&& over == round.tally.ends_game()
}

/// The replies of a round, and the calls that were made in each of its turns.
pub proof fn lemma_turns_of_round<'a, B: Board, A: ?Sized>(
    before: Table<'a, B, A>,
    observers: nat,
    calls: Seq<Call<'a, B, A>>,
    after: Table<'a, B, A>,
    over: bool,
) -> (turns: (Seq<ReplyModel<B>>, Seq<Seq<Call<'a, B, A>>>))
    requires
        round_played(before, observers, calls, after, over),
    ensures
        round_of(before, observers, turns.0, turns.1, after, over),
        calls == joined(turns.1),
{
    choose|replies: Seq<ReplyModel<B>>, turns: Seq<Seq<Call<'a, B, A>>>| #[trigger]
        round_of(before, observers, replies, turns, after, over) && calls == joined(turns)
}

/// The two players are one, at most on different tiles.
pub open spec fn same_but_for_tile<'a, A: ?Sized>(a: Player<'a, A>, b: Player<'a, A>) -> bool {
    b == a.at(b.info.position)
}

/// The players who still wait for their turn are in front, in their order, as they were when the
/// round began but for the tile they stand on; behind them are those who have had their turn and
/// have stayed.
pub open spec fn orderly<'a, B, A: ?Sized>(
    start: Table<'a, B, A>,
    round: Progress<'a, B, A>,
) -> bool {
    let count = start.state.players.len();
    let players = round.table.state.players;
    let tally = round.tally;
    &&& tally.count == count
    &&& tally.consistent()
    &&& players.len() == count - tally.kicked
    &&& !tally.won ==> forall|i: int|
        0 <= i < count - tally.turns ==> same_but_for_tile(
            start.state.players[tally.turns + i],
            #[trigger] players[i],
        )
}

/// One more turn keeps a round orderly.
proof fn lemma_advanced_orderly<'a, B, A: ?Sized>(
    start: Table<'a, B, A>,
    round: Progress<'a, B, A>,
    reply: ReplyModel<B>,
)
    requires
        orderly(start, round),
        !round.tally.finished(),
        reply matches ReplyModel::Moved { positions, .. } ==> positions.len()
            == round.table.state.players.len(),
    ensures
        orderly(start, advanced(round, reply)),
{
    let after = advanced(round, reply);
    let count = start.state.players.len();
    let players = round.table.state.players;
    if !after.tally.won {
        assert forall|i: int| 0 <= i < count - after.tally.turns implies same_but_for_tile(
            start.state.players[after.tally.turns + i],
            #[trigger] after.table.state.players[i],
        ) by {
            assert(same_but_for_tile(
                start.state.players[round.tally.turns + (i + 1)],
                players[i + 1],
            ));
        }
    }
}

/// What was taken but for the last turn was taken.
pub proof fn lemma_taken_drop_last<'a, B: Board, A: ?Sized>(
    table: Table<'a, B, A>,
    observers: nat,
    replies: Seq<ReplyModel<B>>,
    turns: Seq<Seq<Call<'a, B, A>>>,
)
    requires
        taken(table, observers, replies, turns),
        replies.len() > 0,
    ensures
        taken(table, observers, replies.drop_last(), turns.drop_last()),
        turn_taken(table, observers, replies, turns, replies.len() - 1),
        replies.take(replies.len() - 1) == replies.drop_last(),
{
    let fewer = replies.drop_last();
    assert forall|i: int| 0 <= i < fewer.len() implies #[trigger] turn_taken(
        table,
        observers,
        fewer,
        turns.drop_last(),
        i,
    ) by {
        assert(turn_taken(table, observers, replies, turns, i));
        assert(fewer.take(i) =~= replies.take(i));
    }
    assert(turn_taken(table, observers, replies, turns, replies.len() - 1));
    assert(replies.take(replies.len() - 1) =~= fewer);
}

/// One more turn was taken.
proof fn lemma_taken_push<'a, B: Board, A: ?Sized>(
    table: Table<'a, B, A>,
    observers: nat,
    replies: Seq<ReplyModel<B>>,
    turns: Seq<Seq<Call<'a, B, A>>>,
    reply: ReplyModel<B>,
    calls: Seq<Call<'a, B, A>>,
)
    requires
        taken(table, observers, replies, turns),
        !progress(table, replies).tally.finished(),
        turn_had(progress(table, replies).table, observers, reply, calls),
    ensures
        taken(table, observers, replies.push(reply), turns.push(calls)),
        progress(table, replies.push(reply)) == advanced(progress(table, replies), reply),
        joined(turns.push(calls)) == joined(turns) + calls,
{
    let grown = replies.push(reply);
    assert(grown.drop_last() =~= replies);
    assert(turns.push(calls).drop_last() =~= turns);
    assert forall|i: int| 0 <= i < grown.len() implies #[trigger] turn_taken(
        table,
        observers,
        grown,
        turns.push(calls),
        i,
    ) by {
        assert(grown.take(i) =~= replies.take(i));
        if i < replies.len() {
            assert(turn_taken(table, observers, replies, turns, i));
        } else {
            assert(replies.take(i) =~= replies);
        }
    }
}

/// Every round is orderly.
pub proof fn lemma_orderly<'a, B: Board, A: ?Sized>(
    table: Table<'a, B, A>,
    observers: nat,
    replies: Seq<ReplyModel<B>>,
    turns: Seq<Seq<Call<'a, B, A>>>,
)
    requires
        taken(table, observers, replies, turns),
    ensures
        orderly(table, progress(table, replies)),
    decreases replies.len(),
{
    if replies.len() > 0 {
        lemma_taken_drop_last(table, observers, replies, turns);
        lemma_orderly(table, observers, replies.drop_last(), turns.drop_last());
        lemma_advanced_orderly(table, progress(table, replies.drop_last()), replies.last());
    }
}

/// None of the players has reached more than `bound` goals.
pub open spec fn goals_within<'a, A: ?Sized>(players: Seq<Player<'a, A>>, bound: int) -> bool {
    forall|i: int| 0 <= i < players.len() ==> (#[trigger] players[i]).info.goals_reached <= bound
}

/// Nobody reaches more than one goal in the course of a round.
pub proof fn lemma_one_goal_a_round<'a, B: Board, A: ?Sized>(
    table: Table<'a, B, A>,
    observers: nat,
    replies: Seq<ReplyModel<B>>,
    turns: Seq<Seq<Call<'a, B, A>>>,
    bound: int,
)
    requires
        taken(table, observers, replies, turns),
        goals_within(table.state.players, bound),
        bound < usize::MAX,
    ensures
        goals_within(progress(table, replies).table.state.players, bound + 1),
    decreases replies.len(),
{
    if replies.len() > 0 {
        lemma_taken_drop_last(table, observers, replies, turns);
        let fewer = replies.drop_last();
        lemma_one_goal_a_round(table, observers, fewer, turns.drop_last(), bound);
        lemma_orderly(table, observers, fewer, turns.drop_last());
        let before = progress(table, fewer);
        assert(same_but_for_tile(
            table.state.players[before.tally.turns as int],
            before.table.state.players[0],
        ));
        lemma_one_goal_a_turn(before.table, replies.last(), bound);
    }
}

/// Nobody but the current player reaches a goal in a turn, and that player reaches at most one.
proof fn lemma_one_goal_a_turn<'a, B, A: ?Sized>(
    table: Table<'a, B, A>,
    reply: ReplyModel<B>,
    bound: int,
)
    requires
        table.state.players.len() > 0,
        goals_within(table.state.players, bound + 1),
        table.state.players[0].info.goals_reached <= bound,
        bound < usize::MAX,
    ensures
        goals_within(settled(table, reply).state.players, bound + 1),
{
    let after = settled(table, reply).state.players;
    assert forall|i: int| 0 <= i < after.len() implies (#[trigger] after[i]).info.goals_reached
        <= bound + 1 by {
        let end = turn_end(table, reply);
        let count = table.state.players.len();
        if end is Won {
            assert(after[i].info.goals_reached == table.state.players[i].info.goals_reached);
        } else if i < count - 1 {
            assert(after[i].info.goals_reached == table.state.players[i + 1].info.goals_reached);
        } else {
            assert(after[i].info.goals_reached <= table.state.players[0].info.goals_reached + 1);
        }
    }
}

impl<'a, B, A: ?Sized> Referee<'a, B, A> {
    /// Shows all observers how the game stands.
    pub fn broadcast_state_to_observers<O: Observer<B> + ?Sized>(
        &mut self,
        state: &State<B, Player<'a, A>>,
        observers: &Vec<Box<O>>,
    ) where B: Clone
        ensures
            final(self).config == old(self).config,
            final(self).rand == old(self).rand,
            announced(observers@, old(self).history@, final(self).history@),
            shown_to_all(
                observers@.len(),
                state@,
                since(old(self).history@, final(self).history@),
            ),
    {
        let count: usize = observers.len();
        assert(self.history@.take(self.history@.len() as int) =~= self.history@);
        for i in 0..count
            invariant
                count == observers@.len(),
                self.config == old(self).config,
                self.rand == old(self).rand,
                announced(observers@, old(self).history@, self.history@),
                since(old(self).history@, self.history@).len() == i,
                forall|j: int|
                    0 <= j < i ==> #[trigger] shown(
                        state@,
                        since(old(self).history@, self.history@),
                        j,
                    ),
        {
            let ghost start = old(self).history@;
            let ghost said = self.history@;
            self.history.recieve_state(observers, i, state.to_full_state());
            proof {
                let calls = since(start, self.history@);
                assert(self.history@.take(start.len() as int) =~= said.take(start.len() as int));
                assert(calls =~= since(start, said).push(self.history@.last()));
                assert forall|j: int| 0 <= j < i + 1 implies #[trigger] shown(
                    state@,
                    calls,
                    j,
                ) by {
                    if j < i {
                        assert(shown(state@, since(start, said), j));
                    }
                }
            }
        }
    }

    /// Lets the players have their turns, in their order, until the round is finished, and returns
    /// whether that ended the game. A round finishes early when somebody wins, or when two or more
    /// are thrown out (see [`TallyModel::finished`]).
    pub fn run_round<O: Observer<B> + ?Sized>(
        &mut self,
        state: &mut State<B, Player<'a, A>>,
        observers: &Vec<Box<O>>,
        kicked: &mut Vec<Player<'a, A>>,
        remaining_goals: &mut VecDeque<Position>,
    ) -> (over: bool) where B: Board, A: PlayerApi<B>
        requires
            forall|i: int|
                0 <= i < old(state)@.players.len()
                    ==> (#[trigger] old(state)@.players[i]).info.goals_reached < usize::MAX,
        ensures
            final(self).config == old(self).config,
            final(self).rand == old(self).rand,
            spoke_before(observers@, old(self).history@, final(self).history@),
            round_played(
                table_of(*old(state), *old(kicked), *old(remaining_goals)),
                observers@.len(),
                since(old(self).history@, final(self).history@),
                table_of(*final(state), *final(kicked), *final(remaining_goals)),
                over,
            ),
    {
        let ghost start = table_of(*state, *kicked, *remaining_goals);
        let ghost opening = self.history@;
        let ghost mut replies: Seq<ReplyModel<B>> = Seq::empty();
        let ghost mut turns: Seq<Seq<Call<'a, B, A>>> = Seq::empty();
        let mut tally = Tally::new(state.player_info.len());
        proof {
            assert(opening.take(opening.len() as int) =~= opening);
            assert(since(opening, opening) =~= joined(turns));
        }
        while !tally.is_finished()
            invariant
                self.config == old(self).config,
                self.rand == old(self).rand,
                opening == old(self).history@,
                start == table_of(*old(state), *old(kicked), *old(remaining_goals)),
                forall|i: int|
                    0 <= i < start.state.players.len()
                        ==> (#[trigger] start.state.players[i]).info.goals_reached < usize::MAX,
                spoke_before(observers@, opening, self.history@),
                since(opening, self.history@) == joined(turns),
                taken(start, observers@.len(), replies, turns),
                orderly(start, progress(start, replies)),
                progress(start, replies).table == table_of(*state, *kicked, *remaining_goals),
                progress(start, replies).tally == tally@,
            decreases tally@.count - tally@.turns,
        {
            let ghost before = progress(start, replies);
            let ghost said = self.history@;
            assert(same_but_for_tile(
                start.state.players[before.tally.turns as int],
                state@.players[0],
            ));
            let reply = ask_turn(state, remaining_goals, &mut self.history);
            let ghost model = reply@;
            let ghost heard = self.history@;
            let end = settle_turn(state, kicked, remaining_goals, reply);
            self.broadcast_state_to_observers(state, observers);
            tally.record(end);
            proof {
                let calls = since(said, self.history@);
                lemma_since(said, heard, self.history@);
                lemma_since(opening, said, self.history@);
                let count = calls.len() - observers@.len();
                assert(calls.take(count) =~= since(said, heard));
                assert(calls.skip(count) =~= since(heard, self.history@));
                assert(turn_had(before.table, observers@.len(), model, calls));
                lemma_taken_push(start, observers@.len(), replies, turns, model, calls);
                lemma_advanced_orderly(start, before, model);
                replies = replies.push(model);
                turns = turns.push(calls);
            }
        }
        let over = tally.ends_game();
        assert(round_of(
            start,
            observers@.len(),
            replies,
            turns,
            table_of(*state, *kicked, *remaining_goals),
            over,
        ));
        over
    }
}

} // verus!
