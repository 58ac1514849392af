//! What a round and a game consist of, and how the goals are counted in them.
use crate::board::Board;
use crate::history::{joined, Call};
use crate::laws::{continues, law_misbehaviour, law_turns_in_order};
use crate::player::Player;
use crate::referee::{
    game_played, lemma_story_of_game, lemma_tables_of_rounds, linked, rounds_played, rounds_through,
};
use crate::round::{
    advanced, goals_within, lemma_one_goal_a_round, lemma_orderly, lemma_taken_drop_last,
    lemma_turns_of_round, progress, round_played, same_but_for_tile, shown, taken, turn_had,
    turn_taken,
};
use crate::seating::{initial_goals, lemma_who_accepted, start_broadcast, told_in_turn};
use crate::state::StateModel;
use crate::turn::{asked, fits, next_goal, settled, turn_end, ReplyModel, Table};
use crate::turn_laws::{law_goal_is_told, law_player_is_asked};
use crate::view_laws::{all_see, law_observers_see_all};
use crate::winner_laws::{law_outcome, law_winners_are_unbeaten, outrun, outscored, unbeaten};
use crate::winners::{answered, outcome_broadcast};
use vstd::prelude::*;

verus! {

/// What is said in several parts is said part by part.
pub proof fn law_joined<T>(parts: Seq<Seq<T>>)
    ensures
        joined(parts) == parts.flatten(),
    decreases parts.len(),
{
    parts.lemma_flatten_and_flatten_alt_are_equivalent();
    lemma_joined_alt(parts);
}

proof fn lemma_joined_alt<T>(parts: Seq<Seq<T>>)
    ensures
        joined(parts) == parts.flatten_alt(),
    decreases parts.len(),
{
    if parts.len() > 0 {
        lemma_joined_alt(parts.drop_last());
    }
}

/// Whether a reply is a pass.
pub open spec fn is_pass<B>() -> spec_fn(ReplyModel<B>) -> bool {
    |reply: ReplyModel<B>| reply is Passed
}

/// How many players were thrown out between two moments of a game.
pub open spec fn thrown_out_between<'a, B, A: ?Sized>(
    earlier: Table<'a, B, A>,
    later: Table<'a, B, A>,
) -> int {
    later.kicked.len() - earlier.kicked.len()
}

/// The turns of a round, one by one.
pub struct Course<'a, B, A: ?Sized> {
    /// How the game stood before each turn and, at last, after the round.
    pub tables: Seq<Table<'a, B, A>>,
    /// What came of asking in each turn.
    pub replies: Seq<ReplyModel<B>>,
    /// What was said to the player in each turn.
    pub asks: Seq<Seq<Call<'a, B, A>>>,
    /// What was said to the observers after each turn.
    pub shows: Seq<Seq<Call<'a, B, A>>>,
}

impl<'a, B, A: ?Sized> Course<'a, B, A> {
    /// What was said in each turn.
    pub open spec fn turns(self) -> Seq<Seq<Call<'a, B, A>>> {
        Seq::new(self.replies.len(), |i: int| self.asks[i] + self.shows[i])
    }
}

/// What happens in the turn `i` of a course: it is the turn of the player who sat at the place `i`
/// when the round began; they are asked, what came of it is settled, and the observers are shown
/// the game.
pub open spec fn turn_goes<'a, B: Board, A: ?Sized>(
    course: Course<'a, B, A>,
    observers: nat,
    i: int,
) -> bool {
    let before = course.tables[i];
    let after = course.tables[i + 1];
    &&& before.state.players.len() > 0
    &&& before.state.players[0].api == course.tables[0].state.players[i].api
    &&& asked(before.state, before.remaining, course.replies[i], course.asks[i])
    &&& after == settled(before, course.replies[i])
    &&& all_see(observers, after.state, course.shows[i])
}

/// Whether a round is finished after the turn `i`: somebody has won, everyone had a turn, or the
/// turns before it and the players thrown out so far are as many as the players were.
pub open spec fn finished_after<'a, B, A: ?Sized>(course: Course<'a, B, A>, i: int) -> bool {
    let count = course.tables[0].state.players.len();
    ||| turn_end(course.tables[i], course.replies[i]) is Won
    ||| i + 1 >= count
    ||| i + thrown_out_between(course.tables[0], course.tables[i + 1]) >= count
}

proof fn lemma_progress_step<'a, B, A: ?Sized>(
    table: Table<'a, B, A>,
    replies: Seq<ReplyModel<B>>,
    i: int,
)
    requires
        0 <= i < replies.len(),
    ensures
        progress(table, replies.take(i + 1)) == advanced(
            progress(table, replies.take(i)),
            replies[i],
        ),
{
    assert(replies.take(i + 1).drop_last() =~= replies.take(i));
}

proof fn lemma_taken_prefix<'a, B: Board, A: ?Sized>(
    table: Table<'a, B, A>,
    observers: nat,
    replies: Seq<ReplyModel<B>>,
    turns: Seq<Seq<Call<'a, B, A>>>,
    i: int,
)
    requires
        taken(table, observers, replies, turns),
        0 <= i <= replies.len(),
    ensures
        taken(table, observers, replies.take(i), turns.take(i)),
{
    let fewer = replies.take(i);
    assert forall|j: int| 0 <= j < fewer.len() implies #[trigger] turn_taken(
        table,
        observers,
        fewer,
        turns.take(i),
        j,
    ) by {
        assert(turn_taken(table, observers, replies, turns, j));
        assert(fewer.take(j) =~= replies.take(j));
    }
}

/// What the tally of a round counts.
proof fn lemma_tally<'a, B: Board, A: ?Sized>(
    table: Table<'a, B, A>,
    observers: nat,
    replies: Seq<ReplyModel<B>>,
    turns: Seq<Seq<Call<'a, B, A>>>,
)
    requires
        taken(table, observers, replies, turns),
    ensures
        ({
            let round = progress(table, replies);
            &&& round.tally.count == table.state.players.len()
            &&& round.tally.turns == replies.len()
            &&& round.tally.kicked == thrown_out_between(table, round.table)
            &&& round.tally.passed == replies.filter(is_pass()).len()
            &&& round.tally.won == (replies.len() > 0 && turn_end(
                progress(table, replies.drop_last()).table,
                replies.last(),
            ) is Won)
        }),
    decreases replies.len(),
{
    reveal(Seq::filter);
    if replies.len() > 0 {
        lemma_taken_drop_last(table, observers, replies, turns);
        let fewer = replies.drop_last();
        lemma_tally(table, observers, fewer, turns.drop_last());
        lemma_orderly(table, observers, fewer, turns.drop_last());
        law_misbehaviour(progress(table, fewer).table, replies.last());
    }
}

/// A round is a course of turns, in the order in which the players sat. It goes on until it is
/// finished, and no further. It ends the game exactly if somebody has won in it, or if as many
/// passed as there were players who were not thrown out. All that is said in it is said in its
/// turns.
pub proof fn law_round<'a, B: Board, A: ?Sized>(
    before: Table<'a, B, A>,
    observers: nat,
    calls: Seq<Call<'a, B, A>>,
    after: Table<'a, B, A>,
    over: bool,
) -> (course: Course<'a, B, A>)
    requires
        round_played(before, observers, calls, after, over),
    ensures
        course.tables.len() == course.replies.len() + 1,
        course.replies.len() <= before.state.players.len(),
        course.tables[0] == before,
        course.tables.last() == after,
        forall|i: int|
            0 <= i < course.replies.len() ==> #[trigger] turn_goes(course, observers, i),
        forall|i: int|
            0 <= i < course.replies.len() - 1 ==> !#[trigger] finished_after(course, i),
        course.replies.len() == 0 <==> before.state.players.len() == 0,
        course.replies.len() > 0 ==> finished_after(course, course.replies.len() - 1),
        over <==> {
            ||| course.replies.len() > 0 && turn_end(
                course.tables[course.replies.len() - 1],
                course.replies.last(),
            ) is Won
            ||| course.replies.filter(is_pass()).len() == before.state.players.len()
                - thrown_out_between(before, after)
        },
        calls == course.turns().flatten(),
{
    let (replies, turns) = lemma_turns_of_round(before, observers, calls, after, over);
    let count = replies.len();
    let course = Course {
        tables: Seq::new(count + 1, |i: int| progress(before, replies.take(i)).table),
        replies,
        asks: Seq::new(count, |i: int| turns[i].take(turns[i].len() - observers)),
        shows: Seq::new(count, |i: int| turns[i].skip(turns[i].len() - observers)),
    };
    assert(replies.take(0) =~= Seq::empty());
    assert(replies.take(count as int) =~= replies);
    lemma_orderly(before, observers, replies, turns);
    lemma_tally(before, observers, replies, turns);
    assert forall|i: int| 0 <= i < count implies #[trigger] turn_goes(course, observers, i) by {
        assert(turn_taken(before, observers, replies, turns, i));
        law_turns_in_order(before, observers, replies, turns, i);
        lemma_progress_step(before, replies, i);
        law_observers_see_all(observers, course.tables[i + 1].state, course.shows[i]);
    }
    assert forall|i: int| 0 <= i < count implies progress(
        before,
        replies.take(i + 1),
    ).tally.finished() == #[trigger] finished_after(course, i) by {
        lemma_taken_prefix(before, observers, replies, turns, i + 1);
        lemma_tally(before, observers, replies.take(i + 1), turns.take(i + 1));
        assert(replies.take(i + 1).drop_last() =~= replies.take(i));
    }
    assert forall|i: int| 0 <= i < count - 1 implies !#[trigger] finished_after(course, i) by {
        assert(turn_taken(before, observers, replies, turns, i + 1));
        assert(progress(before, replies.take(i + 1)).tally.finished() == finished_after(course, i));
    }
    if count > 0 {
        assert(turn_taken(before, observers, replies, turns, 0));
        assert(replies.drop_last() =~= replies.take(count - 1));
        assert(progress(before, replies.take(count - 1 + 1)).tally.finished() == finished_after(
            course,
            count - 1,
        ));
    }
    assert(course.turns() =~= turns) by {
        assert forall|i: int| 0 <= i < count implies #[trigger] course.turns()[i] == turns[i] by {
            assert(turn_taken(before, observers, replies, turns, i));
            assert(course.turns()[i] =~= turns[i]);
        }
    }
    law_joined(turns);
    course
}

/// A game is played for rounds until one of them ends it, but for no more than 1000; each round
/// goes on where the last one led to.
pub proof fn law_rounds<'a, B: Board, A: ?Sized>(
    opened: Table<'a, B, A>,
    observers: nat,
    calls: Seq<Call<'a, B, A>>,
    closed: Table<'a, B, A>,
) -> (rounds: (Seq<Table<'a, B, A>>, Seq<Seq<Call<'a, B, A>>>, bool))
    requires
        rounds_played(opened, observers, calls, closed),
    ensures
        2 <= rounds.0.len() <= 1001,
        rounds.1.len() == rounds.0.len() - 1,
        rounds.0[0] == opened,
        rounds.0.last() == closed,
        forall|i: int|
            0 <= i < rounds.1.len() - 1 ==> round_played(
                rounds.0[i],
                observers,
                #[trigger] rounds.1[i],
                rounds.0[i + 1],
                false,
            ),
        round_played(
            rounds.0[rounds.1.len() - 1],
            observers,
            rounds.1.last(),
            closed,
            rounds.2,
        ),
        !rounds.2 ==> rounds.1.len() == 1000,
        calls == rounds.1.flatten(),
{
    let (tables, rounds, over) = lemma_tables_of_rounds(opened, observers, calls, closed);
    assert forall|i: int| 0 <= i < rounds.len() - 1 implies round_played(
        tables[i],
        observers,
        #[trigger] rounds[i],
        tables[i + 1],
        false,
    ) by {
        assert(linked(tables, observers, rounds, over, i));
    }
    assert(linked(tables, observers, rounds, over, rounds.len() - 1));
    law_joined(rounds);
    (tables, rounds, over)
}

/// The parts of a game.
pub struct Parts<'a, B, A: ?Sized> {
    /// How the game stood before its first round.
    pub opened: Table<'a, B, A>,
    /// How it stood after its last round.
    pub closed: Table<'a, B, A>,
    pub setups: Seq<Call<'a, B, A>>,
    pub opening: Seq<Call<'a, B, A>>,
    pub rounds: Seq<Call<'a, B, A>>,
    pub ending: Seq<Call<'a, B, A>>,
    pub outcome: Seq<Call<'a, B, A>>,
}

/// A game begins with telling the players of it. Then the observers see it, rounds are played, each
/// observer is told that it is over, and those whom nobody is ahead of are told that they won, all
/// others that they lost. Nothing else is said in it.
pub proof fn law_game<'a, B: Board, A: ?Sized>(
    multiple_goals: bool,
    start: StateModel<B, Player<'a, A>>,
    observers: nat,
    end: StateModel<B, Player<'a, A>>,
    winners: Seq<Player<'a, A>>,
    kicked: Seq<Player<'a, A>>,
    calls: Seq<Call<'a, B, A>>,
) -> (parts: Parts<'a, B, A>)
    requires
        game_played(multiple_goals, start, observers, end, winners, kicked, calls),
    ensures
        initial_goals(multiple_goals, start, parts.opened.remaining),
        start_broadcast(
            start,
            Seq::empty(),
            parts.opened.state,
            parts.opened.kicked,
            parts.setups,
        ),
        all_see(observers, parts.opened.state, parts.opening),
        rounds_played(parts.opened, observers, parts.rounds, parts.closed),
        parts.closed.state == end,
        parts.ending.len() == observers,
        forall|i: int|
            0 <= i < observers ==> (#[trigger] parts.ending[i] matches Call::GameOver { observer }
                && observer == i),
        outcome_broadcast(
            end.players.filter(unbeaten(end.players)),
            end.players.filter(outscored(end.players)) + end.players.filter(outrun(end.players)),
            parts.closed.kicked,
            winners,
            kicked,
            parts.outcome,
        ),
        calls == parts.setups + parts.opening + parts.rounds + parts.ending + parts.outcome,
{
    let (opened, closed, story) = lemma_story_of_game(
        multiple_goals,
        start,
        observers,
        end,
        winners,
        kicked,
        calls,
    );
    law_observers_see_all(observers, opened.state, story.opening);
    law_winners_are_unbeaten(end.players);
    assert(calls =~= story.setups + story.opening + story.rounds + story.ending + story.outcome);
    Parts {
        opened,
        closed,
        setups: story.setups,
        opening: story.opening,
        rounds: story.rounds,
        ending: story.ending,
        outcome: story.outcome,
    }
}

/// How many goals the players who are `api` have reached together.
pub open spec fn goals_of<'a, A: ?Sized>(players: Seq<Player<'a, A>>, api: &'a A) -> nat
    decreases players.len(),
{
    if players.len() == 0 {
        0
    } else {
        goals_of(players.drop_last(), api) + if players.last().api == api {
            players.last().info.goals_reached as nat
        } else {
            0
        }
    }
}

/// Whether a call sends the player `api` to a new goal.
pub open spec fn sends_on<'a, B, A: ?Sized>(api: &'a A) -> spec_fn(Call<'a, B, A>) -> bool {
    |call: Call<'a, B, A>|
        call matches Call::Setup { player, game, .. } && player == api && game is None
}

proof fn lemma_goals_push<'a, A: ?Sized>(
    players: Seq<Player<'a, A>>,
    player: Player<'a, A>,
    api: &'a A,
)
    ensures
        goals_of(players.push(player), api) == goals_of(players, api) + if player.api == api {
            player.info.goals_reached as nat
        } else {
            0
        },
{
    assert(players.push(player).drop_last() =~= players);
}

proof fn lemma_goals_concat<'a, A: ?Sized>(
    front: Seq<Player<'a, A>>,
    back: Seq<Player<'a, A>>,
    api: &'a A,
)
    ensures
        goals_of(front + back, api) == goals_of(front, api) + goals_of(back, api),
    decreases back.len(),
{
    if back.len() == 0 {
        assert(front + back =~= front);
    } else {
        lemma_goals_concat(front, back.drop_last(), api);
        assert((front + back).drop_last() =~= front + back.drop_last());
    }
}

proof fn lemma_goals_same<'a, A: ?Sized>(
    one: Seq<Player<'a, A>>,
    other: Seq<Player<'a, A>>,
    api: &'a A,
)
    requires
        one.len() == other.len(),
        forall|i: int|
            0 <= i < one.len() ==> (#[trigger] one[i]).api == other[i].api
                && one[i].info.goals_reached == other[i].info.goals_reached,
    ensures
        goals_of(one, api) == goals_of(other, api),
    decreases one.len(),
{
    if one.len() > 0 {
        assert(one[one.len() - 1].api == other[one.len() - 1].api);
        assert forall|i: int| 0 <= i < one.drop_last().len() implies (
        #[trigger] one.drop_last()[i]).api == other.drop_last()[i].api
            && one.drop_last()[i].info.goals_reached
            == other.drop_last()[i].info.goals_reached by {
            assert(one[i].api == other[i].api);
        }
        lemma_goals_same(one.drop_last(), other.drop_last(), api);
    }
}

proof fn lemma_goals_first<'a, A: ?Sized>(players: Seq<Player<'a, A>>, api: &'a A)
    requires
        players.len() > 0,
    ensures
        goals_of(players, api) == goals_of(players.skip(1), api) + if players[0].api == api {
            players[0].info.goals_reached as nat
        } else {
            0
        },
{
    let first = players.take(1);
    assert(players =~= first + players.skip(1));
    lemma_goals_concat(first, players.skip(1), api);
    lemma_goals_push(Seq::empty(), players[0], api);
    assert(Seq::empty().push(players[0]) =~= first);
}

proof fn lemma_goals_answered<'a, A: ?Sized>(
    players: Seq<Player<'a, A>>,
    answers: Seq<bool>,
    api: &'a A,
)
    requires
        answers.len() == players.len(),
    ensures
        goals_of(players, api) == goals_of(answered(players, answers, true), api) + goals_of(
            answered(players, answers, false),
            api,
        ),
    decreases players.len(),
{
    if players.len() > 0 {
        lemma_goals_answered(players.drop_last(), answers.drop_last(), api);
        let kept = answered(players.drop_last(), answers.drop_last(), true);
        let dropped = answered(players.drop_last(), answers.drop_last(), false);
        lemma_goals_push(kept, players.last(), api);
        lemma_goals_push(dropped, players.last(), api);
    }
}

proof fn lemma_none_send_on<'a, B, A: ?Sized>(calls: Seq<Call<'a, B, A>>, api: &'a A)
    requires
        forall|i: int| 0 <= i < calls.len() ==> !sends_on(api)(#[trigger] calls[i]),
    ensures
        calls.filter(sends_on(api)).len() == 0,
    decreases calls.len(),
{
    reveal(Seq::filter);
    if calls.len() > 0 {
        assert(!sends_on(api)(calls[calls.len() - 1]));
        assert forall|i: int| 0 <= i < calls.drop_last().len() implies !sends_on(api)(
            #[trigger] calls.drop_last()[i],
        ) by {
            assert(calls.drop_last()[i] == calls[i]);
        }
        lemma_none_send_on(calls.drop_last(), api);
    }
}

/// In a turn, the count of the goals that somebody has reached grows by one for each time that they
/// are sent to a new goal in it, and by nothing else; whether they stay or are thrown out does not
/// matter.
pub proof fn law_turn_counts_goals<'a, B: Board, A: ?Sized>(
    table: Table<'a, B, A>,
    reply: ReplyModel<B>,
    calls: Seq<Call<'a, B, A>>,
    api: &'a A,
)
    requires
        table.state.players.len() > 0,
        table.state.players[0].info.goals_reached < usize::MAX,
        fits(table, reply),
        asked(table.state, table.remaining, reply, calls),
    ensures
        goals_of(settled(table, reply).state.players, api) + goals_of(
            settled(table, reply).kicked,
            api,
        ) == goals_of(table.state.players, api) + goals_of(table.kicked, api) + calls.filter(
            sends_on(api),
        ).len(),
{
    let players = table.state.players;
    let after = settled(table, reply);
    reveal_with_fuel(Seq::filter, 3);
    law_player_is_asked(table.state, table.remaining, reply, calls);
    lemma_goals_first(players, api);
    assert(calls.len() == 1 ==> calls.drop_last() =~= Seq::empty());
    assert(!sends_on(api)(calls[0]));
    match reply {
        ReplyModel::Passed => {
            lemma_goals_push(players.skip(1), players[0], api);
            assert(after.state.players =~= players.skip(1).push(players[0]));
        },
        ReplyModel::Moved { slide, board, positions, accepted } => {
            law_goal_is_told(
                table.state,
                table.remaining,
                slide,
                board,
                positions,
                accepted,
                calls,
            );
            let moved = table.moved(slide, board, positions).state.players;
            lemma_goals_same(moved, players, api);
            lemma_goals_first(moved, api);
            if let Some(goal) = next_goal(players[0].info, positions[0], table.remaining) {
                let awarded = table.moved(slide, board, positions).award_current(goal);
                let player = awarded.state.players[0];
                assert(awarded.state.players.skip(1) =~= moved.skip(1));
                assert(player.info.goals_reached == players[0].info.goals_reached + 1);
                assert(calls.drop_last().drop_last() =~= Seq::empty());
                assert(calls.drop_last()[0] == calls[0]);
                assert(calls.filter(sends_on(api)).len() == if players[0].api == api {
                    1nat
                } else {
                    0
                });
                if accepted {
                    lemma_goals_push(moved.skip(1), player, api);
                    assert(after.state.players =~= moved.skip(1).push(player));
                } else {
                    lemma_goals_push(table.kicked, player, api);
                    assert(after.state.players =~= moved.skip(1));
                }
            } else {
                if !(turn_end(table, reply) is Won) {
                    lemma_goals_push(moved.skip(1), moved[0], api);
                    assert(after.state.players =~= moved.skip(1).push(moved[0]));
                }
            }
        },
        _ => {
            lemma_goals_push(table.kicked, players[0], api);
        },
    }
}

proof fn lemma_turns_count_goals<'a, B: Board, A: ?Sized>(
    table: Table<'a, B, A>,
    observers: nat,
    replies: Seq<ReplyModel<B>>,
    turns: Seq<Seq<Call<'a, B, A>>>,
    api: &'a A,
)
    requires
        taken(table, observers, replies, turns),
        goals_within(table.state.players, usize::MAX - 1),
    ensures
        goals_of(progress(table, replies).table.state.players, api) + goals_of(
            progress(table, replies).table.kicked,
            api,
        ) == goals_of(table.state.players, api) + goals_of(table.kicked, api) + joined(
            turns,
        ).filter(sends_on(api)).len(),
    decreases replies.len(),
{
    if replies.len() > 0 {
        lemma_taken_drop_last(table, observers, replies, turns);
        let fewer = replies.drop_last();
        let less = turns.drop_last();
        lemma_turns_count_goals(table, observers, fewer, less, api);
        lemma_orderly(table, observers, fewer, less);
        let round = progress(table, fewer);
        assert(same_but_for_tile(
            table.state.players[round.tally.turns as int],
            round.table.state.players[0],
        ));
        let calls = turns.last();
        let said = calls.len() - observers;
        assert(turn_had(round.table, observers, replies.last(), calls));
        law_turn_counts_goals(round.table, replies.last(), calls.take(said), api);
        let shows = calls.skip(said);
        assert forall|i: int| 0 <= i < shows.len() implies !sends_on(api)(
            #[trigger] shows[i],
        ) by {
            assert(shown(settled(round.table, replies.last()).state, shows, i));
        }
        lemma_none_send_on(shows, api);
        assert(calls =~= calls.take(said) + shows);
        Seq::filter_distributes_over_add(calls.take(said), shows, sends_on(api));
        Seq::filter_distributes_over_add(joined(less), calls, sends_on(api));
    } else {
        assert(joined(turns) =~= Seq::empty());
        lemma_none_send_on(joined(turns), api);
    }
}

/// In a round, the count of the goals that somebody has reached grows by one for each time that
/// they are sent to a new goal in it, and by nothing else.
pub proof fn law_round_counts_goals<'a, B: Board, A: ?Sized>(
    before: Table<'a, B, A>,
    observers: nat,
    calls: Seq<Call<'a, B, A>>,
    after: Table<'a, B, A>,
    over: bool,
    api: &'a A,
)
    requires
        round_played(before, observers, calls, after, over),
        goals_within(before.state.players, usize::MAX - 1),
    ensures
        goals_of(after.state.players, api) + goals_of(after.kicked, api) == goals_of(
            before.state.players,
            api,
        ) + goals_of(before.kicked, api) + calls.filter(sends_on(api)).len(),
{
    let (replies, turns) = lemma_turns_of_round(before, observers, calls, after, over);
    lemma_turns_count_goals(before, observers, replies, turns, api);
}

proof fn lemma_rounds_count_goals<'a, B: Board, A: ?Sized>(
    tables: Seq<Table<'a, B, A>>,
    observers: nat,
    rounds: Seq<Seq<Call<'a, B, A>>>,
    over: bool,
    count: int,
    api: &'a A,
)
    requires
        rounds_through(tables, observers, rounds, over),
        0 <= count < tables.len(),
        goals_within(tables[0].state.players, usize::MAX - 1000),
    ensures
        goals_within(tables[count].state.players, usize::MAX - 1000 + count),
        goals_of(tables[count].state.players, api) + goals_of(tables[count].kicked, api)
            == goals_of(tables[0].state.players, api) + goals_of(tables[0].kicked, api) + joined(rounds.take(count)).filter(
            sends_on(api),
        ).len(),
    decreases count,
{
    if count > 0 {
        let i = count - 1;
        lemma_rounds_count_goals(tables, observers, rounds, over, i, api);
        assert(linked(tables, observers, rounds, over, i));
        let ended = over && i == tables.len() - 2;
        law_round_counts_goals(tables[i], observers, rounds[i], tables[count], ended, api);
        let (replies, turns) = lemma_turns_of_round(
            tables[i],
            observers,
            rounds[i],
            tables[count],
            ended,
        );
        lemma_one_goal_a_round(tables[i], observers, replies, turns, usize::MAX - 1000 + i);
        assert(rounds.take(count).drop_last() =~= rounds.take(i));
        Seq::filter_distributes_over_add(joined(rounds.take(i)), rounds[i], sends_on(api));
    } else {
        assert(joined(rounds.take(0)) =~= Seq::empty());
        lemma_none_send_on(joined(rounds.take(0)), api);
    }
}

/// In a game, the count of the goals that somebody has reached grows by one for each time that they
/// are sent to a new goal in it, and by nothing else. Those who were thrown out before its end,
/// whom the law gives back, are counted with what they had then.
pub proof fn law_game_counts_goals<'a, B: Board, A: ?Sized>(
    multiple_goals: bool,
    start: StateModel<B, Player<'a, A>>,
    observers: nat,
    end: StateModel<B, Player<'a, A>>,
    winners: Seq<Player<'a, A>>,
    kicked: Seq<Player<'a, A>>,
    calls: Seq<Call<'a, B, A>>,
    api: &'a A,
) -> (out: Seq<Player<'a, A>>)
    requires
        game_played(multiple_goals, start, observers, end, winners, kicked, calls),
        goals_within(start.players, usize::MAX - 1000),
    ensures
        continues(out, kicked),
        goals_of(end.players, api) + goals_of(out, api) == goals_of(start.players, api)
            + calls.filter(sends_on(api)).len(),
{
    let parts = law_game(multiple_goals, start, observers, end, winners, kicked, calls);
    let keep = sends_on::<B, A>(api);
    let accepted = lemma_who_accepted(
        start,
        Seq::empty(),
        parts.opened.state,
        parts.opened.kicked,
        parts.setups,
    );
    lemma_goals_answered(start.players, accepted, api);
    lemma_goals_concat(Seq::empty(), answered(start.players, accepted, false), api);
    lemma_within_answered(start.players, accepted, usize::MAX - 1000);
    let (tables, rounds, over) = lemma_tables_of_rounds(
        parts.opened,
        observers,
        parts.rounds,
        parts.closed,
    );
    lemma_rounds_count_goals(tables, observers, rounds, over, tables.len() - 1, api);
    assert(rounds.take(tables.len() - 1) =~= rounds);
    assert forall|i: int| 0 <= i < parts.setups.len() implies !keep(
        #[trigger] parts.setups[i],
    ) by {
        assert(told_in_turn(start, accepted, parts.setups, i));
    }
    lemma_none_send_on(parts.setups, api);
    lemma_none_send_on(parts.opening, api);
    lemma_none_send_on(parts.ending, api);
    let best = end.players.filter(unbeaten(end.players));
    let rest = end.players.filter(outscored(end.players)) + end.players.filter(
        outrun(end.players),
    );
    law_outcome(
        best,
        rest,
        parts.closed.kicked,
        winners,
        kicked,
        parts.outcome,
    );
    assert forall|i: int| 0 <= i < parts.outcome.len() implies !keep(
        #[trigger] parts.outcome[i],
    ) by {
        assert(parts.outcome[i] is Won);
    }
    lemma_none_send_on(parts.outcome, api);
    let a = parts.setups + parts.opening;
    let b = a + parts.rounds;
    let c = b + parts.ending;
    Seq::filter_distributes_over_add(parts.setups, parts.opening, keep);
    Seq::filter_distributes_over_add(a, parts.rounds, keep);
    Seq::filter_distributes_over_add(b, parts.ending, keep);
    Seq::filter_distributes_over_add(c, parts.outcome, keep);
    let out = parts.closed.kicked;
    assert(kicked.take(out.len() as int) =~= out);
    out
}

proof fn lemma_within_answered<'a, A: ?Sized>(
    players: Seq<Player<'a, A>>,
    answers: Seq<bool>,
    bound: int,
)
    requires
        answers.len() == players.len(),
        goals_within(players, bound),
    ensures
        goals_within(answered(players, answers, true), bound),
    decreases players.len(),
{
    if players.len() > 0 {
        lemma_within_answered(players.drop_last(), answers.drop_last(), bound);
    }
}

} // verus!
