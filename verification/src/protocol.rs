//! In which order, and how often, players and observers are spoken to in a game.
use crate::board::Board;
use crate::grid::Position;
use crate::history::{joined, Call};
use crate::player::{FullPlayerInfo, Player, PlayerMove};
use crate::referee::{
    ending_calls, game_of, game_played, lemma_story_of_game, lemma_tables_of_rounds, linked,
    rounds_played, Story,
};
use crate::round::{lemma_turns_of_round, progress, round_played, shown, turn_had, turn_taken};
use crate::seating::{lemma_who_accepted, told_in_turn};
use crate::state::{State, StateModel};
use crate::turn::{carried_out, judged, settled, ReplyModel, Table};
use crate::winners::{answered, lemma_who_took_it_well, losers_of, outcome_calls, winners_of};
use vstd::prelude::*;

verus! {

/// Whether a call tells a player how the game ended.
pub open spec fn is_won<'a, B, A: ?Sized>() -> spec_fn(Call<'a, B, A>) -> bool {
    |call: Call<'a, B, A>| call is Won
}

/// Whether a call tells an observer that the game is over.
pub open spec fn is_game_over<'a, B, A: ?Sized>() -> spec_fn(Call<'a, B, A>) -> bool {
    |call: Call<'a, B, A>| call is GameOver
}

/// Whether a call is made while a game is going on.
pub open spec fn is_of_play<'a, B, A: ?Sized>(call: Call<'a, B, A>) -> bool {
    call is Setup || call is TakeTurn || call is RecieveState
}

/// All of `calls` are made while a game is going on.
pub open spec fn all_of_play<'a, B, A: ?Sized>(calls: Seq<Call<'a, B, A>>) -> bool {
    forall|i: int| 0 <= i < calls.len() ==> is_of_play(#[trigger] calls[i])
}

proof fn lemma_judgement_sets_up<'a, B: Board, A: ?Sized>(
    state: StateModel<B, Player<'a, A>>,
    remaining: Seq<Position>,
    choice: PlayerMove,
    reply: ReplyModel<B>,
    calls: Seq<Call<'a, B, A>>,
)
    requires
        judged(state, remaining, choice, reply, calls),
    ensures
        forall|i: int| 0 <= i < calls.len() ==> (#[trigger] calls[i]) is Setup,
{
    let (view, valid) = choose|view: State<B, FullPlayerInfo>, valid: bool|
        {
            &&& #[trigger] call_ensures(
                B::is_valid_move,
                (&view, choice.slide, choice.rotations, choice.destination),
                valid,
            )
            &&& if valid {
                carried_out(state, remaining, choice, reply, calls)
            } else {
                reply is Rejected && calls.len() == 0
            }
        };
}

proof fn lemma_turn_of_play<'a, B: Board, A: ?Sized>(
    table: Table<'a, B, A>,
    observers: nat,
    reply: ReplyModel<B>,
    calls: Seq<Call<'a, B, A>>,
)
    requires
        turn_had(table, observers, reply, calls),
    ensures
        all_of_play(calls),
{
    let said = calls.len() - observers;
    let asking = calls.take(said);
    assert forall|i: int| 0 <= i < calls.len() implies is_of_play(#[trigger] calls[i]) by {
        if i < said {
            assert(asking[i] == calls[i]);
            if i > 0 {
                if let Call::TakeTurn { answer: Some(Some(choice)), .. } = asking[0] {
                    lemma_judgement_sets_up(
                        table.state,
                        table.remaining,
                        choice,
                        reply,
                        asking.skip(1),
                    );
                    assert(asking.skip(1)[i - 1] == asking[i]);
                }
            }
        } else {
            assert(shown(
                settled(table, reply).state,
                calls.skip(said),
                i - said,
            ));
            assert(calls.skip(said)[i - said] == calls[i]);
        }
    }
}

proof fn lemma_joined_of_play<'a, B, A: ?Sized>(parts: Seq<Seq<Call<'a, B, A>>>)
    requires
        forall|i: int| 0 <= i < parts.len() ==> all_of_play(#[trigger] parts[i]),
    ensures
        all_of_play(joined(parts)),
    decreases parts.len(),
{
    if parts.len() > 0 {
        let fewer = parts.drop_last();
        assert forall|i: int| 0 <= i < fewer.len() implies all_of_play(#[trigger] fewer[i]) by {
            assert(fewer[i] == parts[i]);
        }
        lemma_joined_of_play(fewer);
        assert(all_of_play(parts[parts.len() - 1]));
    }
}

proof fn lemma_round_of_play<'a, B: Board, A: ?Sized>(
    before: Table<'a, B, A>,
    observers: nat,
    calls: Seq<Call<'a, B, A>>,
    after: Table<'a, B, A>,
    over: bool,
)
    requires
        round_played(before, observers, calls, after, over),
    ensures
        all_of_play(calls),
{
    let (replies, turns) = lemma_turns_of_round(before, observers, calls, after, over);
    assert forall|i: int| 0 <= i < turns.len() implies all_of_play(#[trigger] turns[i]) by {
        assert(turn_taken(before, observers, replies, turns, i));
        lemma_turn_of_play(
            progress(before, replies.take(i)).table,
            observers,
            replies[i],
            turns[i],
        );
    }
    lemma_joined_of_play(turns);
}

proof fn lemma_rounds_of_play<'a, B: Board, A: ?Sized>(
    opened: Table<'a, B, A>,
    observers: nat,
    calls: Seq<Call<'a, B, A>>,
    closed: Table<'a, B, A>,
)
    requires
        rounds_played(opened, observers, calls, closed),
    ensures
        all_of_play(calls),
{
    let (tables, rounds, over) = lemma_tables_of_rounds(opened, observers, calls, closed);
    assert forall|i: int| 0 <= i < rounds.len() implies all_of_play(#[trigger] rounds[i]) by {
        assert(linked(tables, observers, rounds, over, i));
        lemma_round_of_play(
            tables[i],
            observers,
            rounds[i],
            tables[i + 1],
            over && i == tables.len() - 2,
        );
    }
    lemma_joined_of_play(rounds);
}

proof fn lemma_filter_none<T>(items: Seq<T>, keep: spec_fn(T) -> bool)
    requires
        forall|i: int| 0 <= i < items.len() ==> !keep(#[trigger] items[i]),
    ensures
        items.filter(keep) == Seq::<T>::empty(),
    decreases items.len(),
{
    reveal(Seq::filter);
    if items.len() > 0 {
        assert(!keep(items[items.len() - 1]));
        assert forall|i: int| 0 <= i < items.drop_last().len() implies !keep(
            #[trigger] items.drop_last()[i],
        ) by {
            assert(items.drop_last()[i] == items[i]);
        }
        lemma_filter_none(items.drop_last(), keep);
    }
}

proof fn lemma_filter_all<T>(items: Seq<T>, keep: spec_fn(T) -> bool)
    requires
        forall|i: int| 0 <= i < items.len() ==> keep(#[trigger] items[i]),
    ensures
        items.filter(keep) == items,
    decreases items.len(),
{
    reveal(Seq::filter);
    if items.len() > 0 {
        assert(keep(items[items.len() - 1]));
        assert forall|i: int| 0 <= i < items.drop_last().len() implies keep(
            #[trigger] items.drop_last()[i],
        ) by {
            assert(items.drop_last()[i] == items[i]);
        }
        lemma_filter_all(items.drop_last(), keep);
        assert(items.drop_last().push(items.last()) =~= items);
    }
}

/// What the five parts of a game consist of.
proof fn lemma_parts<'a, B: Board, A: ?Sized>(
    multiple_goals: bool,
    start: StateModel<B, Player<'a, A>>,
    observers: nat,
    opened: Table<'a, B, A>,
    closed: Table<'a, B, A>,
    story: Story<'a, B, A>,
    winners: Seq<Player<'a, A>>,
    kicked: Seq<Player<'a, A>>,
)
    requires
        game_of(multiple_goals, start, observers, opened, closed, story, winners, kicked),
    ensures
        story.setups.len() == start.players.len(),
        forall|i: int| 0 <= i < story.setups.len() ==> (#[trigger] story.setups[i]) is Setup,
        story.opening.len() == observers,
        forall|i: int|
            0 <= i < story.opening.len() ==> (#[trigger] story.opening[i]) is RecieveState,
        all_of_play(story.rounds),
        forall|i: int| 0 <= i < story.ending.len() ==> (#[trigger] story.ending[i]) is GameOver,
        forall|i: int| 0 <= i < story.outcome.len() ==> (#[trigger] story.outcome[i]) is Won,
{
    let accepted = lemma_who_accepted(
        start,
        Seq::empty(),
        opened.state,
        opened.kicked,
        story.setups,
    );
    assert forall|i: int| 0 <= i < story.setups.len() implies (
    #[trigger] story.setups[i]) is Setup by {
        assert(told_in_turn(start, accepted, story.setups, i));
    }
    assert forall|i: int| 0 <= i < story.opening.len() implies (
    #[trigger] story.opening[i]) is RecieveState by {
        assert(shown(opened.state, story.opening, i));
    }
    lemma_rounds_of_play(opened, observers, story.rounds, closed);
}

/// In a game, each of those who won is told so once, and then each of those who lost; nobody else
/// is told of the outcome. The winners of the game are those who won and took it well, in their
/// order.
pub proof fn law_outcome_is_told_once<'a, B: Board, A: ?Sized>(
    multiple_goals: bool,
    start: StateModel<B, Player<'a, A>>,
    observers: nat,
    end: StateModel<B, Player<'a, A>>,
    winners: Seq<Player<'a, A>>,
    kicked: Seq<Player<'a, A>>,
    calls: Seq<Call<'a, B, A>>,
) -> (accepted: (Seq<bool>, Seq<bool>))
    requires
        game_played(multiple_goals, start, observers, end, winners, kicked, calls),
    ensures
        accepted.0.len() == winners_of(end.players).len(),
        accepted.1.len() == losers_of(end.players).len(),
        calls.filter(is_won()) == outcome_calls::<B, A>(winners_of(end.players), true, accepted.0)
            + outcome_calls::<B, A>(losers_of(end.players), false, accepted.1),
        winners == answered(winners_of(end.players), accepted.0, true),
{
    let (opened, closed, story) = lemma_story_of_game(
        multiple_goals,
        start,
        observers,
        end,
        winners,
        kicked,
        calls,
    );
    lemma_parts(multiple_goals, start, observers, opened, closed, story, winners, kicked);
    let keep = is_won::<B, A>();
    lemma_filter_story(story, keep);
    lemma_filter_none(story.setups, keep);
    lemma_filter_none(story.opening, keep);
    assert forall|i: int| 0 <= i < story.rounds.len() implies !keep(
        #[trigger] story.rounds[i],
    ) by {
        assert(is_of_play(story.rounds[i]));
    }
    lemma_filter_none(story.rounds, keep);
    lemma_filter_none(story.ending, keep);
    lemma_filter_all(story.outcome, keep);
    assert(calls.filter(keep) =~= story.outcome);
    let (winning, losing) = lemma_who_took_it_well(
        winners_of(end.players),
        losers_of(end.players),
        closed.kicked,
        winners,
        kicked,
        story.outcome,
    );
    (winning, losing)
}

proof fn lemma_filter_story<'a, B, A: ?Sized>(
    story: Story<'a, B, A>,
    keep: spec_fn(Call<'a, B, A>) -> bool,
)
    ensures
        story.calls().filter(keep) == story.setups.filter(keep) + (story.opening.filter(keep) + (
        story.rounds.filter(keep) + (story.ending.filter(keep) + story.outcome.filter(keep)))),
{
    let d = story.ending + story.outcome;
    let c = story.rounds + d;
    let b = story.opening + c;
    Seq::filter_distributes_over_add(story.ending, story.outcome, keep);
    Seq::filter_distributes_over_add(story.rounds, d, keep);
    Seq::filter_distributes_over_add(story.opening, c, keep);
    Seq::filter_distributes_over_add(story.setups, b, keep);
}

/// In a game, each observer is told once that it is over.
pub proof fn law_game_over_is_told_once<'a, B: Board, A: ?Sized>(
    multiple_goals: bool,
    start: StateModel<B, Player<'a, A>>,
    observers: nat,
    end: StateModel<B, Player<'a, A>>,
    winners: Seq<Player<'a, A>>,
    kicked: Seq<Player<'a, A>>,
    calls: Seq<Call<'a, B, A>>,
)
    requires
        game_played(multiple_goals, start, observers, end, winners, kicked, calls),
    ensures
        calls.filter(is_game_over()) == ending_calls::<B, A>(observers),
{
    let (opened, closed, story) = lemma_story_of_game(
        multiple_goals,
        start,
        observers,
        end,
        winners,
        kicked,
        calls,
    );
    lemma_parts(multiple_goals, start, observers, opened, closed, story, winners, kicked);
    let keep = is_game_over::<B, A>();
    lemma_filter_story(story, keep);
    lemma_filter_none(story.setups, keep);
    lemma_filter_none(story.opening, keep);
    assert forall|i: int| 0 <= i < story.rounds.len() implies !keep(
        #[trigger] story.rounds[i],
    ) by {
        assert(is_of_play(story.rounds[i]));
    }
    lemma_filter_none(story.rounds, keep);
    lemma_filter_all(story.ending, keep);
    lemma_filter_none(story.outcome, keep);
    assert(calls.filter(keep) =~= story.ending);
}

/// A game begins with telling every player of it and then showing it to every observer, before
/// anyone is asked for a turn. Once an observer is told that it is over, nothing is said but that
/// it is over and how it ended; and once a player is told how it ended, nothing else is said.
pub proof fn law_calls_in_order<'a, B: Board, A: ?Sized>(
    multiple_goals: bool,
    start: StateModel<B, Player<'a, A>>,
    observers: nat,
    end: StateModel<B, Player<'a, A>>,
    winners: Seq<Player<'a, A>>,
    kicked: Seq<Player<'a, A>>,
    calls: Seq<Call<'a, B, A>>,
)
    requires
        game_played(multiple_goals, start, observers, end, winners, kicked, calls),
    ensures
        calls.len() >= start.players.len() + observers,
        forall|i: int| 0 <= i < start.players.len() ==> (#[trigger] calls[i]) is Setup,
        forall|i: int|
            start.players.len() <= i < start.players.len() + observers ==> (
            #[trigger] calls[i]) is RecieveState,
        forall|i: int, j: int|
            0 <= i < j < calls.len() && (#[trigger] calls[i]) is GameOver ==> (
            #[trigger] calls[j]) is GameOver || calls[j] is Won,
        forall|i: int, j: int|
            0 <= i < j < calls.len() && (#[trigger] calls[i]) is Won ==> (
            #[trigger] calls[j]) is Won,
{
    let (opened, closed, story) = lemma_story_of_game(
        multiple_goals,
        start,
        observers,
        end,
        winners,
        kicked,
        calls,
    );
    lemma_parts(multiple_goals, start, observers, opened, closed, story, winners, kicked);
    let shows = story.setups.len() as int;
    let plays = shows + story.opening.len();
    let ends = plays + story.rounds.len();
    let tells = ends + story.ending.len();
    assert forall|i: int| 0 <= i < calls.len() implies {
        &&& i < shows ==> (#[trigger] calls[i]) is Setup
        &&& shows <= i < plays ==> calls[i] is RecieveState
        &&& plays <= i < ends ==> is_of_play(calls[i])
        &&& ends <= i < tells ==> calls[i] is GameOver
        &&& tells <= i ==> calls[i] is Won
    } by {
        if i < shows {
            assert(calls[i] == story.setups[i]);
        } else if i < plays {
            assert(calls[i] == story.opening[i - shows]);
        } else if i < ends {
            assert(calls[i] == story.rounds[i - plays]);
        } else if i < tells {
            assert(calls[i] == story.ending[i - ends]);
        } else {
            assert(calls[i] == story.outcome[i - tells]);
        }
    }
}

} // verus!
