//! What holds of every game, whatever the players and the board answer.
use crate::board::Board;
use crate::grid::{gap, squared_distance, Position};
use crate::history::Call;
use crate::player::{Player, PubPlayerInfo};
use crate::random::Random;
use crate::referee::{
    game_played, lemma_story_of_game, lemma_tables_of_rounds, linked, rounds_played, rounds_through,
};
use crate::round::{
    goals_within, lemma_orderly, lemma_taken_drop_last, lemma_turns_of_round, progress, round_of,
    round_played, same_but_for_tile, taken, turn_taken,
};
use crate::seating::{
    drawn_within, first_proposal, initial_goals, initial_state, is_free, lemma_seated,
    lemma_who_accepted, seated, seats_drawn, shortage, start_broadcast, Seating, SeatingError,
};
use crate::state::{full_infos, is_player_state, public_infos, rotated, State, StateModel};
use crate::turn::{fits, next_goal, settled, turn_end, ReplyModel, Table, TurnEnd};
use crate::winners::{
    answered, contenders, distance_left, fell_short, is_far, is_near, least_distance,
    lemma_who_took_it_well, losers_of, most_goals, outcome_broadcast, reached, winners_of,
};
use vstd::prelude::*;

verus! {

/// How often a player occurs among `players`.
pub open spec fn times<'a, A: ?Sized>(players: Seq<Player<'a, A>>, api: &'a A) -> nat
    decreases players.len(),
{
    if players.len() == 0 {
        0
    } else {
        times(players.drop_last(), api) + if players.last().api == api {
            1nat
        } else {
            0
        }
    }
}

proof fn lemma_times_push<'a, A: ?Sized>(
    players: Seq<Player<'a, A>>,
    player: Player<'a, A>,
    api: &'a A,
)
    ensures
        times(players.push(player), api) == times(players, api) + if player.api == api {
            1nat
        } else {
            0
        },
{
    assert(players.push(player).drop_last() =~= players);
}

proof fn lemma_times_concat<'a, A: ?Sized>(
    front: Seq<Player<'a, A>>,
    back: Seq<Player<'a, A>>,
    api: &'a A,
)
    ensures
        times(front + back, api) == times(front, api) + times(back, api),
    decreases back.len(),
{
    if back.len() == 0 {
        assert(front + back =~= front);
    } else {
        lemma_times_concat(front, back.drop_last(), api);
        assert((front + back).drop_last() =~= front + back.drop_last());
    }
}

proof fn lemma_times_same<'a, A: ?Sized>(
    one: Seq<Player<'a, A>>,
    other: Seq<Player<'a, A>>,
    api: &'a A,
)
    requires
        one.len() == other.len(),
        forall|i: int| 0 <= i < one.len() ==> (#[trigger] one[i]).api == other[i].api,
    ensures
        times(one, api) == times(other, api),
    decreases one.len(),
{
    if one.len() > 0 {
        assert(one[one.len() - 1].api == other[one.len() - 1].api);
        assert forall|i: int| 0 <= i < one.drop_last().len() implies (
        #[trigger] one.drop_last()[i]).api == other.drop_last()[i].api by {
            assert(one[i].api == other[i].api);
        }
        lemma_times_same(one.drop_last(), other.drop_last(), api);
    }
}

proof fn lemma_times_reverse<'a, A: ?Sized>(players: Seq<Player<'a, A>>, api: &'a A)
    ensures
        times(players.reverse(), api) == times(players, api),
    decreases players.len(),
{
    if players.len() > 0 {
        lemma_times_reverse(players.drop_last(), api);
        let last = seq![players.last()];
        assert(players.reverse() =~= last + players.drop_last().reverse());
        lemma_times_concat(last, players.drop_last().reverse(), api);
        lemma_times_push(Seq::empty(), players.last(), api);
        assert(Seq::empty().push(players.last()) =~= last);
    }
}

proof fn lemma_times_first<'a, A: ?Sized>(players: Seq<Player<'a, A>>, api: &'a A)
    requires
        players.len() > 0,
    ensures
        times(players, api) == times(players.skip(1), api) + if players[0].api == api {
            1nat
        } else {
            0
        },
        times(rotated(players, 1), api) == times(players, api),
{
    let first = players.take(1);
    assert(players =~= first + players.skip(1));
    lemma_times_concat(first, players.skip(1), api);
    lemma_times_concat(players.skip(1), first, api);
    lemma_times_push(Seq::empty(), players[0], api);
    assert(Seq::empty().push(players[0]) =~= first);
}

proof fn lemma_times_answered<'a, A: ?Sized>(
    players: Seq<Player<'a, A>>,
    answers: Seq<bool>,
    api: &'a A,
)
    requires
        answers.len() == players.len(),
    ensures
        times(players, api) == times(answered(players, answers, true), api) + times(
            answered(players, answers, false),
            api,
        ),
    decreases players.len(),
{
    if players.len() > 0 {
        lemma_times_answered(players.drop_last(), answers.drop_last(), api);
        let kept = answered(players.drop_last(), answers.drop_last(), true);
        let dropped = answered(players.drop_last(), answers.drop_last(), false);
        lemma_times_push(kept, players.last(), api);
        lemma_times_push(dropped, players.last(), api);
    }
}

proof fn lemma_times_filter<'a, A: ?Sized>(
    players: Seq<Player<'a, A>>,
    keep: spec_fn(Player<'a, A>) -> bool,
    drop: spec_fn(Player<'a, A>) -> bool,
    api: &'a A,
)
    requires
        forall|player: Player<'a, A>| #[trigger] keep(player) == !drop(player),
    ensures
        times(players, api) == times(players.filter(keep), api) + times(players.filter(drop), api),
    decreases players.len(),
{
    reveal(Seq::filter);
    if players.len() > 0 {
        lemma_times_filter(players.drop_last(), keep, drop, api);
        assert(keep(players.last()) == !drop(players.last()));
        lemma_times_push(players.drop_last().filter(keep), players.last(), api);
        lemma_times_push(players.drop_last().filter(drop), players.last(), api);
    }
}

/// In a turn nobody gets lost, and nobody joins: each player is as often at the table or among
/// those thrown out as before.
pub proof fn law_turn_keeps_everyone<'a, B, A: ?Sized>(
    table: Table<'a, B, A>,
    reply: ReplyModel<B>,
    api: &'a A,
)
    requires
        table.state.players.len() > 0,
        fits(table, reply),
    ensures
        times(settled(table, reply).state.players, api) + times(settled(table, reply).kicked, api)
            == times(table.state.players, api) + times(table.kicked, api),
{
    let players = table.state.players;
    lemma_times_first(players, api);
    lemma_times_push(table.kicked, players[0], api);
    if let ReplyModel::Moved { slide, board, positions, accepted } = reply {
        let moved = table.moved(slide, board, positions);
        lemma_times_same(moved.state.players, players, api);
        lemma_times_first(moved.state.players, api);
        if let Some(goal) = next_goal(players[0].info, positions[0], table.remaining) {
            let awarded = moved.award_current(goal);
            lemma_times_same(awarded.state.players, players, api);
            lemma_times_first(awarded.state.players, api);
            lemma_times_push(table.kicked, awarded.state.players[0], api);
        }
    }
}

/// In a round nobody gets lost, and nobody joins.
pub proof fn law_round_keeps_everyone<'a, B: Board, A: ?Sized>(
    before: Table<'a, B, A>,
    observers: nat,
    calls: Seq<Call<'a, B, A>>,
    after: Table<'a, B, A>,
    over: bool,
    api: &'a A,
)
    requires
        round_played(before, observers, calls, after, over),
    ensures
        times(after.state.players, api) + times(after.kicked, api) == times(
            before.state.players,
            api,
        ) + times(before.kicked, api),
{
    let (replies, turns) = lemma_turns_of_round(before, observers, calls, after, over);
    lemma_progress_keeps_everyone(before, observers, replies, turns, api);
}

proof fn lemma_progress_keeps_everyone<'a, B: Board, A: ?Sized>(
    table: Table<'a, B, A>,
    observers: nat,
    replies: Seq<ReplyModel<B>>,
    turns: Seq<Seq<Call<'a, B, A>>>,
    api: &'a A,
)
    requires
        taken(table, observers, replies, turns),
    ensures
        times(progress(table, replies).table.state.players, api) + times(
            progress(table, replies).table.kicked,
            api,
        ) == times(table.state.players, api) + times(table.kicked, api),
    decreases replies.len(),
{
    if replies.len() > 0 {
        lemma_taken_drop_last(table, observers, replies, turns);
        lemma_progress_keeps_everyone(
            table,
            observers,
            replies.drop_last(),
            turns.drop_last(),
            api,
        );
        lemma_orderly(table, observers, replies.drop_last(), turns.drop_last());
        law_turn_keeps_everyone(
            progress(table, replies.drop_last()).table,
            replies.last(),
            api,
        );
    }
}

/// In a whole sequence of rounds nobody gets lost, and nobody joins.
pub proof fn law_rounds_keep_everyone<'a, B: Board, A: ?Sized>(
    opened: Table<'a, B, A>,
    observers: nat,
    calls: Seq<Call<'a, B, A>>,
    closed: Table<'a, B, A>,
    api: &'a A,
)
    requires
        rounds_played(opened, observers, calls, closed),
    ensures
        times(closed.state.players, api) + times(closed.kicked, api) == times(
            opened.state.players,
            api,
        ) + times(opened.kicked, api),
{
    let (tables, rounds, over) = lemma_tables_of_rounds(opened, observers, calls, closed);
    lemma_tables_keep_everyone(tables, observers, rounds, over, tables.len() - 1, api);
}

proof fn lemma_tables_keep_everyone<'a, B: Board, A: ?Sized>(
    tables: Seq<Table<'a, B, A>>,
    observers: nat,
    rounds: Seq<Seq<Call<'a, B, A>>>,
    over: bool,
    i: int,
    api: &'a A,
)
    requires
        rounds_through(tables, observers, rounds, over),
        0 <= i < tables.len(),
    ensures
        times(tables[i].state.players, api) + times(tables[i].kicked, api) == times(
            tables[0].state.players,
            api,
        ) + times(tables[0].kicked, api),
    decreases i,
{
    if i > 0 {
        lemma_tables_keep_everyone(tables, observers, rounds, over, i - 1, api);
        assert(linked(tables, observers, rounds, over, i - 1));
        law_round_keeps_everyone(
            tables[i - 1],
            observers,
            rounds[i - 1],
            tables[i],
            over && i - 1 == tables.len() - 2,
            api,
        );
    }
}

/// Winners and losers together are all the players: nobody is left out, and nobody is both.
pub proof fn law_winners_and_losers_are_all<'a, A: ?Sized>(
    players: Seq<Player<'a, A>>,
    api: &'a A,
)
    ensures
        times(winners_of(players), api) + times(losers_of(players), api) == times(players, api),
{
    let goals = most_goals(players);
    let near = contenders(players);
    let distance = least_distance(near);
    lemma_times_filter(players, reached(goals), fell_short(goals), api);
    lemma_times_filter(near, is_near(distance), is_far(distance), api);
    lemma_times_concat(
        players.filter(fell_short(goals)),
        near.filter(is_far(distance)),
        api,
    );
}

/// In the result of a game nobody is counted twice, and nobody is missing but losers: each player
/// occurs among its winners and those thrown out at most as often as at the table when it began,
/// and at least as often once the losers are counted in.
pub proof fn law_game_accounts_for_everyone<'a, B: Board, A: ?Sized>(
    multiple_goals: bool,
    start: StateModel<B, Player<'a, A>>,
    observers: nat,
    end: StateModel<B, Player<'a, A>>,
    winners: Seq<Player<'a, A>>,
    kicked: Seq<Player<'a, A>>,
    calls: Seq<Call<'a, B, A>>,
    api: &'a A,
)
    requires
        game_played(multiple_goals, start, observers, end, winners, kicked, calls),
    ensures
        times(winners, api) + times(kicked, api) <= times(start.players, api),
        times(start.players, api) <= times(winners, api) + times(kicked, api) + times(
            losers_of(end.players),
            api,
        ),
{
    let (opened, closed, story) = lemma_story_of_game(
        multiple_goals,
        start,
        observers,
        end,
        winners,
        kicked,
        calls,
    );
    let accepted = lemma_who_accepted(
        start,
        Seq::empty(),
        opened.state,
        opened.kicked,
        story.setups,
    );
    lemma_times_answered(start.players, accepted, api);
    lemma_times_concat(Seq::empty(), answered(start.players, accepted, false), api);
    law_rounds_keep_everyone(opened, observers, story.rounds, closed, api);
    law_winners_and_losers_are_all(closed.state.players, api);
    lemma_outcome_accounts_for_everyone::<B, A>(
        winners_of(closed.state.players),
        losers_of(closed.state.players),
        closed.kicked,
        winners,
        kicked,
        story.outcome,
        api,
    );
}

proof fn lemma_outcome_accounts_for_everyone<'a, B, A: ?Sized>(
    winners: Seq<Player<'a, A>>,
    losers: Seq<Player<'a, A>>,
    kicked: Seq<Player<'a, A>>,
    final_winners: Seq<Player<'a, A>>,
    final_kicked: Seq<Player<'a, A>>,
    calls: Seq<Call<'a, B, A>>,
    api: &'a A,
)
    requires
        outcome_broadcast(winners, losers, kicked, final_winners, final_kicked, calls),
    ensures
        times(final_winners, api) + times(final_kicked, api) <= times(winners, api) + times(
            losers,
            api,
        ) + times(kicked, api),
        times(winners, api) + times(kicked, api) <= times(final_winners, api) + times(
            final_kicked,
            api,
        ),
{
    let (winning, losing) = lemma_who_took_it_well(
        winners,
        losers,
        kicked,
        final_winners,
        final_kicked,
        calls,
    );
    let out_of_winners = answered(winners, winning, false);
    let out_of_losers = answered(losers, losing, false);
    lemma_times_answered(winners, winning, api);
    lemma_times_answered(losers, losing, api);
    lemma_times_reverse(out_of_winners, api);
    lemma_times_reverse(out_of_losers, api);
    lemma_times_concat(kicked, out_of_winners.reverse(), api);
    lemma_times_concat(kicked + out_of_winners.reverse(), out_of_losers.reverse(), api);
}

proof fn lemma_taken_take<'a, B: Board, A: ?Sized>(
    table: Table<'a, B, A>,
    observers: nat,
    replies: Seq<ReplyModel<B>>,
    turns: Seq<Seq<Call<'a, B, A>>>,
    i: int,
)
    requires
        taken(table, observers, replies, turns),
        0 <= i <= replies.len(),
    ensures
        taken(table, observers, replies.take(i), turns.take(i)),
{
    let fewer = replies.take(i);
    let less = turns.take(i);
    assert forall|j: int| 0 <= j < fewer.len() implies #[trigger] turn_taken(
        table,
        observers,
        fewer,
        less,
        j,
    ) by {
        assert(turn_taken(table, observers, replies, turns, j));
        assert(fewer.take(j) =~= replies.take(j));
    }
}

/// In a round the players have their turns in the order in which they sat when it began, and nobody
/// has a second one.
pub proof fn law_turns_in_order<'a, B: Board, A: ?Sized>(
    before: Table<'a, B, A>,
    observers: nat,
    replies: Seq<ReplyModel<B>>,
    turns: Seq<Seq<Call<'a, B, A>>>,
    i: int,
)
    requires
        taken(before, observers, replies, turns),
        0 <= i < replies.len(),
    ensures
        replies.len() <= before.state.players.len(),
        progress(before, replies.take(i)).table.state.players.len() > 0,
        progress(before, replies.take(i)).table.state.players[0].api
            == before.state.players[i].api,
{
    lemma_orderly(before, observers, replies, turns);
    lemma_progress_turns(before, replies);
    lemma_taken_take(before, observers, replies, turns, i);
    lemma_orderly(before, observers, replies.take(i), turns.take(i));
    lemma_progress_turns(before, replies.take(i));
    assert(turn_taken(before, observers, replies, turns, i));
    assert(same_but_for_tile(
        before.state.players[i],
        progress(before, replies.take(i)).table.state.players[0],
    ));
}

proof fn lemma_progress_turns<'a, B, A: ?Sized>(
    table: Table<'a, B, A>,
    replies: Seq<ReplyModel<B>>,
)
    ensures
        progress(table, replies).tally.turns == replies.len(),
    decreases replies.len(),
{
    if replies.len() > 0 {
        lemma_progress_turns(table, replies.drop_last());
    }
}

/// A turn that ends badly puts the player, and nobody else, among those thrown out; any other turn
/// throws nobody out. A player who cannot be asked or who breaks the rules changes nothing but
/// that.
pub proof fn law_misbehaviour<'a, B, A: ?Sized>(table: Table<'a, B, A>, reply: ReplyModel<B>)
    requires
        table.state.players.len() > 0,
        fits(table, reply),
    ensures
        turn_end(table, reply) is Kicked ==> {
            let after = settled(table, reply);
            &&& after.kicked.len() == table.kicked.len() + 1
            &&& after.kicked.drop_last() == table.kicked
            &&& after.kicked.last().api == table.state.players[0].api
            &&& after.state.players.len() == table.state.players.len() - 1
        },
        !(turn_end(table, reply) is Kicked) ==> settled(table, reply).kicked == table.kicked,
        reply is Failed || reply is Rejected ==> {
            let after = settled(table, reply);
            &&& turn_end(table, reply) is Kicked
            &&& after.state.board == table.state.board
            &&& after.state.previous_slide == table.state.previous_slide
            &&& after.state.players == table.state.players.skip(1)
            &&& after.remaining == table.remaining
        },
{
    assert(settled(table, reply).kicked.len() > table.kicked.len() ==> settled(
        table,
        reply,
    ).kicked.drop_last() =~= table.kicked);
}

/// `longer` goes on where `shorter` ends.
pub open spec fn continues<T>(shorter: Seq<T>, longer: Seq<T>) -> bool {
    shorter.len() <= longer.len() && longer.take(shorter.len() as int) == shorter
}

proof fn lemma_progress_kicks<'a, B: Board, A: ?Sized>(
    table: Table<'a, B, A>,
    observers: nat,
    replies: Seq<ReplyModel<B>>,
    turns: Seq<Seq<Call<'a, B, A>>>,
    i: int,
)
    requires
        taken(table, observers, replies, turns),
        0 <= i <= replies.len(),
    ensures
        continues(
            progress(table, replies.take(i)).table.kicked,
            progress(table, replies).table.kicked,
        ),
    decreases replies.len(),
{
    let early = progress(table, replies.take(i)).table.kicked;
    let late = progress(table, replies).table.kicked;
    if i == replies.len() {
        assert(replies.take(i) =~= replies);
        assert(late.take(late.len() as int) =~= late);
    } else {
        lemma_taken_drop_last(table, observers, replies, turns);
        let fewer = replies.drop_last();
        let less = turns.drop_last();
        assert(fewer.take(i) =~= replies.take(i));
        lemma_progress_kicks(table, observers, fewer, less, i);
        lemma_orderly(table, observers, fewer, less);
        law_misbehaviour(progress(table, fewer).table, replies.last());
        let middle = progress(table, fewer).table.kicked;
        assert(continues(middle, late)) by {
            assert(late.take(middle.len() as int) =~= middle);
        }
        assert(late.take(early.len() as int) =~= middle.take(early.len() as int));
    }
}

/// Whoever is thrown out stays out, and whoever misbehaves in a round is among those thrown out
/// after it.
pub proof fn law_misbehaviour_is_punished<'a, B: Board, A: ?Sized>(
    before: Table<'a, B, A>,
    observers: nat,
    replies: Seq<ReplyModel<B>>,
    turns: Seq<Seq<Call<'a, B, A>>>,
    after: Table<'a, B, A>,
    over: bool,
    i: int,
)
    requires
        round_of(before, observers, replies, turns, after, over),
        0 <= i < replies.len(),
    ensures
        continues(before.kicked, after.kicked),
        turn_end(progress(before, replies.take(i)).table, replies[i]) is Kicked ==> exists|k: int|
            0 <= k < after.kicked.len() && (#[trigger] after.kicked[k]).api
                == before.state.players[i].api,
{
    assert(replies.take(0) =~= Seq::empty());
    lemma_progress_kicks(before, observers, replies, turns, 0);
    let table = progress(before, replies.take(i)).table;
    if turn_end(table, replies[i]) is Kicked {
        law_turns_in_order(before, observers, replies, turns, i);
        assert(turn_taken(before, observers, replies, turns, i));
        law_misbehaviour(table, replies[i]);
        assert(replies.take(i + 1).drop_last() =~= replies.take(i));
        let kicked = progress(before, replies.take(i + 1)).table.kicked;
        lemma_progress_kicks(before, observers, replies, turns, i + 1);
        let k = kicked.len() - 1;
        assert(after.kicked.take(kicked.len() as int)[k] == after.kicked[k]);
    }
}

/// Whoever is thrown out stays out until the last round.
pub proof fn law_thrown_out_for_good<'a, B: Board, A: ?Sized>(
    tables: Seq<Table<'a, B, A>>,
    observers: nat,
    rounds: Seq<Seq<Call<'a, B, A>>>,
    over: bool,
    i: int,
    j: int,
)
    requires
        rounds_through(tables, observers, rounds, over),
        0 <= i <= j < tables.len(),
    ensures
        continues(tables[i].kicked, tables[j].kicked),
    decreases j - i,
{
    let early = tables[i].kicked;
    let late = tables[j].kicked;
    if i == j {
        assert(early.take(early.len() as int) =~= early);
    } else {
        law_thrown_out_for_good(tables, observers, rounds, over, i, j - 1);
        assert(linked(tables, observers, rounds, over, j - 1));
        let ended = over && j - 1 == tables.len() - 2;
        let (replies, turns) = lemma_turns_of_round(
            tables[j - 1],
            observers,
            rounds[j - 1],
            tables[j],
            ended,
        );
        assert(replies.take(0) =~= Seq::empty());
        lemma_progress_kicks(tables[j - 1], observers, replies, turns, 0);
        let middle = tables[j - 1].kicked;
        assert(late.take(early.len() as int) =~= middle.take(early.len() as int));
    }
}

/// `later` is the player `earlier` at a later time: home and color are the same, and no goal that
/// was reached is forgotten.
pub open spec fn grew_from<'a, A: ?Sized>(earlier: Player<'a, A>, later: Player<'a, A>) -> bool {
    &&& later.api == earlier.api
    &&& later.info.home == earlier.info.home
    &&& later.info.color == earlier.info.color
    &&& later.info.goals_reached >= earlier.info.goals_reached
}

/// Each of `later` is one of `earlier` at a later time.
pub open spec fn all_grew_from<'a, A: ?Sized>(
    earlier: Seq<Player<'a, A>>,
    later: Seq<Player<'a, A>>,
) -> bool {
    forall|k: int| 0 <= k < later.len() ==> one_grew_into(earlier, #[trigger] later[k])
}

/// One of `earlier` is `later` at an earlier time.
pub open spec fn one_grew_into<'a, A: ?Sized>(
    earlier: Seq<Player<'a, A>>,
    later: Player<'a, A>,
) -> bool {
    exists|j: int| 0 <= j < earlier.len() && grew_from(#[trigger] earlier[j], later)
}

/// In a turn, nobody's home or color changes, and nobody's count of goals falls; so it is with
/// those thrown out.
pub proof fn law_turn_keeps_home_and_color<'a, B, A: ?Sized>(
    table: Table<'a, B, A>,
    reply: ReplyModel<B>,
)
    requires
        table.state.players.len() > 0,
        table.state.players[0].info.goals_reached < usize::MAX,
        fits(table, reply),
    ensures
        all_grew_from(
            table.state.players + table.kicked,
            settled(table, reply).state.players + settled(table, reply).kicked,
        ),
{
    let players = table.state.players;
    let all = players + table.kicked;
    let after = settled(table, reply);
    let later = after.state.players + after.kicked;
    let count = players.len();
    assert forall|k: int| 0 <= k < later.len() implies one_grew_into(all, #[trigger] later[k]) by {
        let end = turn_end(table, reply);
        let j = if end is Won {
            k
        } else if end is Kicked {
            if k < later.len() - 1 {
                k + 1
            } else {
                0
            }
        } else if k < count - 1 {
            k + 1
        } else if k == count - 1 {
            0
        } else {
            k
        };
        assert(grew_from(all[j], later[k]));
    }
}

/// In a round, nobody's home or color changes, and nobody's count of goals falls; so it is with
/// those thrown out.
pub proof fn law_round_keeps_home_and_color<'a, B: Board, A: ?Sized>(
    before: Table<'a, B, A>,
    observers: nat,
    replies: Seq<ReplyModel<B>>,
    turns: Seq<Seq<Call<'a, B, A>>>,
)
    requires
        taken(before, observers, replies, turns),
        goals_within(before.state.players, usize::MAX - 1),
    ensures
        all_grew_from(
            before.state.players + before.kicked,
            progress(before, replies).table.state.players + progress(before, replies).table.kicked,
        ),
    decreases replies.len(),
{
    let all = before.state.players + before.kicked;
    let after = progress(before, replies).table;
    let later = after.state.players + after.kicked;
    if replies.len() > 0 {
        lemma_taken_drop_last(before, observers, replies, turns);
        let fewer = replies.drop_last();
        law_round_keeps_home_and_color(before, observers, fewer, turns.drop_last());
        lemma_orderly(before, observers, fewer, turns.drop_last());
        let round = progress(before, fewer);
        assert(same_but_for_tile(
            before.state.players[round.tally.turns as int],
            round.table.state.players[0],
        ));
        law_turn_keeps_home_and_color(round.table, replies.last());
        let middle = round.table.state.players + round.table.kicked;
        assert forall|k: int| 0 <= k < later.len() implies one_grew_into(
            all,
            #[trigger] later[k],
        ) by {
            assert(one_grew_into(middle, later[k]));
            let j = choose|j: int|
                0 <= j < middle.len() && grew_from(#[trigger] middle[j], later[k]);
            assert(one_grew_into(all, middle[j]));
            let i = choose|i: int| 0 <= i < all.len() && grew_from(#[trigger] all[i], middle[j]);
            assert(grew_from(all[i], later[k]));
        }
    } else {
        assert forall|k: int| 0 <= k < later.len() implies one_grew_into(
            all,
            #[trigger] later[k],
        ) by {
            assert(grew_from(all[k], later[k]));
        }
    }
}

/// The goals that are left after a round are the last of those that were left before it: goals are
/// handed out in their order, and none is handed out twice.
pub proof fn law_goals_in_order<'a, B: Board, A: ?Sized>(
    before: Table<'a, B, A>,
    observers: nat,
    calls: Seq<Call<'a, B, A>>,
    after: Table<'a, B, A>,
    over: bool,
)
    requires
        round_played(before, observers, calls, after, over),
    ensures
        after.remaining.len() <= before.remaining.len(),
        after.remaining == before.remaining.skip(before.remaining.len() - after.remaining.len()),
{
    let (replies, turns) = lemma_turns_of_round(before, observers, calls, after, over);
    lemma_progress_goals(before, replies);
}

proof fn lemma_progress_goals<'a, B, A: ?Sized>(
    table: Table<'a, B, A>,
    replies: Seq<ReplyModel<B>>,
)
    ensures
        ({
            let left = progress(table, replies).table.remaining;
            &&& left.len() <= table.remaining.len()
            &&& left == table.remaining.skip(table.remaining.len() - left.len())
        }),
    decreases replies.len(),
{
    let left = progress(table, replies).table.remaining;
    if replies.len() > 0 {
        lemma_progress_goals(table, replies.drop_last());
    }
    assert(left =~= table.remaining.skip(table.remaining.len() - left.len()));
}

/// How the turn `i` of a round ended.
pub open spec fn end_of<'a, B, A: ?Sized>(
    table: Table<'a, B, A>,
    replies: Seq<ReplyModel<B>>,
    i: int,
) -> TurnEnd {
    turn_end(progress(table, replies.take(i)).table, replies[i])
}

/// Nobody has moved in the round.
pub open spec fn idle<'a, B, A: ?Sized>(
    table: Table<'a, B, A>,
    replies: Seq<ReplyModel<B>>,
) -> bool {
    forall|i: int|
        0 <= i < replies.len() ==> {
            ||| #[trigger] end_of(table, replies, i) is Passed
            ||| end_of(table, replies, i) is Kicked
        }
}

proof fn lemma_idle<'a, B, A: ?Sized>(table: Table<'a, B, A>, replies: Seq<ReplyModel<B>>)
    ensures
        ({
            let tally = progress(table, replies).tally;
            &&& tally.kicked + tally.passed <= replies.len()
            &&& tally.kicked + tally.passed == replies.len() <==> idle(table, replies)
        }),
    decreases replies.len(),
{
    if replies.len() > 0 {
        let fewer = replies.drop_last();
        lemma_idle(table, fewer);
        assert(replies.take(replies.len() - 1) =~= fewer);
        assert forall|i: int| 0 <= i < fewer.len() implies #[trigger] end_of(table, replies, i)
            == end_of(table, fewer, i) by {
            assert(replies.take(i) =~= fewer.take(i));
        }
        let last = end_of(table, replies, replies.len() - 1);
        if idle(table, replies) {
            assert forall|i: int| 0 <= i < fewer.len() implies {
                ||| #[trigger] end_of(table, fewer, i) is Passed
                ||| end_of(table, fewer, i) is Kicked
            } by {
                assert(end_of(table, replies, i) == end_of(table, fewer, i));
            }
            assert(idle(table, fewer));
        } else if idle(table, fewer) {
            assert(!(last is Passed) && !(last is Kicked));
        }
    }
}

/// A round in which nobody wins ends the game exactly when everyone has a turn and nobody moves.
pub proof fn law_idle_round_ends_game<'a, B: Board, A: ?Sized>(
    before: Table<'a, B, A>,
    observers: nat,
    replies: Seq<ReplyModel<B>>,
    turns: Seq<Seq<Call<'a, B, A>>>,
    after: Table<'a, B, A>,
    over: bool,
)
    requires
        round_of(before, observers, replies, turns, after, over),
        !progress(before, replies).tally.won,
    ensures
        over <==> replies.len() == before.state.players.len() && idle(before, replies),
{
    lemma_orderly(before, observers, replies, turns);
    lemma_progress_turns(before, replies);
    lemma_idle(before, replies);
}

/// Everyone has a turn in a round in which nobody wins and at most one player is thrown out.
pub proof fn law_everyone_has_a_turn<'a, B: Board, A: ?Sized>(
    before: Table<'a, B, A>,
    observers: nat,
    replies: Seq<ReplyModel<B>>,
    turns: Seq<Seq<Call<'a, B, A>>>,
    after: Table<'a, B, A>,
    over: bool,
)
    requires
        round_of(before, observers, replies, turns, after, over),
        !progress(before, replies).tally.won,
        after.state.players.len() + 1 >= before.state.players.len(),
    ensures
        replies.len() == before.state.players.len(),
{
    lemma_orderly(before, observers, replies, turns);
    lemma_progress_turns(before, replies);
}

/// A player who has one goal to reach and then comes home.
pub open spec fn on_single_goal<'a, A: ?Sized>(player: Player<'a, A>) -> bool {
    ||| player.info.goals_reached == 0 && player.info.goal != player.info.home
    ||| player.info.goals_reached == 1 && player.info.goal == player.info.home
}

/// A player who has come home after reaching the one goal there was.
pub open spec fn came_home<'a, A: ?Sized>(player: Player<'a, A>) -> bool {
    &&& player.info.goals_reached == 1
    &&& player.info.goal == player.info.home
    &&& player.info.position == player.info.home
}

/// A game with one goal for each player, none of which is a home.
pub open spec fn single_goals<'a, B, A: ?Sized>(table: Table<'a, B, A>) -> bool {
    &&& table.remaining.len() == 0
    &&& forall|i: int|
        0 <= i < table.state.players.len() ==> on_single_goal(#[trigger] table.state.players[i])
}

proof fn lemma_turn_single_goals<'a, B, A: ?Sized>(
    table: Table<'a, B, A>,
    reply: ReplyModel<B>,
)
    requires
        table.state.players.len() > 0,
        fits(table, reply),
        single_goals(table),
    ensures
        single_goals(settled(table, reply)),
        turn_end(table, reply) is Won ==> {
            let player = settled(table, reply).state.players[0];
            player.api == table.state.players[0].api && came_home(player)
        },
{
    let after = settled(table, reply).state.players;
    let players = table.state.players;
    assert(on_single_goal(players[0]));
    assert forall|i: int| 0 <= i < after.len() implies on_single_goal(#[trigger] after[i]) by {
        if turn_end(table, reply) is Won {
            assert(on_single_goal(players[i]));
        } else if i < players.len() - 1 {
            assert(on_single_goal(players[i + 1]));
        }
    }
}

/// A player who has reached the most goals and stands on the one they look for is among the
/// winners.
pub proof fn law_on_goal_wins<'a, A: ?Sized>(players: Seq<Player<'a, A>>, i: int)
    requires
        0 <= i < players.len(),
        players[i].info.position == players[i].info.goal,
        forall|j: int|
            0 <= j < players.len() ==> (#[trigger] players[j]).info.goals_reached
                <= players[i].info.goals_reached,
    ensures
        winners_of(players).contains(players[i]),
{
    let player = players[i];
    lemma_most_goals(players);
    assert(most_goals(players) == player.info.goals_reached);
    let near = contenders(players);
    players.lemma_filter_contains(reached(most_goals(players)), i);
    assert(near.contains(player));
    lemma_least_distance(near);
    assert(distance_left(player) == 0) by (nonlinear_arith)
        requires
            distance_left(player) == squared_distance(
                player.info.position,
                player.info.goal,
            ),
            player.info.position == player.info.goal,
    ;
    let k = near.index_of(player);
    assert(near[k] == player);
    assert(least_distance(near) == 0);
    near.lemma_filter_contains(is_near(0), k);
}

proof fn lemma_most_goals<'a, A: ?Sized>(players: Seq<Player<'a, A>>)
    ensures
        forall|i: int|
            0 <= i < players.len() ==> (#[trigger] players[i]).info.goals_reached <= most_goals(
                players,
            ),
        players.len() > 0 ==> exists|i: int|
            0 <= i < players.len() && (#[trigger] players[i]).info.goals_reached == most_goals(
                players,
            ),
    decreases players.len(),
{
    if players.len() > 0 {
        let fewer = players.drop_last();
        lemma_most_goals(fewer);
        assert forall|i: int| 0 <= i < players.len() implies (
        #[trigger] players[i]).info.goals_reached <= most_goals(players) by {
            if i < fewer.len() {
                assert(fewer[i] == players[i]);
            }
        }
        if players.last().info.goals_reached as nat > most_goals(fewer) || fewer.len() == 0 {
            assert(players[players.len() - 1].info.goals_reached == most_goals(players));
        } else {
            let i = choose|i: int|
                0 <= i < fewer.len() && (#[trigger] fewer[i]).info.goals_reached == most_goals(
                    fewer,
                );
            assert(players[i] == fewer[i]);
        }
    }
}

proof fn lemma_least_distance<'a, A: ?Sized>(players: Seq<Player<'a, A>>)
    ensures
        forall|i: int|
            0 <= i < players.len() ==> distance_left(#[trigger] players[i]) >= least_distance(
                players,
            ),
        players.len() > 0 ==> exists|i: int|
            0 <= i < players.len() && distance_left(#[trigger] players[i]) == least_distance(
                players,
            ),
    decreases players.len(),
{
    if players.len() > 1 {
        let fewer = players.drop_last();
        lemma_least_distance(fewer);
        assert forall|i: int| 0 <= i < players.len() implies distance_left(#[trigger] players[i])
            >= least_distance(players) by {
            if i < fewer.len() {
                assert(fewer[i] == players[i]);
            }
        }
        if distance_left(players.last()) < least_distance(fewer) {
            assert(distance_left(players[players.len() - 1]) == least_distance(players));
        } else {
            let i = choose|i: int|
                0 <= i < fewer.len() && distance_left(#[trigger] fewer[i]) == least_distance(
                    fewer,
                );
            assert(players[i] == fewer[i]);
        }
    } else if players.len() == 1 {
        assert(distance_left(players[0]) == least_distance(players));
    }
}

/// No player beats a winner: whoever is at the table has reached fewer goals, or as many and is no
/// nearer to the next. And where there are players, somebody wins.
pub proof fn law_winners_are_best<'a, A: ?Sized>(players: Seq<Player<'a, A>>)
    ensures
        forall|i: int, j: int|
            0 <= i < winners_of(players).len() && 0 <= j < players.len() ==> {
                let winner = #[trigger] winners_of(players)[i];
                let player = #[trigger] players[j];
                ||| player.info.goals_reached < winner.info.goals_reached
                ||| player.info.goals_reached == winner.info.goals_reached && distance_left(winner)
                    <= distance_left(player)
            },
        forall|j: int|
            0 <= j < players.len() && (forall|k: int|
                0 <= k < players.len() ==> {
                    ||| (#[trigger] players[k]).info.goals_reached < players[j].info.goals_reached
                    ||| players[k].info.goals_reached == players[j].info.goals_reached
                        && distance_left(players[j]) <= distance_left(players[k])
                }) ==> winners_of(players).contains(#[trigger] players[j]),
        players.len() > 0 ==> winners_of(players).len() > 0,
{
    let goals = most_goals(players);
    let near = contenders(players);
    let distance = least_distance(near);
    let winners = winners_of(players);
    lemma_most_goals(players);
    lemma_least_distance(near);
    assert forall|i: int, j: int| 0 <= i < winners.len() && 0 <= j < players.len() implies {
        let winner = #[trigger] winners[i];
        let player = #[trigger] players[j];
        ||| player.info.goals_reached < winner.info.goals_reached
        ||| player.info.goals_reached == winner.info.goals_reached && distance_left(winner)
            <= distance_left(player)
    } by {
        near.lemma_filter_pred(is_near(distance), i);
        near.lemma_filter_contains_rev(is_near(distance), winners[i]);
        let k = near.index_of(winners[i]);
        players.lemma_filter_pred(reached(goals), k);
        if players[j].info.goals_reached == goals {
            players.lemma_filter_contains(reached(goals), j);
            assert(near[near.index_of(players[j])] == players[j]);
        }
    }
    assert forall|j: int|
        0 <= j < players.len() && (forall|k: int|
            0 <= k < players.len() ==> {
                ||| (#[trigger] players[k]).info.goals_reached < players[j].info.goals_reached
                ||| players[k].info.goals_reached == players[j].info.goals_reached
                    && distance_left(players[j]) <= distance_left(players[k])
            }) implies winners.contains(#[trigger] players[j]) by {
        let most = choose|k: int|
            0 <= k < players.len() && (#[trigger] players[k]).info.goals_reached == goals;
        assert(players[most].info.goals_reached <= players[j].info.goals_reached);
        players.lemma_filter_contains(reached(goals), j);
        let best = choose|k: int|
            0 <= k < near.len() && distance_left(#[trigger] near[k]) == distance;
        assert(near.contains(players[j]));
        let at = near.index_of(players[j]);
        assert(near[at] == players[j]);
        players.lemma_filter_pred(reached(goals), best);
        players.lemma_filter_contains_rev(reached(goals), near[best]);
        let source = players.index_of(near[best]);
        assert(players[source] == near[best]);
        near.lemma_filter_contains(is_near(distance), at);
    }
    if players.len() > 0 {
        let most = choose|k: int|
            0 <= k < players.len() && (#[trigger] players[k]).info.goals_reached == goals;
        players.lemma_filter_contains(reached(goals), most);
        assert(near.len() > 0);
        let best = choose|k: int|
            0 <= k < near.len() && distance_left(#[trigger] near[k]) == distance;
        near.lemma_filter_contains(is_near(distance), best);
    }
}

/// With one goal for each player, none of which is a home, a player who comes home after reaching
/// their goal ends the round at once and is among the winners. The game stays one of that kind.
pub proof fn law_first_home_wins<'a, B: Board, A: ?Sized>(
    before: Table<'a, B, A>,
    observers: nat,
    replies: Seq<ReplyModel<B>>,
    turns: Seq<Seq<Call<'a, B, A>>>,
    after: Table<'a, B, A>,
    over: bool,
)
    requires
        round_of(before, observers, replies, turns, after, over),
        single_goals(before),
    ensures
        single_goals(after),
        progress(before, replies).tally.won ==> {
            &&& over
            &&& after.state.players.len() > 0
            &&& after.state.players[0].api == before.state.players[replies.len() - 1].api
            &&& came_home(after.state.players[0])
            &&& winners_of(after.state.players).contains(after.state.players[0])
        },
{
    lemma_progress_single_goals(before, observers, replies, turns);
    if progress(before, replies).tally.won {
        let last = replies.len() - 1;
        lemma_taken_drop_last(before, observers, replies, turns);
        lemma_progress_single_goals(before, observers, replies.drop_last(), turns.drop_last());
        law_turns_in_order(before, observers, replies, turns, last);
        let table = progress(before, replies.drop_last()).table;
        lemma_turn_single_goals(table, replies.last());
        assert forall|j: int| 0 <= j < after.state.players.len() implies (
        #[trigger] after.state.players[j]).info.goals_reached
            <= after.state.players[0].info.goals_reached by {
            assert(on_single_goal(after.state.players[j]));
        }
        law_on_goal_wins(after.state.players, 0);
    }
}

proof fn lemma_progress_single_goals<'a, B: Board, A: ?Sized>(
    table: Table<'a, B, A>,
    observers: nat,
    replies: Seq<ReplyModel<B>>,
    turns: Seq<Seq<Call<'a, B, A>>>,
)
    requires
        taken(table, observers, replies, turns),
        single_goals(table),
    ensures
        single_goals(progress(table, replies).table),
    decreases replies.len(),
{
    if replies.len() > 0 {
        lemma_taken_drop_last(table, observers, replies, turns);
        lemma_progress_single_goals(table, observers, replies.drop_last(), turns.drop_last());
        lemma_orderly(table, observers, replies.drop_last(), turns.drop_last());
        lemma_turn_single_goals(progress(table, replies.drop_last()).table, replies.last());
    }
}

/// The board that is chosen is one that was proposed, and before it none was; where nobody proposes
/// any, none is chosen.
pub proof fn law_chosen_board_was_proposed<B>(proposals: Seq<Option<B>>)
    ensures
        match first_proposal(proposals) {
            Some(board) => exists|i: int|
                {
                    &&& 0 <= i < proposals.len()
                    &&& #[trigger] proposals[i] == Some(board)
                    &&& forall|j: int| 0 <= j < i ==> (#[trigger] proposals[j]) is None
                },
            None => forall|i: int| 0 <= i < proposals.len() ==> (#[trigger] proposals[i]) is None,
        },
    decreases proposals.len(),
{
    if proposals.len() > 0 {
        if proposals[0] is None {
            let rest = proposals.skip(1);
            law_chosen_board_was_proposed(rest);
            match first_proposal(proposals) {
                Some(board) => {
                    let i = choose|i: int|
                        {
                            &&& 0 <= i < rest.len()
                            &&& #[trigger] rest[i] == Some(board)
                            &&& forall|j: int| 0 <= j < i ==> (#[trigger] rest[j]) is None
                        };
                    assert(proposals[i + 1] == Some(board));
                    assert forall|j: int| 0 <= j < i + 1 implies (
                    #[trigger] proposals[j]) is None by {
                        if j > 0 {
                            assert(rest[j - 1] is None);
                        }
                    }
                },
                None => {
                    assert forall|i: int| 0 <= i < proposals.len() implies (
                    #[trigger] proposals[i]) is None by {
                        if i > 0 {
                            assert(rest[i - 1] is None);
                        }
                    }
                },
            }
        } else {
            assert(proposals[0] == first_proposal(proposals));
        }
    }
}

/// A copy of a board is the same board.
pub open spec fn copies_are_faithful<B: Clone>() -> bool {
    forall|board: B, copy: B| #[trigger] cloned(board, copy) ==> copy == board
}

/// What a player is shown is the game but for everybody's goals, so that two games that differ in
/// goals alone look the same.
pub proof fn law_view_hides_goals<'a, B: Clone, A: ?Sized>(
    one: StateModel<B, Player<'a, A>>,
    other: StateModel<B, Player<'a, A>>,
    view: StateModel<B, PubPlayerInfo>,
    other_view: StateModel<B, PubPlayerInfo>,
)
    requires
        copies_are_faithful::<B>(),
        is_player_state(one, view),
        is_player_state(other, other_view),
        one.board == other.board,
        one.previous_slide == other.previous_slide,
        one.players.len() == other.players.len(),
        forall|i: int|
            0 <= i < one.players.len() ==> (#[trigger] one.players[i]).info.spec_public()
                == other.players[i].info.spec_public(),
    ensures
        view.board == one.board,
        view == other_view,
{
    assert(public_infos(one.players) =~= public_infos(other.players));
}

/// What holds of a seating: the homes that are taken are homes, no two are the same, and none of
/// them is still free.
spec fn well_seated<'a, A: ?Sized>(seating: Seating<'a, A>, homes: Seq<Position>) -> bool {
    &&& seating.homes.no_duplicates()
    &&& forall|k: int| 0 <= k < seating.homes.len() ==> homes.contains(#[trigger] seating.homes[k])
    &&& forall|i: int|
        0 <= i < seating.players.len() ==> homes.contains((#[trigger] seating.players[i]).info.home)
    &&& forall|i: int, k: int|
        0 <= i < seating.players.len() && 0 <= k < seating.homes.len() ==> (
        #[trigger] seating.players[i]).info.home != #[trigger] seating.homes[k]
    &&& forall|i: int, j: int|
        0 <= i < j < seating.players.len() ==> (#[trigger] seating.players[i]).info.home != (
        #[trigger] seating.players[j]).info.home
}

proof fn lemma_well_seated<'a, A: ?Sized>(
    apis: Seq<&'a A>,
    homes: Seq<Position>,
    goals: Seq<Position>,
    rand: Random,
)
    requires
        drawn_within(apis, homes, goals, rand),
        homes.no_duplicates(),
    ensures
        well_seated(seated(apis, homes, goals, rand), homes),
    decreases apis.len(),
{
    if apis.len() > 0 {
        lemma_well_seated(apis.drop_last(), homes, goals, rand);
        let before = seated(apis.drop_last(), homes, goals, rand);
        let after = seated(apis, homes, goals, rand);
        let index = before.rand.next_index(before.homes.len() as usize) as int;
        let home = before.homes[index];
        assert(after.homes == before.homes.remove(index));
        assert forall|k: int| 0 <= k < after.homes.len() implies after.homes[k] != home
            && exists|l: int|
            0 <= l < before.homes.len() && before.homes[l] == #[trigger] after.homes[k] by {
            let l = if k < index {
                k
            } else {
                k + 1
            };
            assert(before.homes[l] == after.homes[k]);
        }
        assert forall|k: int| 0 <= k < after.homes.len() implies homes.contains(
            #[trigger] after.homes[k],
        ) by {
            let l = choose|l: int|
                0 <= l < before.homes.len() && before.homes[l] == after.homes[k];
        }
        assert forall|i: int, k: int|
            0 <= i < after.players.len() && 0 <= k < after.homes.len() implies (
        #[trigger] after.players[i]).info.home != #[trigger] after.homes[k] by {
            let l = choose|l: int|
                0 <= l < before.homes.len() && before.homes[l] == after.homes[k];
            if i < before.players.len() {
                assert(after.players[i] == before.players[i]);
            }
        }
        assert forall|i: int, j: int| 0 <= i < j < after.players.len() implies (
        #[trigger] after.players[i]).info.home != (#[trigger] after.players[j]).info.home by {
            assert(after.players[i] == before.players[i]);
            if j < before.players.len() {
                assert(after.players[j] == before.players[j]);
            }
        }
    }
}

/// Where the board names each home once, everyone starts at a home of their own, and gets the goals
/// in their order: the first player the first goal, the second the second, and so on.
pub proof fn law_seating<'a, A: ?Sized>(
    apis: Seq<&'a A>,
    homes: Seq<Position>,
    goals: Seq<Position>,
    rand: Random,
)
    requires
        shortage(apis.len(), homes.len(), goals.len()) is None,
        drawn_within(apis, homes, goals, rand),
        homes.no_duplicates(),
    ensures
        ({
            let players = seated(apis, homes, goals, rand).players;
            &&& players.len() == apis.len()
            &&& forall|i: int|
                0 <= i < players.len() ==> {
                    let player = #[trigger] players[i];
                    &&& player.api == apis[i]
                    &&& player.info.position == player.info.home
                    &&& player.info.goal == goals[i]
                    &&& player.info.goals_reached == 0
                    &&& homes.contains(player.info.home)
                }
            &&& forall|i: int, j: int|
                0 <= i < j < players.len() ==> (#[trigger] players[i]).info.home != (
                #[trigger] players[j]).info.home
        }),
{
    lemma_seated(apis, homes, goals, rand);
    lemma_well_seated(apis, homes, goals, rand);
}

/// Where the board names each goal once, everyone starts with a goal of their own.
pub proof fn law_first_goals_differ<'a, A: ?Sized>(
    apis: Seq<&'a A>,
    homes: Seq<Position>,
    goals: Seq<Position>,
    rand: Random,
    i: int,
    j: int,
)
    requires
        shortage(apis.len(), homes.len(), goals.len()) is None,
        goals.no_duplicates(),
        0 <= i < j < apis.len(),
    ensures
        seated(apis, homes, goals, rand).players[i].info.goal != seated(
            apis,
            homes,
            goals,
            rand,
        ).players[j].info.goal,
{
    lemma_seated(apis, homes, goals, rand);
}

/// A board names the same homes whenever it is asked, and the same goals.
pub open spec fn names_alike<B: Board>() -> bool {
    &&& forall|board: B, one: Vec<Position>, other: Vec<Position>| #[trigger]
        call_ensures(B::possible_homes, (&board,), one) && #[trigger] call_ensures(
            B::possible_homes,
            (&board,),
            other,
        ) ==> one@ == other@
    &&& forall|board: B, one: Vec<Position>, other: Vec<Position>| #[trigger]
        call_ensures(B::possible_goals, (&board,), one) && #[trigger] call_ensures(
            B::possible_goals,
            (&board,),
            other,
        ) ==> one@ == other@
}

/// Generators in the same state seat any two groups of as many players alike on the same homes and
/// goals: what the referee knows of a player is what it knows of the other player in the same
/// place.
pub proof fn law_same_homes_seat_alike<'a, A: ?Sized>(
    one: Seq<&'a A>,
    other: Seq<&'a A>,
    homes: Seq<Position>,
    goals: Seq<Position>,
    rand: Random,
)
    requires
        one.len() == other.len(),
    ensures
        seated(one, homes, goals, rand).homes == seated(other, homes, goals, rand).homes,
        seated(one, homes, goals, rand).rand == seated(other, homes, goals, rand).rand,
        full_infos(seated(one, homes, goals, rand).players) == full_infos(
            seated(other, homes, goals, rand).players,
        ),
    decreases one.len(),
{
    lemma_seated(one, homes, goals, rand);
    lemma_seated(other, homes, goals, rand);
    if one.len() > 0 {
        law_same_homes_seat_alike(one.drop_last(), other.drop_last(), homes, goals, rand);
        lemma_seated(one.drop_last(), homes, goals, rand);
        lemma_seated(other.drop_last(), homes, goals, rand);
        let first = seated(one.drop_last(), homes, goals, rand).players;
        let second = seated(other.drop_last(), homes, goals, rand).players;
        let players = seated(one, homes, goals, rand).players;
        let others = seated(other, homes, goals, rand).players;
        assert forall|i: int| 0 <= i < players.len() implies #[trigger] full_infos(players)[i]
            == full_infos(others)[i] by {
            if i < first.len() {
                assert(full_infos(first)[i] == full_infos(second)[i]);
            }
        }
        assert(full_infos(players) =~= full_infos(others));
    }
}

/// Generators in the same state seat any two groups of as many players alike on the same board:
/// home, position, goal and color are those of the player in the same place. They also fail alike,
/// and end in the same state.
pub proof fn law_equal_seeds_seat_alike<'a, B: Board, A: ?Sized>(
    one: Seq<&'a A>,
    other: Seq<&'a A>,
    board: B,
    rand: Random,
    state: Result<State<B, Player<'a, A>>, SeatingError>,
    other_state: Result<State<B, Player<'a, A>>, SeatingError>,
    after: Random,
    other_after: Random,
)
    requires
        names_alike::<B>(),
        one.len() == other.len(),
        initial_state(one, board, rand, state, after),
        initial_state(other, board, rand, other_state, other_after),
    ensures
        after == other_after,
        match state {
            Err(error) => other_state == Err::<State<B, Player<'a, A>>, SeatingError>(error),
            Ok(state) => other_state matches Ok(other_state) && full_infos(state@.players)
                == full_infos(other_state@.players),
        },
{
    let (homes, goals) = choose|homes: Vec<Position>, goals: Vec<Position>|
        #[trigger] seats_drawn(one, board, rand, state, after, homes, goals);
    let (other_homes, other_goals) = choose|homes: Vec<Position>, goals: Vec<Position>|
        #[trigger] seats_drawn(other, board, rand, other_state, other_after, homes, goals);
    assert(homes@ == other_homes@);
    assert(goals@ == other_goals@);
    law_same_homes_seat_alike(one, other, homes@, goals@, rand);
}

/// Where more than one goal is to be reached, a goal that the board names is handed out in the
/// course of the game exactly when none of the players begins with it.
pub proof fn law_later_goals_are_free<'a, A: ?Sized>(
    possible: Seq<Position>,
    players: Seq<Player<'a, A>>,
    i: int,
)
    requires
        0 <= i < possible.len(),
    ensures
        possible.filter(is_free(players)).contains(possible[i]) <==> (forall|j: int|
            0 <= j < players.len() ==> (#[trigger] players[j]).info.goal != possible[i]),
{
    let free = is_free(players);
    if free(possible[i]) {
        possible.lemma_filter_contains(free, i);
    } else if possible.filter(free).contains(possible[i]) {
        let k = possible.filter(free).index_of(possible[i]);
        possible.lemma_filter_pred(free, k);
    }
}

proof fn lemma_answered_single<'a, A: ?Sized>(players: Seq<Player<'a, A>>, answers: Seq<bool>)
    requires
        answers.len() == players.len(),
        forall|i: int| 0 <= i < players.len() ==> on_single_goal(#[trigger] players[i]),
    ensures
        forall|i: int|
            0 <= i < answered(players, answers, true).len() ==> on_single_goal(
                #[trigger] answered(players, answers, true)[i],
            ),
    decreases players.len(),
{
    if players.len() > 0 {
        assert forall|i: int| 0 <= i < players.drop_last().len() implies on_single_goal(
            #[trigger] players.drop_last()[i],
        ) by {
            assert(on_single_goal(players[i]));
        }
        lemma_answered_single(players.drop_last(), answers.drop_last());
        assert(on_single_goal(players[players.len() - 1]));
        let fewer = answered(players.drop_last(), answers.drop_last(), true);
        let all = answered(players, answers, true);
        assert forall|i: int| 0 <= i < all.len() implies on_single_goal(#[trigger] all[i]) by {
            if i < fewer.len() {
                assert(all[i] == fewer[i]);
            }
        }
    }
}

/// A game under the plain rules whose players have goals away from home is one with one goal for
/// each player from its first round to its last, so that [`law_first_home_wins`] holds of each of
/// them.
pub proof fn law_plain_game_has_single_goals<'a, B: Board, A: ?Sized>(
    start: StateModel<B, Player<'a, A>>,
    setups: Seq<Call<'a, B, A>>,
    observers: nat,
    tables: Seq<Table<'a, B, A>>,
    rounds: Seq<Seq<Call<'a, B, A>>>,
    over: bool,
    i: int,
)
    requires
        initial_goals(false, start, tables[0].remaining),
        start_broadcast(start, Seq::empty(), tables[0].state, tables[0].kicked, setups),
        rounds_through(tables, observers, rounds, over),
        0 <= i < tables.len(),
        forall|j: int| 0 <= j < start.players.len() ==> on_single_goal(#[trigger] start.players[j]),
    ensures
        single_goals(tables[i]),
    decreases i,
{
    if i == 0 {
        let accepted = lemma_who_accepted(
            start,
            Seq::empty(),
            tables[0].state,
            tables[0].kicked,
            setups,
        );
        lemma_answered_single(start.players, accepted);
    } else {
        law_plain_game_has_single_goals(start, setups, observers, tables, rounds, over, i - 1);
        assert(linked(tables, observers, rounds, over, i - 1));
        let ended = over && i - 1 == tables.len() - 2;
        let (replies, turns) = lemma_turns_of_round(
            tables[i - 1],
            observers,
            rounds[i - 1],
            tables[i],
            ended,
        );
        law_first_home_wins(tables[i - 1], observers, replies, turns, tables[i], ended);
    }
}

proof fn lemma_no_distance<'a, A: ?Sized>(player: Player<'a, A>)
    ensures
        distance_left(player) == 0 <==> player.info.position == player.info.goal,
{
    let across = gap(player.info.position.0, player.info.goal.0);
    let down = gap(player.info.position.1, player.info.goal.1);
    assert(across * across + down * down == 0 <==> across == 0 && down == 0) by (nonlinear_arith)
        requires
            across >= 0,
            down >= 0,
    ;
}

proof fn lemma_answered_among<'a, A: ?Sized>(
    players: Seq<Player<'a, A>>,
    answers: Seq<bool>,
    answer: bool,
)
    requires
        answers.len() == players.len(),
    ensures
        forall|i: int|
            0 <= i < answered(players, answers, answer).len() ==> players.contains(
                #[trigger] answered(players, answers, answer)[i],
            ),
    decreases players.len(),
{
    if players.len() > 0 {
        let before = players.drop_last();
        lemma_answered_among(before, answers.drop_last(), answer);
        let fewer = answered(before, answers.drop_last(), answer);
        let all = answered(players, answers, answer);
        assert forall|i: int| 0 <= i < all.len() implies players.contains(#[trigger] all[i]) by {
            if i < fewer.len() {
                assert(before.contains(fewer[i]));
                assert(players[before.index_of(fewer[i])] == all[i]);
            } else {
                assert(players[players.len() - 1] == all[i]);
            }
        }
    }
}

proof fn lemma_those_home_are_best<'a, A: ?Sized>(players: Seq<Player<'a, A>>, home: int)
    requires
        forall|i: int| 0 <= i < players.len() ==> on_single_goal(#[trigger] players[i]),
        0 <= home < players.len(),
        came_home(players[home]),
    ensures
        forall|i: int|
            0 <= i < winners_of(players).len() ==> came_home(#[trigger] winners_of(players)[i]),
{
    let winners = winners_of(players);
    law_winners_are_best(players);
    lemma_no_distance(players[home]);
    assert forall|i: int| 0 <= i < winners.len() implies came_home(#[trigger] winners[i]) by {
        let near = contenders(players);
        near.lemma_filter_contains_rev(is_near(least_distance(near)), winners[i]);
        players.lemma_filter_contains_rev(reached(most_goals(players)), winners[i]);
        let k = players.index_of(winners[i]);
        assert(on_single_goal(players[k]));
        assert(players[home].info.goals_reached <= winners[i].info.goals_reached);
        lemma_no_distance(winners[i]);
    }
}

/// In a game under the plain rules whose players have goals away from home, nobody wins beside
/// those who have come home, if there are any.
pub proof fn law_those_home_win<'a, B: Board, A: ?Sized>(
    start: StateModel<B, Player<'a, A>>,
    observers: nat,
    end: StateModel<B, Player<'a, A>>,
    winners: Seq<Player<'a, A>>,
    kicked: Seq<Player<'a, A>>,
    calls: Seq<Call<'a, B, A>>,
    home: int,
)
    requires
        game_played(false, start, observers, end, winners, kicked, calls),
        forall|j: int| 0 <= j < start.players.len() ==> on_single_goal(#[trigger] start.players[j]),
        0 <= home < end.players.len(),
        came_home(end.players[home]),
    ensures
        winners_of(end.players).contains(end.players[home]),
        forall|i: int| 0 <= i < winners.len() ==> came_home(#[trigger] winners[i]),
{
    let (opened, closed, story) = lemma_story_of_game(
        false,
        start,
        observers,
        end,
        winners,
        kicked,
        calls,
    );
    let (tables, rounds, over) = lemma_tables_of_rounds(opened, observers, story.rounds, closed);
    law_plain_game_has_single_goals(
        start,
        story.setups,
        observers,
        tables,
        rounds,
        over,
        tables.len() - 1,
    );
    assert forall|j: int| 0 <= j < end.players.len() implies (
    #[trigger] end.players[j]).info.goals_reached <= end.players[home].info.goals_reached by {
        assert(on_single_goal(end.players[j]));
    }
    law_on_goal_wins(end.players, home);
    lemma_those_home_are_best(end.players, home);
    let best = winners_of(end.players);
    let (winning, losing) = lemma_who_took_it_well(
        best,
        losers_of(end.players),
        closed.kicked,
        winners,
        kicked,
        story.outcome,
    );
    lemma_answered_among(best, winning, true);
    assert forall|i: int| 0 <= i < winners.len() implies came_home(#[trigger] winners[i]) by {
        assert(best.contains(winners[i]));
        assert(came_home(best[best.index_of(winners[i])]));
    }
}

} // verus!
