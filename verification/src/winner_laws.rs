//! Distances and winners, in plain numbers.
use crate::grid::{gap, squared_distance, squared_euclidian_distance, Distance, Position};
use crate::history::Call;
use crate::laws::law_winners_are_best;
use crate::player::{FullPlayerInfo, Player};
use crate::referee::Referee;
use crate::state::State;
use crate::winners::{
    answered, contenders, distance_left, fell_short, is_far, is_near, least_distance,
    lemma_who_took_it_well, losers_of, most_goals, outcome_broadcast, reached, winners_of,
};
use vstd::prelude::*;

verus! {

proof fn lemma_square(x: int, y: int)
    requires
        x == y || x == -y,
    ensures
        x * x == y * y,
{
    assert(x * x == y * y) by (nonlinear_arith)
        requires
            x == y || x == -y,
    ;
}

/// The squared distance between two tiles is the sum of the squares of the differences of their
/// coordinates.
pub proof fn law_squared_distance(a: Position, b: Position)
    ensures
        squared_distance(a, b) as int == (a.0 - b.0) * (a.0 - b.0) + (a.1 - b.1) * (a.1 - b.1),
{
    lemma_square(gap(a.0, b.0) as int, a.0 - b.0);
    lemma_square(gap(a.1, b.1) as int, a.1 - b.1);
}

/// What is computed as the distance of two tiles stands for the sum of the squares of the
/// differences of their coordinates, in which the carry counts for 2^128.
pub proof fn law_computed_distance(a: Position, b: Position, distance: Distance)
    requires
        call_ensures(squared_euclidian_distance, (&a, &b), distance),
    ensures
        distance.low + (if distance.carry {
            0x1_0000_0000_0000_0000_0000_0000_0000_0000int
        } else {
            0
        }) == (a.0 - b.0) * (a.0 - b.0) + (a.1 - b.1) * (a.1 - b.1),
{
    law_squared_distance(a, b);
}

/// A distance does not depend on which of the two tiles is named first, nor on which of the two
/// coordinates is, and it stays when both tiles are moved alike.
pub proof fn law_distance_is_even_handed(a: Position, b: Position, c: Position, d: Position)
    requires
        c.0 - a.0 == d.0 - b.0,
        c.1 - a.1 == d.1 - b.1,
    ensures
        squared_distance(a, b) == squared_distance(b, a),
        squared_distance(a, b) == squared_distance((a.1, a.0), (b.1, b.0)),
        squared_distance(a, b) == squared_distance(c, d),
{
    law_squared_distance(a, b);
    law_squared_distance(b, a);
    law_squared_distance((a.1, a.0), (b.1, b.0));
    law_squared_distance(c, d);
    lemma_square(a.0 - b.0, b.0 - a.0);
    lemma_square(a.1 - b.1, b.1 - a.1);
    lemma_square(a.0 - b.0, c.0 - d.0);
    lemma_square(a.1 - b.1, c.1 - d.1);
}

/// Along a row or a column, the squared distance over `n` tiles is `n * n`.
pub proof fn law_distance_along_an_axis(a: Position, n: usize)
    requires
        a.0 + n <= usize::MAX,
        a.1 + n <= usize::MAX,
    ensures
        squared_distance(a, ((a.0 + n) as usize, a.1)) == n * n,
        squared_distance(a, (a.0, (a.1 + n) as usize)) == n * n,
{
    let c: Position = ((a.0 + n) as usize, a.1);
    let d: Position = (a.0, (a.1 + n) as usize);
    law_squared_distance(a, c);
    law_squared_distance(a, d);
    lemma_axis(a.0 - c.0, a.1 - c.1, n as int);
    lemma_axis(a.1 - d.1, a.0 - d.0, n as int);
}

proof fn lemma_axis(x: int, y: int, n: int)
    requires
        x == -n,
        y == 0,
    ensures
        x * x + y * y == n * n,
        y * y + x * x == n * n,
{
    assert(x * x + y * y == n * n && y * y + x * x == n * n) by (nonlinear_arith)
        requires
            x == -n,
            y == 0,
    ;
}

/// One of two distances is called less exactly when the number it stands for is, and the same
/// exactly when the numbers are equal.
pub proof fn law_distances_compare(one: Distance, other: Distance, less: bool, same: bool)
    requires
        call_ensures(Distance::is_less, (&one, &other), less),
        call_ensures(Distance::is_same, (&one, &other), same),
    ensures
        less == (!one.carry && other.carry || one.carry == other.carry && one.low < other.low),
        same == (one == other),
{
}

/// The square of the way that a player still has to go.
pub open spec fn way_left(info: FullPlayerInfo) -> int {
    (info.position.0 - info.goal.0) * (info.position.0 - info.goal.0) + (info.position.1
        - info.goal.1) * (info.position.1 - info.goal.1)
}

/// `one` is ahead of `other`: more goals reached, or as many and a shorter way to go.
pub open spec fn is_ahead(one: FullPlayerInfo, other: FullPlayerInfo) -> bool {
    ||| one.goals_reached > other.goals_reached
    ||| one.goals_reached == other.goals_reached && way_left(one) < way_left(other)
}

/// Whether nobody among `players` is ahead of a player.
pub open spec fn unbeaten<'a, A: ?Sized>(players: Seq<Player<'a, A>>) -> spec_fn(
    Player<'a, A>,
) -> bool {
    |player: Player<'a, A>|
        forall|k: int|
            0 <= k < players.len() ==> !is_ahead((#[trigger] players[k]).info, player.info)
}

/// Whether somebody among `players` has reached more goals than a player.
pub open spec fn outscored<'a, A: ?Sized>(players: Seq<Player<'a, A>>) -> spec_fn(
    Player<'a, A>,
) -> bool {
    |player: Player<'a, A>|
        exists|k: int|
            0 <= k < players.len() && (#[trigger] players[k]).info.goals_reached
                > player.info.goals_reached
}

/// Whether nobody among `players` has reached more goals than a player, but somebody is ahead.
pub open spec fn outrun<'a, A: ?Sized>(players: Seq<Player<'a, A>>) -> spec_fn(
    Player<'a, A>,
) -> bool {
    |player: Player<'a, A>| !outscored(players)(player) && !unbeaten(players)(player)
}

proof fn lemma_filter_twice<T>(
    items: Seq<T>,
    first: spec_fn(T) -> bool,
    second: spec_fn(T) -> bool,
    both: spec_fn(T) -> bool,
)
    requires
        forall|i: int|
            0 <= i < items.len() ==> both(#[trigger] items[i]) == (first(items[i]) && second(
                items[i],
            )),
    ensures
        items.filter(first).filter(second) == items.filter(both),
    decreases items.len(),
{
    reveal(Seq::filter);
    if items.len() > 0 {
        let fewer = items.drop_last();
        assert forall|i: int| 0 <= i < fewer.len() implies both(#[trigger] fewer[i]) == (first(
            fewer[i],
        ) && second(fewer[i])) by {
            assert(fewer[i] == items[i]);
        }
        lemma_filter_twice(fewer, first, second, both);
        let last = items[items.len() - 1];
        assert(both(last) == (first(last) && second(last)));
        let kept = fewer.filter(first);
        assert(kept.push(last).drop_last() =~= kept);
    }
}

proof fn lemma_filter_same<T>(
    items: Seq<T>,
    one: spec_fn(T) -> bool,
    other: spec_fn(T) -> bool,
)
    requires
        forall|i: int| 0 <= i < items.len() ==> one(#[trigger] items[i]) == other(items[i]),
    ensures
        items.filter(one) == items.filter(other),
    decreases items.len(),
{
    reveal(Seq::filter);
    if items.len() > 0 {
        let fewer = items.drop_last();
        assert forall|i: int| 0 <= i < fewer.len() implies one(#[trigger] fewer[i]) == other(
            fewer[i],
        ) by {
            assert(fewer[i] == items[i]);
        }
        lemma_filter_same(fewer, one, other);
        assert(one(items[items.len() - 1]) == other(items[items.len() - 1]));
    }
}

proof fn lemma_way_left<'a, A: ?Sized>(player: Player<'a, A>)
    ensures
        distance_left(player) as int == way_left(player.info),
{
    law_squared_distance(player.info.position, player.info.goal);
}

proof fn lemma_goals_reached_most<'a, A: ?Sized>(players: Seq<Player<'a, A>>)
    ensures
        forall|i: int|
            0 <= i < players.len() ==> (#[trigger] players[i]).info.goals_reached <= most_goals(
                players,
            ),
        players.len() > 0 ==> exists|i: int|
            0 <= i < players.len() && (#[trigger] players[i]).info.goals_reached == most_goals(
                players,
            ),
    decreases players.len(),
{
    if players.len() > 0 {
        let fewer = players.drop_last();
        lemma_goals_reached_most(fewer);
        assert forall|i: int| 0 <= i < players.len() implies (
        #[trigger] players[i]).info.goals_reached <= most_goals(players) by {
            if i < fewer.len() {
                assert(fewer[i] == players[i]);
            }
        }
        if players.last().info.goals_reached as nat > most_goals(fewer) || fewer.len() == 0 {
            assert(players[players.len() - 1].info.goals_reached == most_goals(players));
        } else {
            let i = choose|i: int|
                0 <= i < fewer.len() && (#[trigger] fewer[i]).info.goals_reached == most_goals(
                    fewer,
                );
            assert(players[i] == fewer[i]);
        }
    }
}

/// What is called a winner is unbeaten, and the other way round.
proof fn lemma_near_is_unbeaten<'a, A: ?Sized>(players: Seq<Player<'a, A>>, i: int)
    requires
        0 <= i < players.len(),
    ensures
        unbeaten(players)(players[i]) == (reached(most_goals(players))(players[i]) && is_near(
            least_distance(contenders(players)),
        )(players[i])),
        outscored(players)(players[i]) == fell_short(most_goals(players))(players[i]),
{
    let player = players[i];
    let goals = most_goals(players);
    let near = contenders(players);
    let least = least_distance(near);
    lemma_goals_reached_most(players);
    law_winners_are_best(players);
    let most = choose|k: int|
        0 <= k < players.len() && (#[trigger] players[k]).info.goals_reached == goals;
    assert(players[most].info.goals_reached == goals);
    lemma_way_left(player);
    if reached(goals)(player) && is_near(least)(player) {
        players.lemma_filter_contains(reached(goals), i);
        let at = near.index_of(player);
        assert(near[at] == player);
        near.lemma_filter_contains(is_near(least), at);
        let w = winners_of(players).index_of(player);
        assert(winners_of(players)[w] == player);
        assert forall|k: int| 0 <= k < players.len() implies !is_ahead(
            (#[trigger] players[k]).info,
            player.info,
        ) by {
            lemma_way_left(players[k]);
        }
        assert(unbeaten(players)(player));
    }
    if unbeaten(players)(player) {
        assert forall|k: int| 0 <= k < players.len() implies {
            ||| (#[trigger] players[k]).info.goals_reached < player.info.goals_reached
            ||| players[k].info.goals_reached == player.info.goals_reached && distance_left(player)
                <= distance_left(players[k])
        } by {
            lemma_way_left(players[k]);
            assert(!is_ahead(players[k].info, player.info));
        }
        assert(winners_of(players).contains(players[i]));
        let w = winners_of(players).index_of(player);
        near.lemma_filter_pred(is_near(least), w);
        assert(!is_ahead(players[most].info, player.info));
    }
}

/// The winners are exactly those whom nobody is ahead of, in their order. The losers are all
/// others: first those whom somebody has outscored, then those who have only a longer way to go,
/// each in their order.
pub proof fn law_winners_and_losers<'a, B, A: ?Sized>(
    state: State<B, Player<'a, A>>,
    outcome: (Vec<Player<'a, A>>, Vec<Player<'a, A>>),
)
    requires
        call_ensures(Referee::<'a, B, A>::calculate_winners, (&state,), outcome),
    ensures
        outcome.0@ == state.player_info@.filter(unbeaten(state.player_info@)),
        outcome.1@ == state.player_info@.filter(outscored(state.player_info@))
            + state.player_info@.filter(outrun(state.player_info@)),
{
    law_winners_are_unbeaten(state.player_info@);
}

/// What [`law_winners_and_losers`] says, of any players.
pub proof fn law_winners_are_unbeaten<'a, A: ?Sized>(players: Seq<Player<'a, A>>)
    ensures
        winners_of(players) == players.filter(unbeaten(players)),
        losers_of(players) == players.filter(outscored(players)) + players.filter(outrun(players)),
{
    let goals = most_goals(players);
    let least = least_distance(contenders(players));
    assert forall|i: int| 0 <= i < players.len() implies unbeaten(players)(#[trigger] players[i])
        == (reached(goals)(players[i]) && is_near(least)(players[i])) by {
        lemma_near_is_unbeaten(players, i);
    }
    lemma_filter_twice(players, reached(goals), is_near(least), unbeaten(players));
    assert forall|i: int| 0 <= i < players.len() implies outscored(players)(#[trigger] players[i])
        == fell_short(goals)(players[i]) by {
        lemma_near_is_unbeaten(players, i);
    }
    lemma_filter_same(players, outscored(players), fell_short(goals));
    assert forall|i: int| 0 <= i < players.len() implies outrun(players)(#[trigger] players[i]) == (
    reached(goals)(players[i]) && is_far(least)(players[i])) by {
        lemma_near_is_unbeaten(players, i);
    }
    lemma_filter_twice(players, reached(goals), is_far(least), outrun(players));
}

/// Whether the one who got a call answered it as they should.
pub open spec fn went_well<'a, B, A: ?Sized>(call: Call<'a, B, A>) -> bool {
    match call {
        Call::Setup { accepted, .. } => accepted,
        Call::Won { accepted, .. } => accepted,
        Call::ProposeBoard { proposal, .. } => proposal is Some,
        Call::TakeTurn { answer, .. } => answer is Some,
        _ => true,
    }
}

/// The players whose call at the same place of `calls` went well, or did not.
pub open spec fn with_answer<'a, B, A: ?Sized>(
    players: Seq<Player<'a, A>>,
    calls: Seq<Call<'a, B, A>>,
    well: bool,
) -> Seq<Player<'a, A>> {
    players.zip_with(calls).filter(
        |pair: (Player<'a, A>, Call<'a, B, A>)| went_well(pair.1) == well,
    ).map_values(|pair: (Player<'a, A>, Call<'a, B, A>)| pair.0)
}

/// Sorting out by answers is sorting out by how the calls went.
pub proof fn lemma_with_answer<'a, B, A: ?Sized>(
    players: Seq<Player<'a, A>>,
    answers: Seq<bool>,
    calls: Seq<Call<'a, B, A>>,
    well: bool,
)
    requires
        answers.len() == players.len(),
        calls.len() == players.len(),
        forall|i: int| 0 <= i < calls.len() ==> went_well(#[trigger] calls[i]) == answers[i],
    ensures
        answered(players, answers, well) == with_answer(players, calls, well),
    decreases players.len(),
{
    reveal(Seq::filter);
    let keep = |pair: (Player<'a, A>, Call<'a, B, A>)| went_well(pair.1) == well;
    let first = |pair: (Player<'a, A>, Call<'a, B, A>)| pair.0;
    let pairs = players.zip_with(calls);
    if players.len() > 0 {
        let fewer = players.drop_last();
        assert forall|i: int| 0 <= i < calls.drop_last().len() implies went_well(
            #[trigger] calls.drop_last()[i],
        ) == answers.drop_last()[i] by {
            assert(calls.drop_last()[i] == calls[i]);
        }
        lemma_with_answer(fewer, answers.drop_last(), calls.drop_last(), well);
        assert(pairs.drop_last() =~= fewer.zip_with(calls.drop_last()));
        assert(went_well(calls[calls.len() - 1]) == answers[calls.len() - 1]);
        let kept = pairs.drop_last().filter(keep);
        assert(kept.push(pairs.last()).map_values(first) =~= kept.map_values(first).push(
            players.last(),
        ));
    } else {
        assert(pairs =~= Seq::empty());
        assert(pairs.filter(keep).map_values(first) =~= Seq::empty());
        assert(answered(players, answers, well) =~= Seq::empty());
    }
}

/// Of players and as many answers, those come out who stand at the places of the given answer, in
/// their order.
pub proof fn law_sorted_out_by_answer<'a, A: ?Sized>(
    players: Seq<Player<'a, A>>,
    answers: Seq<bool>,
    answer: bool,
)
    requires
        answers.len() == players.len(),
    ensures
        answered(players, answers, answer) == players.zip_with(answers).filter(
            |pair: (Player<'a, A>, bool)| pair.1 == answer,
        ).map_values(|pair: (Player<'a, A>, bool)| pair.0),
    decreases players.len(),
{
    reveal(Seq::filter);
    let keep = |pair: (Player<'a, A>, bool)| pair.1 == answer;
    let first = |pair: (Player<'a, A>, bool)| pair.0;
    let pairs = players.zip_with(answers);
    if players.len() > 0 {
        law_sorted_out_by_answer(players.drop_last(), answers.drop_last(), answer);
        assert(pairs.drop_last() =~= players.drop_last().zip_with(answers.drop_last()));
        let kept = pairs.drop_last().filter(keep);
        assert(kept.push(pairs.last()).map_values(first) =~= kept.map_values(first).push(
            players.last(),
        ));
    } else {
        assert(pairs =~= Seq::empty());
        assert(pairs.filter(keep).map_values(first) =~= Seq::empty());
        assert(answered(players, answers, answer) =~= Seq::empty());
    }
}

/// At the end of a game one call goes to each winner, which says that they won, and then one to
/// each loser, which says that they lost. Those winners stay whose call went well, in their order.
/// Those whose call did not are thrown out: first winners, then losers, the last of each first.
pub proof fn law_outcome<'a, B, A: ?Sized>(
    winners: Seq<Player<'a, A>>,
    losers: Seq<Player<'a, A>>,
    kicked: Seq<Player<'a, A>>,
    final_winners: Seq<Player<'a, A>>,
    final_kicked: Seq<Player<'a, A>>,
    calls: Seq<Call<'a, B, A>>,
)
    requires
        outcome_broadcast(winners, losers, kicked, final_winners, final_kicked, calls),
    ensures
        calls.len() == winners.len() + losers.len(),
        forall|i: int|
            0 <= i < winners.len() ==> (#[trigger] calls[i] matches Call::Won {
                player,
                did_win,
                ..
            } && player == winners[i].api && did_win),
        forall|i: int|
            winners.len() <= i < calls.len() ==> (#[trigger] calls[i] matches Call::Won {
                player,
                did_win,
                ..
            } && player == losers[i - winners.len()].api && !did_win),
        final_winners == with_answer(winners, calls.take(winners.len() as int), true),
        final_kicked == kicked + with_answer(
            winners,
            calls.take(winners.len() as int),
            false,
        ).reverse() + with_answer(losers, calls.skip(winners.len() as int), false).reverse(),
{
    let (winning, losing) = lemma_who_took_it_well(
        winners,
        losers,
        kicked,
        final_winners,
        final_kicked,
        calls,
    );
    let count = winners.len() as int;
    lemma_with_answer(winners, winning, calls.take(count), true);
    lemma_with_answer(winners, winning, calls.take(count), false);
    lemma_with_answer(losers, losing, calls.skip(count), false);
}

} // verus!
