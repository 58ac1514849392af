//! Who has won, and how the players hear of it.
use crate::grid::{squared_distance, squared_euclidian_distance, Distance};
use crate::history::{lemma_since, since, spoke, Call, History};
use crate::player::{Player, PlayerApi};
use crate::referee::Referee;
use crate::state::State;
use vstd::prelude::*;

verus! {

/// The largest number of goals that one of the players has reached.
pub open spec fn most_goals<'a, A: ?Sized>(players: Seq<Player<'a, A>>) -> nat
    decreases players.len(),
{
    if players.len() == 0 {
        0
    } else {
        let rest = most_goals(players.drop_last());
        let last = players.last().info.goals_reached as nat;
        if last > rest {
            last
        } else {
            rest
        }
    }
}

/// How far a player still has to go.
pub open spec fn distance_left<'a, A: ?Sized>(player: Player<'a, A>) -> nat {
    squared_distance(player.info.position, player.info.goal)
}

/// The shortest way that one of the players still has to go.
pub open spec fn least_distance<'a, A: ?Sized>(players: Seq<Player<'a, A>>) -> nat
    decreases players.len(),
{
    if players.len() <= 1 {
        distance_left(players[0])
    } else {
        let rest = least_distance(players.drop_last());
        let last = distance_left(players.last());
        if last < rest {
            last
        } else {
            rest
        }
    }
}

/// Whether a player has reached as many goals as `goals`.
pub open spec fn reached<'a, A: ?Sized>(goals: nat) -> spec_fn(Player<'a, A>) -> bool {
    |player: Player<'a, A>| player.info.goals_reached == goals
}

/// Whether a player has reached another number of goals than `goals`.
pub open spec fn fell_short<'a, A: ?Sized>(goals: nat) -> spec_fn(Player<'a, A>) -> bool {
    |player: Player<'a, A>| player.info.goals_reached != goals
}

/// Whether a player is as far from their goal as `distance`.
pub open spec fn is_near<'a, A: ?Sized>(distance: nat) -> spec_fn(Player<'a, A>) -> bool {
    |player: Player<'a, A>| distance_left(player) == distance
}

/// Whether a player is not as far from their goal as `distance`.
pub open spec fn is_far<'a, A: ?Sized>(distance: nat) -> spec_fn(Player<'a, A>) -> bool {
    |player: Player<'a, A>| distance_left(player) != distance
}

/// The players who have reached the most goals.
pub open spec fn contenders<'a, A: ?Sized>(players: Seq<Player<'a, A>>) -> Seq<Player<'a, A>> {
    players.filter(reached(most_goals(players)))
}

/// Of those who have reached the most goals, the ones who are nearest to their next.
pub open spec fn winners_of<'a, A: ?Sized>(players: Seq<Player<'a, A>>) -> Seq<Player<'a, A>> {
    contenders(players).filter(is_near(least_distance(contenders(players))))
}

/// All others: first those who have reached fewer goals, then those who are farther away.
pub open spec fn losers_of<'a, A: ?Sized>(players: Seq<Player<'a, A>>) -> Seq<Player<'a, A>> {
    players.filter(fell_short(most_goals(players))) + contenders(players).filter(
        is_far(least_distance(contenders(players))),
    )
}

/// Filtering one more element.
pub proof fn lemma_filter_step<T>(items: Seq<T>, i: int, keep: spec_fn(T) -> bool)
    requires
        0 <= i < items.len(),
    ensures
        items.take(i + 1).filter(keep) == if keep(items[i]) {
            items.take(i).filter(keep).push(items[i])
        } else {
            items.take(i).filter(keep)
        },
{
    reveal(Seq::filter);
    assert(items.take(i + 1).drop_last() =~= items.take(i));
}

/// The players out of `players` for whom `answers` holds `answer`.
pub open spec fn answered<'a, A: ?Sized>(
    players: Seq<Player<'a, A>>,
    answers: Seq<bool>,
    answer: bool,
) -> Seq<Player<'a, A>>
    decreases players.len(),
{
    if players.len() == 0 {
        players
    } else {
        let rest = answered(players.drop_last(), answers.drop_last(), answer);
        if answers.last() == answer {
            rest.push(players.last())
        } else {
            rest
        }
    }
}

/// One more answer.
pub proof fn lemma_answered_push<'a, A: ?Sized>(
    players: Seq<Player<'a, A>>,
    answers: Seq<bool>,
    next: bool,
    answer: bool,
)
    requires
        answers.len() < players.len(),
    ensures
        answered(players.take((answers.len() + 1) as int), answers.push(next), answer) == if next
            == answer {
            answered(players.take(answers.len() as int), answers, answer).push(
                players[answers.len() as int],
            )
        } else {
            answered(players.take(answers.len() as int), answers, answer)
        },
{
    let count = answers.len() as int;
    assert(players.take(count + 1).drop_last() =~= players.take(count));
    assert(answers.push(next).drop_last() =~= answers);
}

/// All of `players` are told, one after the other, whether they won; `accepted` says of whom that
/// goes well.
pub open spec fn outcome_calls<'a, B, A: ?Sized>(
    players: Seq<Player<'a, A>>,
    did_win: bool,
    accepted: Seq<bool>,
) -> Seq<Call<'a, B, A>> {
    Seq::new(
        players.len(),
        |i: int| Call::Won { player: players[i].api, did_win, accepted: accepted[i] },
    )
}

/// Each of the winners was told so, and then each of the losers, and that is all that `calls` hold.
/// Who did not take it well was thrown out, the last one first.
pub open spec fn outcome_broadcast<'a, B, A: ?Sized>(
    winners: Seq<Player<'a, A>>,
    losers: Seq<Player<'a, A>>,
    kicked: Seq<Player<'a, A>>,
    final_winners: Seq<Player<'a, A>>,
    final_kicked: Seq<Player<'a, A>>,
    calls: Seq<Call<'a, B, A>>,
) -> bool {
    exists|winning: Seq<bool>, losing: Seq<bool>| #[trigger]
        outcome_of(
            winners,
            losers,
            kicked,
            final_winners,
            final_kicked,
            calls,
            winning,
            losing,
        )
}

/// What [`outcome_broadcast`] says where `winning` and `losing` say who took it well.
pub open spec fn outcome_of<'a, B, A: ?Sized>(
    winners: Seq<Player<'a, A>>,
    losers: Seq<Player<'a, A>>,
    kicked: Seq<Player<'a, A>>,
    final_winners: Seq<Player<'a, A>>,
    final_kicked: Seq<Player<'a, A>>,
    calls: Seq<Call<'a, B, A>>,
    winning: Seq<bool>,
    losing: Seq<bool>,
) -> bool {
    &&& winning.len() == winners.len()
    &&& losing.len() == losers.len()
    &&& calls == outcome_calls::<B, A>(winners, true, winning) + outcome_calls::<B, A>(
        losers,
        false,
        losing,
    )
    &&& final_winners == answered(winners, winning, true)
    &&& final_kicked == kicked + answered(winners, winning, false).reverse() + answered(
        losers,
        losing,
        false,
    ).reverse()
}

/// Who of the winners and who of the losers took it well.
pub proof fn lemma_who_took_it_well<'a, B, A: ?Sized>(
    winners: Seq<Player<'a, A>>,
    losers: Seq<Player<'a, A>>,
    kicked: Seq<Player<'a, A>>,
    final_winners: Seq<Player<'a, A>>,
    final_kicked: Seq<Player<'a, A>>,
    calls: Seq<Call<'a, B, A>>,
) -> (accepted: (Seq<bool>, Seq<bool>))
    requires
        outcome_broadcast(winners, losers, kicked, final_winners, final_kicked, calls),
    ensures
        outcome_of(
            winners,
            losers,
            kicked,
            final_winners,
            final_kicked,
            calls,
            accepted.0,
            accepted.1,
        ),
{
    choose|winning: Seq<bool>, losing: Seq<bool>| #[trigger]
        outcome_of(
            winners,
            losers,
            kicked,
            final_winners,
            final_kicked,
            calls,
            winning,
            losing,
        )
}

/// Sorts out the players for whom `accepted` does not hold; `kicked` gets them, the last one first.
pub fn dismiss<'a, A: ?Sized>(
    players: &mut Vec<Player<'a, A>>,
    accepted: &Vec<bool>,
    kicked: &mut Vec<Player<'a, A>>,
)
    requires
        accepted@.len() == old(players)@.len(),
    ensures
        final(players)@ == answered(old(players)@, accepted@, true),
        final(kicked)@ == old(kicked)@ + answered(old(players)@, accepted@, false).reverse(),
{
    let ghost start = players@;
    let count: usize = players.len();
    let mut kept: Vec<Player<'a, A>> = Vec::new();
    let mut dropped: Vec<Player<'a, A>> = Vec::new();
    for i in 0..count
        invariant
            players@ == start,
            count == start.len(),
            count == accepted@.len(),
            kept@ == answered(start.take(i as int), accepted@.take(i as int), true),
            dropped@ == answered(start.take(i as int), accepted@.take(i as int), false),
    {
        proof {
            let answers = accepted@.take(i as int);
            lemma_answered_push(start, answers, accepted@[i as int], true);
            lemma_answered_push(start, answers, accepted@[i as int], false);
            assert(accepted@.take(i + 1) =~= answers.push(accepted@[i as int]));
        }
        if accepted[i] {
            kept.push(players[i]);
        } else {
            dropped.push(players[i]);
        }
    }
    assert(start.take(count as int) =~= start);
    assert(accepted@.take(count as int) =~= accepted@);
    let ghost before = kicked@;
    let mut left: usize = dropped.len();
    while left > 0
        invariant
            left <= dropped@.len(),
            kicked@ =~= before + dropped@.reverse().take(dropped@.len() - left),
        decreases left,
    {
        left = left - 1;
        kicked.push(dropped[left]);
    }
    *players = kept;
}

/// Tells all players whether they won, and returns of whom that went well.
pub fn tell_outcome<'a, B, A: PlayerApi<B> + ?Sized>(
    players: &Vec<Player<'a, A>>,
    did_win: bool,
    history: &mut History<'a, B, A>,
) -> (accepted: Vec<bool>)
    ensures
        spoke(old(history)@, final(history)@),
        accepted@.len() == players@.len(),
        since(old(history)@, final(history)@) == outcome_calls::<B, A>(
            players@,
            did_win,
            accepted@,
        ),
{
    let mut accepted: Vec<bool> = Vec::new();
    let count: usize = players.len();
    assert(history@.take(history@.len() as int) =~= history@);
    for i in 0..count
        invariant
            count == players@.len(),
            accepted@.len() == i,
            spoke(old(history)@, history@),
            since(old(history)@, history@) =~= outcome_calls::<B, A>(
                players@.take(i as int),
                did_win,
                accepted@,
            ),
    {
        let ghost said = history@;
        let ok = history.won(players[i].api, did_win);
        accepted.push(ok);
        proof {
            assert(history@.take(old(history)@.len() as int) =~= said.take(
                old(history)@.len() as int,
            ));
            assert(since(old(history)@, history@) =~= since(old(history)@, said).push(
                history@.last(),
            ));
        }
    }
    assert(players@.take(count as int) =~= players@);
    accepted
}

impl<'a, B, A: ?Sized> Referee<'a, B, A> {
    /// Returns the players who won the game, and all others.
    pub fn calculate_winners(state: &State<B, Player<'a, A>>) -> (outcome: (
        Vec<Player<'a, A>>,
        Vec<Player<'a, A>>,
    ))
        ensures
            outcome.0@ == winners_of(state@.players),
            outcome.1@ == losers_of(state@.players),
    {
        let ghost players = state@.players;
        let count: usize = state.player_info.len();
        let mut max_goals: usize = 0;
        for i in 0..count
            invariant
                count == state.player_info@.len(),
                players == state@.players,
                max_goals == most_goals(players.take(i as int)),
        {
            assert(players.take(i + 1).drop_last() =~= players.take(i as int));
            if state.player_info[i].info.goals_reached > max_goals {
                max_goals = state.player_info[i].info.goals_reached;
            }
        }
        assert(players.take(count as int) =~= players);

        let mut losers: Vec<Player<'a, A>> = Vec::new();
        let mut players_to_check: Vec<Player<'a, A>> = Vec::new();
        proof {
            reveal(Seq::filter);
        }
        for i in 0..count
            invariant
                count == state.player_info@.len(),
                players == state@.players,
                players_to_check@ == players.take(i as int).filter(reached(max_goals as nat)),
                losers@ == players.take(i as int).filter(fell_short(max_goals as nat)),
        {
            proof {
                lemma_filter_step(players, i as int, reached(max_goals as nat));
                lemma_filter_step(players, i as int, fell_short(max_goals as nat));
            }
            let player = state.player_info[i];
            if player.info.goals_reached == max_goals {
                players_to_check.push(player);
            } else {
                losers.push(player);
            }
        }
        let ghost near = contenders(players);
        assert(players_to_check@ == near);

        let contender_count: usize = players_to_check.len();
        let mut min_dist = Distance { carry: true, low: u128::MAX };
        for i in 0..contender_count
            invariant
                contender_count == players_to_check@.len(),
                near == players_to_check@,
                i > 0 ==> min_dist@ == least_distance(near.take(i as int)),
        {
            proof {
                assert(near.take(i + 1).drop_last() =~= near.take(i as int));
            }
            let info = players_to_check[i].info;
            let distance = squared_euclidian_distance(&info.position, &info.goal);
            if i == 0 || distance.is_less(&min_dist) {
                min_dist = distance;
            }
        }
        assert(near.take(contender_count as int) =~= near);

        let mut winners: Vec<Player<'a, A>> = Vec::new();
        let ghost short = losers@;
        let ghost least = least_distance(near);
        for i in 0..contender_count
            invariant
                contender_count == players_to_check@.len(),
                near == players_to_check@,
                contender_count > 0 ==> min_dist@ == least,
                winners@ == near.take(i as int).filter(is_near(least)),
                losers@ == short + near.take(i as int).filter(is_far(least)),
        {
            proof {
                lemma_filter_step(near, i as int, is_near(least));
                lemma_filter_step(near, i as int, is_far(least));
            }
            let player = players_to_check[i];
            let distance = squared_euclidian_distance(&player.info.position, &player.info.goal);
            if min_dist.is_same(&distance) {
                winners.push(player);
            } else {
                losers.push(player);
            }
        }
        (winners, losers)
    }

    /// Tells winners and losers how the game ended for them, and throws out whoever does not take
    /// it well.
    pub fn broadcast_winners(
        &mut self,
        winners: &mut Vec<Player<'a, A>>,
        losers: Vec<Player<'a, A>>,
        kicked: &mut Vec<Player<'a, A>>,
    ) where A: PlayerApi<B>
        ensures
            final(self).config == old(self).config,
            final(self).rand == old(self).rand,
            spoke(old(self).history@, final(self).history@),
            outcome_broadcast(
                old(winners)@,
                losers@,
                old(kicked)@,
                final(winners)@,
                final(kicked)@,
                since(old(self).history@, final(self).history@),
            ),
    {
        let winning = tell_outcome(winners, true, &mut self.history);
        let ghost said = self.history@;
        dismiss(winners, &winning, kicked);
        let ghost lost = losers@;
        let mut losers = losers;
        let losing = tell_outcome(&losers, false, &mut self.history);
        dismiss(&mut losers, &losing, kicked);
        proof {
            lemma_since(old(self).history@, said, self.history@);
        }
        assert(outcome_of(
            old(winners)@,
            lost,
            old(kicked)@,
            winners@,
            kicked@,
            since(old(self).history@, self.history@),
            winning@,
            losing@,
        ));
    }
}

} // verus!
