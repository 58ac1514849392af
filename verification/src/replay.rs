//! Players who answer alike play the same game.
use crate::board::{Board, Slide};
use crate::grid::Position;
use crate::history::{joined, Call};
use crate::laws::{copies_are_faithful, law_turns_in_order, names_alike};
use crate::player::{FullPlayerInfo, Player, PlayerMove};
use crate::referee::{
    game_played, lemma_story_of_game, lemma_tables_of_rounds, linked, rounds_played, rounds_through,
};
use crate::round::{
    lemma_turns_of_round, progress, round_played, shown, shown_to_all, taken, turn_had, turn_taken,
};
use crate::seating::{
    initial_goals, introduced, is_free, lemma_who_accepted, start_broadcast, still_there,
    told_in_turn,
};
use crate::state::{is_full_state, State, StateModel};
use crate::turn::{asked, carried, carried_out, judged, settled, slid, ReplyModel, Table};
use crate::winners::{
    lemma_who_took_it_well, losers_of, outcome_broadcast, outcome_calls, winners_of,
};
use vstd::prelude::*;

verus! {

/// A board rules on a move alike whenever it is asked.
pub open spec fn rules_alike<B: Board>() -> bool {
    forall|
        one: State<B, FullPlayerInfo>,
        other: State<B, FullPlayerInfo>,
        slide: Slide,
        rotations: usize,
        destination: Position,
        valid: bool,
        other_valid: bool,
    |
        one@ == other@ && #[trigger] call_ensures(
            B::is_valid_move,
            (&one, slide, rotations, destination),
            valid,
        ) && #[trigger] call_ensures(
            B::is_valid_move,
            (&other, slide, rotations, destination),
            other_valid,
        ) ==> valid == other_valid
}

/// A move comes out alike whenever it is made on a board.
pub open spec fn slides_alike<B: Board>() -> bool {
    &&& forall|board: B, rotations: usize, one: B, other: B| #[trigger]
        call_ensures(B::rotate_spare, (&board, rotations), one) && #[trigger] call_ensures(
            B::rotate_spare,
            (&board, rotations),
            other,
        ) ==> one == other
    &&& forall|board: B, slide: Slide, one: B, other: B| #[trigger]
        call_ensures(B::slide_and_insert, (&board, slide), one) && #[trigger] call_ensures(
            B::slide_and_insert,
            (&board, slide),
            other,
        ) ==> one == other
    &&& forall|board: B, slide: Slide, from: Position, one: Position, other: Position| #[trigger]
        carried(board, slide, from, one) && #[trigger] carried(board, slide, from, other) ==> one
            == other
}

/// What a board answers depends on nothing but the board and the question.
pub open spec fn steady<B: Board>() -> bool {
    &&& copies_are_faithful::<B>()
    &&& names_alike::<B>()
    &&& rules_alike::<B>()
    &&& slides_alike::<B>()
}

/// What was asked in a call, whatever the answer.
pub open spec fn question<'a, B, A: ?Sized>(call: Call<'a, B, A>) -> Call<'a, B, A> {
    match call {
        Call::ProposeBoard { player, cols, rows, proposal } => Call::ProposeBoard {
            player,
            cols,
            rows,
            proposal: None,
        },
        Call::Setup { player, game, goal, accepted } => Call::Setup {
            player,
            game,
            goal,
            accepted: true,
        },
        Call::TakeTurn { player, state, answer } => Call::TakeTurn { player, state, answer: None },
        Call::Won { player, did_win, accepted } => Call::Won { player, did_win, accepted: true },
        Call::RecieveState { observer, shown } => call,
        Call::GameOver { observer } => call,
    }
}

/// The players answer alike: where the same was said and answered before, the same question gets
/// the same answer.
pub open spec fn alike<'a, B, A: ?Sized>(
    one: Seq<Call<'a, B, A>>,
    other: Seq<Call<'a, B, A>>,
) -> bool {
    forall|i: int|
        0 <= i < one.len() && i < other.len() && one.take(i) == other.take(i) && question(
            #[trigger] one[i],
        ) == question(#[trigger] other[i]) ==> one[i] == other[i]
}

proof fn lemma_alike_take<'a, B, A: ?Sized>(
    one: Seq<Call<'a, B, A>>,
    other: Seq<Call<'a, B, A>>,
    i: int,
    j: int,
)
    requires
        alike(one, other),
        0 <= i <= one.len(),
        0 <= j <= other.len(),
    ensures
        alike(one.take(i), other.take(j)),
{
    let a = one.take(i);
    let b = other.take(j);
    assert forall|k: int|
        0 <= k < a.len() && k < b.len() && a.take(k) == b.take(k) && question(#[trigger] a[k])
            == question(#[trigger] b[k]) implies a[k] == b[k] by {
        assert(a.take(k) =~= one.take(k));
        assert(b.take(k) =~= other.take(k));
        assert(a[k] == one[k] && b[k] == other[k]);
    }
}

proof fn lemma_alike_front<'a, B, A: ?Sized>(
    one: Seq<Call<'a, B, A>>,
    one_rest: Seq<Call<'a, B, A>>,
    other: Seq<Call<'a, B, A>>,
    other_rest: Seq<Call<'a, B, A>>,
)
    requires
        alike(one + one_rest, other + other_rest),
    ensures
        alike(one, other),
{
    lemma_alike_take(one + one_rest, other + other_rest, one.len() as int, other.len() as int);
    assert((one + one_rest).take(one.len() as int) =~= one);
    assert((other + other_rest).take(other.len() as int) =~= other);
}

proof fn lemma_alike_back<'a, B, A: ?Sized>(
    front: Seq<Call<'a, B, A>>,
    one: Seq<Call<'a, B, A>>,
    other: Seq<Call<'a, B, A>>,
)
    requires
        alike(front + one, front + other),
    ensures
        alike(one, other),
{
    let a = front + one;
    let b = front + other;
    assert forall|i: int|
        0 <= i < one.len() && i < other.len() && one.take(i) == other.take(i) && question(
            #[trigger] one[i],
        ) == question(#[trigger] other[i]) implies one[i] == other[i] by {
        let k = front.len() + i;
        assert(a.take(k) =~= front + one.take(i));
        assert(b.take(k) =~= front + other.take(i));
        assert(a[k] == one[i] && b[k] == other[i]);
    }
}

proof fn lemma_joined_split<T>(parts: Seq<Seq<T>>, i: int)
    requires
        0 <= i < parts.len(),
    ensures
        joined(parts) == joined(parts.take(i)) + (parts[i] + joined(parts.skip(i + 1))),
    decreases parts.len(),
{
    let fewer = parts.drop_last();
    if i == parts.len() - 1 {
        assert(parts.take(i) =~= fewer);
        assert(parts.skip(i + 1) =~= Seq::empty());
        assert(joined(parts.skip(i + 1)) =~= Seq::empty());
        assert(joined(parts) =~= joined(parts.take(i)) + (parts[i] + joined(parts.skip(i + 1))));
    } else {
        lemma_joined_split(fewer, i);
        assert(fewer.take(i) =~= parts.take(i));
        assert(parts.skip(i + 1).drop_last() =~= fewer.skip(i + 1));
        assert(joined(parts) =~= joined(parts.take(i)) + (parts[i] + joined(parts.skip(i + 1))));
    }
}

proof fn lemma_alike_part<'a, B, A: ?Sized>(
    one: Seq<Seq<Call<'a, B, A>>>,
    other: Seq<Seq<Call<'a, B, A>>>,
    i: int,
)
    requires
        alike(joined(one), joined(other)),
        0 <= i < one.len(),
        i < other.len(),
        one.take(i) == other.take(i),
    ensures
        alike(one[i], other[i]),
{
    lemma_joined_split(one, i);
    lemma_joined_split(other, i);
    let a = one[i] + joined(one.skip(i + 1));
    let b = other[i] + joined(other.skip(i + 1));
    lemma_alike_back(joined(one.take(i)), a, b);
    lemma_alike_front(one[i], joined(one.skip(i + 1)), other[i], joined(other.skip(i + 1)));
}

proof fn lemma_take_step<T>(one: Seq<T>, other: Seq<T>, i: int)
    requires
        0 <= i < one.len(),
        i < other.len(),
        one.take(i) == other.take(i),
        one[i] == other[i],
    ensures
        one.take(i + 1) == other.take(i + 1),
{
    assert(one.take(i + 1) =~= one.take(i).push(one[i]));
    assert(other.take(i + 1) =~= other.take(i).push(other[i]));
}

proof fn lemma_take_all<T>(one: Seq<T>, other: Seq<T>)
    requires
        one.len() == other.len(),
        one.take(one.len() as int) == other.take(one.len() as int),
    ensures
        one == other,
{
    assert(one.take(one.len() as int) =~= one);
    assert(other.take(one.len() as int) =~= other);
}

proof fn lemma_same_questions<'a, B, A: ?Sized>(
    one: Seq<Call<'a, B, A>>,
    other: Seq<Call<'a, B, A>>,
    count: int,
)
    requires
        alike(one, other),
        one.len() == other.len(),
        0 <= count <= one.len(),
        forall|i: int| 0 <= i < one.len() ==> question(#[trigger] one[i]) == question(other[i]),
    ensures
        one.take(count) == other.take(count),
    decreases count,
{
    if count > 0 {
        lemma_same_questions(one, other, count - 1);
        assert(question(one[count - 1]) == question(other[count - 1]));
        lemma_take_step(one, other, count - 1);
    } else {
        assert(one.take(0) =~= other.take(0));
    }
}

proof fn lemma_same_slide<'a, B: Board, A: ?Sized>(
    state: StateModel<B, Player<'a, A>>,
    choice: PlayerMove,
    board: B,
    positions: Seq<Position>,
    other_board: B,
    other_positions: Seq<Position>,
)
    requires
        steady::<B>(),
        slid(state, choice, board, positions),
        slid(state, choice, other_board, other_positions),
        state.players.len() > 0,
    ensures
        board == other_board,
        positions == other_positions,
{
    let turned = choose|turned: B|
        {
            &&& #[trigger] call_ensures(B::rotate_spare, (&state.board, choice.rotations), turned)
            &&& call_ensures(B::slide_and_insert, (&turned, choice.slide), board)
            &&& forall|i: int| 1 <= i < positions.len() ==> carried(
                turned,
                choice.slide,
                state.players[i].info.position,
                #[trigger] positions[i],
            )
        };
    let other_turned = choose|turned: B|
        {
            &&& #[trigger] call_ensures(B::rotate_spare, (&state.board, choice.rotations), turned)
            &&& call_ensures(B::slide_and_insert, (&turned, choice.slide), other_board)
            &&& forall|i: int| 1 <= i < other_positions.len() ==> carried(
                turned,
                choice.slide,
                state.players[i].info.position,
                #[trigger] other_positions[i],
            )
        };
    assert(turned == other_turned);
    assert forall|i: int| 0 <= i < positions.len() implies #[trigger] positions[i]
        == other_positions[i] by {
        if i > 0 {
            let from = state.players[i].info.position;
            assert(carried(turned, choice.slide, from, positions[i]));
            assert(carried(turned, choice.slide, from, other_positions[i]));
        }
    }
    assert(positions =~= other_positions);
}

proof fn lemma_same_judgement<'a, B: Board, A: ?Sized>(
    state: StateModel<B, Player<'a, A>>,
    remaining: Seq<Position>,
    choice: PlayerMove,
    reply: ReplyModel<B>,
    calls: Seq<Call<'a, B, A>>,
    other_reply: ReplyModel<B>,
    other_calls: Seq<Call<'a, B, A>>,
)
    requires
        steady::<B>(),
        state.players.len() > 0,
        judged(state, remaining, choice, reply, calls),
        judged(state, remaining, choice, other_reply, other_calls),
        alike(calls, other_calls),
    ensures
        reply == other_reply,
        calls == other_calls,
{
    let (view, valid) = choose|view: State<B, FullPlayerInfo>, valid: bool|
        {
            &&& is_full_state(state, view@)
            &&& #[trigger] call_ensures(
                B::is_valid_move,
                (&view, choice.slide, choice.rotations, choice.destination),
                valid,
            )
            &&& if valid {
                carried_out(state, remaining, choice, reply, calls)
            } else {
                reply is Rejected && calls.len() == 0
            }
        };
    let (other_view, other_valid) = choose|view: State<B, FullPlayerInfo>, valid: bool|
        {
            &&& is_full_state(state, view@)
            &&& #[trigger] call_ensures(
                B::is_valid_move,
                (&view, choice.slide, choice.rotations, choice.destination),
                valid,
            )
            &&& if valid {
                carried_out(state, remaining, choice, other_reply, other_calls)
            } else {
                other_reply is Rejected && other_calls.len() == 0
            }
        };
    assert(view@ == other_view@);
    assert(valid == other_valid);
    if valid {
        if let ReplyModel::Moved { board, positions, .. } = reply {
            if let ReplyModel::Moved { board: b, positions: p, .. } = other_reply {
                lemma_same_slide(state, choice, board, positions, b, p);
            }
        }
        assert(calls.take(0) =~= other_calls.take(0));
        if calls.len() > 0 {
            assert(question(calls[0]) == question(other_calls[0]));
        }
    }
    assert(calls =~= other_calls);
}

proof fn lemma_same_asking<'a, B: Board, A: ?Sized>(
    state: StateModel<B, Player<'a, A>>,
    remaining: Seq<Position>,
    reply: ReplyModel<B>,
    calls: Seq<Call<'a, B, A>>,
    other_reply: ReplyModel<B>,
    other_calls: Seq<Call<'a, B, A>>,
)
    requires
        steady::<B>(),
        state.players.len() > 0,
        asked(state, remaining, reply, calls),
        asked(state, remaining, other_reply, other_calls),
        alike(calls, other_calls),
    ensures
        reply == other_reply,
        calls == other_calls,
{
    assert(calls.take(0) =~= other_calls.take(0));
    assert(question(calls[0]) == question(other_calls[0]));
    assert(calls[0] == other_calls[0]);
    let first = seq![calls[0]];
    assert(calls =~= first + calls.skip(1));
    assert(other_calls =~= first + other_calls.skip(1));
    lemma_alike_back(first, calls.skip(1), other_calls.skip(1));
    if let Call::TakeTurn { answer, .. } = calls[0] {
        if let Some(Some(choice)) = answer {
            lemma_same_judgement(
                state,
                remaining,
                choice,
                reply,
                calls.skip(1),
                other_reply,
                other_calls.skip(1),
            );
        }
    }
    assert(calls.skip(1) =~= other_calls.skip(1));
}

proof fn lemma_same_show<'a, B: Board, A: ?Sized>(
    observers: nat,
    state: StateModel<B, Player<'a, A>>,
    calls: Seq<Call<'a, B, A>>,
    other_calls: Seq<Call<'a, B, A>>,
)
    requires
        steady::<B>(),
        shown_to_all(observers, state, calls),
        shown_to_all(observers, state, other_calls),
    ensures
        calls == other_calls,
{
    assert forall|i: int| 0 <= i < calls.len() implies #[trigger] calls[i] == other_calls[i] by {
        assert(shown(state, calls, i));
        assert(shown(state, other_calls, i));
    }
    assert(calls =~= other_calls);
}

proof fn lemma_same_turn<'a, B: Board, A: ?Sized>(
    table: Table<'a, B, A>,
    observers: nat,
    reply: ReplyModel<B>,
    calls: Seq<Call<'a, B, A>>,
    other_reply: ReplyModel<B>,
    other_calls: Seq<Call<'a, B, A>>,
)
    requires
        steady::<B>(),
        table.state.players.len() > 0,
        turn_had(table, observers, reply, calls),
        turn_had(table, observers, other_reply, other_calls),
        alike(calls, other_calls),
    ensures
        reply == other_reply,
        calls == other_calls,
{
    let said = calls.len() - observers;
    let other_said = other_calls.len() - observers;
    lemma_alike_take(calls, other_calls, said, other_said);
    lemma_same_asking(
        table.state,
        table.remaining,
        reply,
        calls.take(said),
        other_reply,
        other_calls.take(other_said),
    );
    lemma_same_show(
        observers,
        settled(table, reply).state,
        calls.skip(said),
        other_calls.skip(other_said),
    );
    assert(calls =~= calls.take(said) + calls.skip(said));
    assert(other_calls =~= other_calls.take(other_said) + other_calls.skip(other_said));
}

proof fn lemma_same_turns<'a, B: Board, A: ?Sized>(
    before: Table<'a, B, A>,
    observers: nat,
    replies: Seq<ReplyModel<B>>,
    turns: Seq<Seq<Call<'a, B, A>>>,
    other_replies: Seq<ReplyModel<B>>,
    other_turns: Seq<Seq<Call<'a, B, A>>>,
    count: int,
)
    requires
        steady::<B>(),
        taken(before, observers, replies, turns),
        taken(before, observers, other_replies, other_turns),
        alike(joined(turns), joined(other_turns)),
        0 <= count <= replies.len(),
        count <= other_replies.len(),
    ensures
        replies.take(count) == other_replies.take(count),
        turns.take(count) == other_turns.take(count),
    decreases count,
{
    if count > 0 {
        let i = count - 1;
        lemma_same_turns(before, observers, replies, turns, other_replies, other_turns, i);
        lemma_alike_part(turns, other_turns, i);
        law_turns_in_order(before, observers, replies, turns, i);
        assert(turn_taken(before, observers, replies, turns, i));
        assert(turn_taken(before, observers, other_replies, other_turns, i));
        lemma_same_turn(
            progress(before, replies.take(i)).table,
            observers,
            replies[i],
            turns[i],
            other_replies[i],
            other_turns[i],
        );
        lemma_take_step(replies, other_replies, i);
        lemma_take_step(turns, other_turns, i);
    } else {
        assert(replies.take(0) =~= other_replies.take(0));
        assert(turns.take(0) =~= other_turns.take(0));
    }
}

proof fn lemma_same_round<'a, B: Board, A: ?Sized>(
    before: Table<'a, B, A>,
    observers: nat,
    calls: Seq<Call<'a, B, A>>,
    after: Table<'a, B, A>,
    over: bool,
    other_calls: Seq<Call<'a, B, A>>,
    other_after: Table<'a, B, A>,
    other_over: bool,
)
    requires
        steady::<B>(),
        round_played(before, observers, calls, after, over),
        round_played(before, observers, other_calls, other_after, other_over),
        alike(calls, other_calls),
    ensures
        calls == other_calls,
        after == other_after,
        over == other_over,
{
    let (replies, turns) = lemma_turns_of_round(before, observers, calls, after, over);
    let (other_replies, other_turns) = lemma_turns_of_round(
        before,
        observers,
        other_calls,
        other_after,
        other_over,
    );
    let count = if replies.len() <= other_replies.len() {
        replies.len() as int
    } else {
        other_replies.len() as int
    };
    lemma_same_turns(before, observers, replies, turns, other_replies, other_turns, count);
    if replies.len() < other_replies.len() {
        assert(turn_taken(before, observers, other_replies, other_turns, count));
        assert(replies.take(count) =~= replies);
    } else if other_replies.len() < replies.len() {
        assert(turn_taken(before, observers, replies, turns, count));
        assert(other_replies.take(count) =~= other_replies);
    }
    lemma_take_all(replies, other_replies);
    lemma_take_all(turns, other_turns);
}

proof fn lemma_same_tables<'a, B: Board, A: ?Sized>(
    observers: nat,
    tables: Seq<Table<'a, B, A>>,
    rounds: Seq<Seq<Call<'a, B, A>>>,
    over: bool,
    other_tables: Seq<Table<'a, B, A>>,
    other_rounds: Seq<Seq<Call<'a, B, A>>>,
    other_over: bool,
    count: int,
)
    requires
        steady::<B>(),
        rounds_through(tables, observers, rounds, over),
        rounds_through(other_tables, observers, other_rounds, other_over),
        tables[0] == other_tables[0],
        alike(joined(rounds), joined(other_rounds)),
        0 <= count < tables.len(),
        count < other_tables.len(),
    ensures
        tables[count] == other_tables[count],
        rounds.take(count) == other_rounds.take(count),
        count > 0 ==> (over && count == tables.len() - 1) == (other_over && count
            == other_tables.len() - 1),
    decreases count,
{
    if count > 0 {
        let i = count - 1;
        lemma_same_tables(
            observers,
            tables,
            rounds,
            over,
            other_tables,
            other_rounds,
            other_over,
            i,
        );
        lemma_alike_part(rounds, other_rounds, i);
        assert(linked(tables, observers, rounds, over, i));
        assert(linked(other_tables, observers, other_rounds, other_over, i));
        lemma_same_round(
            tables[i],
            observers,
            rounds[i],
            tables[count],
            over && i == tables.len() - 2,
            other_rounds[i],
            other_tables[count],
            other_over && i == other_tables.len() - 2,
        );
        lemma_take_step(rounds, other_rounds, i);
    } else {
        assert(rounds.take(0) =~= other_rounds.take(0));
    }
}

proof fn lemma_same_rounds<'a, B: Board, A: ?Sized>(
    opened: Table<'a, B, A>,
    observers: nat,
    calls: Seq<Call<'a, B, A>>,
    closed: Table<'a, B, A>,
    other_calls: Seq<Call<'a, B, A>>,
    other_closed: Table<'a, B, A>,
)
    requires
        steady::<B>(),
        rounds_played(opened, observers, calls, closed),
        rounds_played(opened, observers, other_calls, other_closed),
        alike(calls, other_calls),
    ensures
        calls == other_calls,
        closed == other_closed,
{
    let (tables, rounds, over) = lemma_tables_of_rounds(opened, observers, calls, closed);
    let (other_tables, other_rounds, other_over) = lemma_tables_of_rounds(
        opened,
        observers,
        other_calls,
        other_closed,
    );
    let count = if tables.len() <= other_tables.len() {
        tables.len() - 1
    } else {
        other_tables.len() - 1
    };
    lemma_same_tables(
        observers,
        tables,
        rounds,
        over,
        other_tables,
        other_rounds,
        other_over,
        count,
    );
    assert(tables.len() == other_tables.len());
    lemma_take_all(rounds, other_rounds);
}

proof fn lemma_same_setups<'a, B: Board, A: ?Sized>(
    start: StateModel<B, Player<'a, A>>,
    accepted: Seq<bool>,
    calls: Seq<Call<'a, B, A>>,
    other_accepted: Seq<bool>,
    other_calls: Seq<Call<'a, B, A>>,
    count: int,
)
    requires
        steady::<B>(),
        introduced(start, accepted, calls),
        introduced(start, other_accepted, other_calls),
        accepted.len() == other_accepted.len(),
        alike(calls, other_calls),
        0 <= count <= accepted.len(),
    ensures
        accepted.take(count) == other_accepted.take(count),
        calls.take(count) == other_calls.take(count),
    decreases count,
{
    if count > 0 {
        let i = count - 1;
        lemma_same_setups(start, accepted, calls, other_accepted, other_calls, i);
        assert(told_in_turn(start, accepted, calls, i));
        assert(told_in_turn(start, other_accepted, other_calls, i));
        assert(still_there(start.players, accepted, i) == still_there(
            start.players,
            other_accepted,
            i,
        ));
        assert(question(calls[i]) == question(other_calls[i]));
        lemma_take_step(calls, other_calls, i);
        lemma_take_step(accepted, other_accepted, i);
    } else {
        assert(accepted.take(0) =~= other_accepted.take(0));
        assert(calls.take(0) =~= other_calls.take(0));
    }
}

proof fn lemma_same_start<'a, B: Board, A: ?Sized>(
    start: StateModel<B, Player<'a, A>>,
    state: StateModel<B, Player<'a, A>>,
    kicked: Seq<Player<'a, A>>,
    calls: Seq<Call<'a, B, A>>,
    other_state: StateModel<B, Player<'a, A>>,
    other_kicked: Seq<Player<'a, A>>,
    other_calls: Seq<Call<'a, B, A>>,
)
    requires
        steady::<B>(),
        start_broadcast(start, Seq::empty(), state, kicked, calls),
        start_broadcast(start, Seq::empty(), other_state, other_kicked, other_calls),
        alike(calls, other_calls),
    ensures
        state == other_state,
        kicked == other_kicked,
        calls == other_calls,
{
    let accepted = lemma_who_accepted(start, Seq::empty(), state, kicked, calls);
    let other_accepted = lemma_who_accepted(
        start,
        Seq::empty(),
        other_state,
        other_kicked,
        other_calls,
    );
    let count = accepted.len() as int;
    lemma_same_setups(start, accepted, calls, other_accepted, other_calls, count);
    lemma_take_all(accepted, other_accepted);
    lemma_take_all(calls, other_calls);
}

proof fn lemma_same_outcome<'a, B, A: ?Sized>(
    winners: Seq<Player<'a, A>>,
    losers: Seq<Player<'a, A>>,
    kicked: Seq<Player<'a, A>>,
    final_winners: Seq<Player<'a, A>>,
    final_kicked: Seq<Player<'a, A>>,
    calls: Seq<Call<'a, B, A>>,
    other_winners: Seq<Player<'a, A>>,
    other_kicked: Seq<Player<'a, A>>,
    other_calls: Seq<Call<'a, B, A>>,
)
    requires
        outcome_broadcast(winners, losers, kicked, final_winners, final_kicked, calls),
        outcome_broadcast(winners, losers, kicked, other_winners, other_kicked, other_calls),
        alike(calls, other_calls),
    ensures
        calls == other_calls,
        final_winners == other_winners,
        final_kicked == other_kicked,
{
    let (winning, losing) = lemma_who_took_it_well(
        winners,
        losers,
        kicked,
        final_winners,
        final_kicked,
        calls,
    );
    let (other_winning, other_losing) = lemma_who_took_it_well(
        winners,
        losers,
        kicked,
        other_winners,
        other_kicked,
        other_calls,
    );
    lemma_same_questions(calls, other_calls, calls.len() as int);
    lemma_take_all(calls, other_calls);
    assert forall|i: int| 0 <= i < winning.len() implies #[trigger] winning[i]
        == other_winning[i] by {
        assert(calls[i] == outcome_calls::<B, A>(winners, true, winning)[i]);
        assert(calls[i] == outcome_calls::<B, A>(winners, true, other_winning)[i]);
    }
    assert forall|i: int| 0 <= i < losing.len() implies #[trigger] losing[i]
        == other_losing[i] by {
        let k = winners.len() + i;
        assert(calls[k] == outcome_calls::<B, A>(losers, false, losing)[i]);
        assert(calls[k] == outcome_calls::<B, A>(losers, false, other_losing)[i]);
    }
    assert(winning =~= other_winning);
    assert(losing =~= other_losing);
}

proof fn lemma_same_goals<'a, B: Board, A: ?Sized>(
    multiple_goals: bool,
    start: StateModel<B, Player<'a, A>>,
    goals: Seq<Position>,
    other_goals: Seq<Position>,
)
    requires
        steady::<B>(),
        initial_goals(multiple_goals, start, goals),
        initial_goals(multiple_goals, start, other_goals),
    ensures
        goals == other_goals,
{
    if multiple_goals {
        let possible = choose|possible: Vec<Position>|
            {
                &&& #[trigger] call_ensures(B::possible_goals, (&start.board,), possible)
                &&& goals == possible@.filter(is_free(start.players))
            };
        let other = choose|possible: Vec<Position>|
            {
                &&& #[trigger] call_ensures(B::possible_goals, (&start.board,), possible)
                &&& other_goals == possible@.filter(is_free(start.players))
            };
        assert(possible@ == other@);
    }
}

/// Two games that begin alike, before as many observers, are the same game if the players answer
/// alike and the board is steady: the same is said in the same order, and the same players win and
/// are thrown out. No draw of the referees has a part in it.
pub proof fn law_equal_games<'a, B: Board, A: ?Sized>(
    multiple_goals: bool,
    start: StateModel<B, Player<'a, A>>,
    observers: nat,
    end: StateModel<B, Player<'a, A>>,
    winners: Seq<Player<'a, A>>,
    kicked: Seq<Player<'a, A>>,
    calls: Seq<Call<'a, B, A>>,
    other_end: StateModel<B, Player<'a, A>>,
    other_winners: Seq<Player<'a, A>>,
    other_kicked: Seq<Player<'a, A>>,
    other_calls: Seq<Call<'a, B, A>>,
)
    requires
        steady::<B>(),
        game_played(multiple_goals, start, observers, end, winners, kicked, calls),
        game_played(
            multiple_goals,
            start,
            observers,
            other_end,
            other_winners,
            other_kicked,
            other_calls,
        ),
        alike(calls, other_calls),
    ensures
        calls == other_calls,
        end == other_end,
        winners == other_winners,
        kicked == other_kicked,
{
    let (opened, closed, story) = lemma_story_of_game(
        multiple_goals,
        start,
        observers,
        end,
        winners,
        kicked,
        calls,
    );
    let (other_opened, other_closed, other) = lemma_story_of_game(
        multiple_goals,
        start,
        observers,
        other_end,
        other_winners,
        other_kicked,
        other_calls,
    );
    let d = story.ending + story.outcome;
    let other_d = other.ending + other.outcome;
    let c = story.rounds + d;
    let other_c = other.rounds + other_d;
    let b = story.opening + c;
    let other_b = other.opening + other_c;
    lemma_same_goals(multiple_goals, start, opened.remaining, other_opened.remaining);
    lemma_alike_front(story.setups, b, other.setups, other_b);
    lemma_same_start(
        start,
        opened.state,
        opened.kicked,
        story.setups,
        other_opened.state,
        other_opened.kicked,
        other.setups,
    );
    lemma_alike_back(story.setups, b, other_b);
    lemma_same_show(observers, opened.state, story.opening, other.opening);
    lemma_alike_back(story.opening, c, other_c);
    lemma_alike_front(story.rounds, d, other.rounds, other_d);
    lemma_same_rounds(opened, observers, story.rounds, closed, other.rounds, other_closed);
    lemma_alike_back(story.rounds, d, other_d);
    lemma_alike_back(story.ending, story.outcome, other.outcome);
    lemma_same_outcome(
        winners_of(closed.state.players),
        losers_of(closed.state.players),
        closed.kicked,
        winners,
        kicked,
        story.outcome,
        other_winners,
        other_kicked,
        other.outcome,
    );
}

} // verus!
