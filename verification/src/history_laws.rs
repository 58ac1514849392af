//! What the entries of a history stand for.
use crate::grid::Position;
use crate::history::{
    announced, asked_for_board, asked_for_turn, genuine, overheard, set_up, since, spoke,
    spoke_before, told_outcome, Call,
};
use crate::observer::Observer;
use crate::player::{FullPlayerInfo, PlayerAction, PlayerApi, PlayerApiResult, PubPlayerInfo};
use crate::state::{State, StateModel};
use vstd::prelude::*;

verus! {

/// An entry that says that a player was asked for a board stands for such a call, and for the board
/// that came back, if one did.
pub proof fn law_board_was_asked_for<'a, B, A: PlayerApi<B> + ?Sized>(
    player: &'a A,
    cols: u32,
    rows: u32,
    proposal: Option<B>,
) -> (reply: PlayerApiResult<B>)
    requires
        genuine::<B, A>(Call::ProposeBoard { player, cols, rows, proposal }),
    ensures
        call_ensures(A::propose_board0, (player, cols, rows), reply),
        reply matches Ok(board) ==> proposal == Some(board),
        reply is Err ==> proposal is None,
{
    assert(asked_for_board::<B, A>(player, cols, rows, proposal));
    choose|reply: PlayerApiResult<B>|
        {
            &&& #[trigger] call_ensures(A::propose_board0, (player, cols, rows), reply)
            &&& reply matches Ok(board) ==> proposal == Some(board)
            &&& reply is Err ==> proposal is None
        }
}

/// An entry that says that a player was told of a goal stands for such a call, with exactly that
/// goal and exactly that state, if any, and with an answer that was no error exactly if the entry
/// says so.
pub proof fn law_goal_was_told<'a, B, A: PlayerApi<B> + ?Sized>(
    player: &'a A,
    game: Option<StateModel<B, PubPlayerInfo>>,
    goal: Position,
    accepted: bool,
) -> (call: (Option<State<B, PubPlayerInfo>>, PlayerApiResult<()>))
    requires
        genuine::<B, A>(Call::Setup { player, game, goal, accepted }),
    ensures
        call_ensures(A::setup, (player, call.0, goal), call.1),
        call.0 is None <==> game is None,
        call.0 matches Some(told) ==> game == Some(told@),
        accepted <==> call.1 is Ok,
{
    assert(set_up::<B, A>(player, game, goal, accepted));
    choose|told: Option<State<B, PubPlayerInfo>>, reply: PlayerApiResult<()>|
        {
            &&& #[trigger] call_ensures(A::setup, (player, told, goal), reply)
            &&& told is None <==> game is None
            &&& told matches Some(state) ==> game == Some(state@)
            &&& accepted <==> reply is Ok
        }
}

/// An entry that says that a player was asked for a turn stands for such a call, with exactly that
/// state, and for what the player wanted, unless that failed.
pub proof fn law_turn_was_asked_for<'a, B, A: PlayerApi<B> + ?Sized>(
    player: &'a A,
    state: StateModel<B, PubPlayerInfo>,
    answer: Option<PlayerAction>,
) -> (call: (State<B, PubPlayerInfo>, PlayerApiResult<PlayerAction>))
    requires
        genuine::<B, A>(Call::TakeTurn { player, state, answer }),
    ensures
        call_ensures(A::take_turn, (player, call.0), call.1),
        call.0@ == state,
        call.1 matches Ok(action) ==> answer == Some(action),
        call.1 is Err ==> answer is None,
{
    assert(asked_for_turn::<B, A>(player, state, answer));
    choose|view: State<B, PubPlayerInfo>, reply: PlayerApiResult<PlayerAction>|
        {
            &&& #[trigger] call_ensures(A::take_turn, (player, view), reply)
            &&& view@ == state
            &&& reply matches Ok(action) ==> answer == Some(action)
            &&& reply is Err ==> answer is None
        }
}

/// An entry that says that a player was told of the outcome stands for such a call, with exactly
/// that outcome, and with an answer that was no error exactly if the entry says so.
pub proof fn law_outcome_was_told<'a, B, A: PlayerApi<B> + ?Sized>(
    player: &'a A,
    did_win: bool,
    accepted: bool,
) -> (reply: PlayerApiResult<()>)
    requires
        genuine::<B, A>(Call::Won { player, did_win, accepted }),
    ensures
        call_ensures(A::won, (player, did_win), reply),
        accepted <==> reply is Ok,
{
    assert(told_outcome::<B, A>(player, did_win, accepted));
    choose|reply: PlayerApiResult<()>| #[trigger]
        call_ensures(A::won, (player, did_win), reply) && (accepted <==> reply is Ok)
}

/// An entry that says that an observer was shown the game stands for such a call to the observer at
/// that place, with exactly that state.
pub proof fn law_state_was_shown<'a, B, A: ?Sized, O: Observer<B> + ?Sized>(
    observers: Seq<Box<O>>,
    observer: nat,
    shown: StateModel<B, FullPlayerInfo>,
) -> (view: State<B, FullPlayerInfo>)
    requires
        overheard::<B, A, O>(observers, Call::RecieveState { observer, shown }),
    ensures
        observer < observers.len(),
        call_ensures(O::recieve_state, (&*observers[observer as int], view), ()),
        view@ == shown,
{
    choose|view: State<B, FullPlayerInfo>| #[trigger]
        call_ensures(O::recieve_state, (&*observers[observer as int], view), ()) && view@ == shown
}

/// An entry that says that an observer was told of the end stands for such a call to the observer
/// at that place.
pub proof fn law_end_was_told<'a, B, A: ?Sized, O: Observer<B> + ?Sized>(
    observers: Seq<Box<O>>,
    observer: nat,
)
    requires
        overheard::<B, A, O>(observers, Call::GameOver { observer }),
    ensures
        observer < observers.len(),
        call_ensures(O::game_over, (&*observers[observer as int],), ()),
{
}

/// A history only grows: what was said before stays where it was, and what was said since comes
/// after it. Each entry that is new stands for a call.
pub proof fn law_history_grows<'a, B, A: PlayerApi<B> + ?Sized, O: Observer<B> + ?Sized>(
    observers: Seq<Box<O>>,
    before: Seq<Call<'a, B, A>>,
    after: Seq<Call<'a, B, A>>,
    i: int,
)
    requires
        spoke(before, after) || announced(observers, before, after) || spoke_before(
            observers,
            before,
            after,
        ),
        0 <= i < after.len(),
    ensures
        before.len() <= after.len(),
        since(before, after).len() == after.len() - before.len(),
        i < before.len() ==> after[i] == before[i],
        i >= before.len() ==> since(before, after)[i - before.len()] == after[i],
        i >= before.len() && spoke(before, after) ==> genuine(after[i]),
        i >= before.len() && announced(observers, before, after) ==> overheard(
            observers,
            after[i],
        ),
        i >= before.len() ==> genuine(after[i]) || overheard(observers, after[i]),
{
    if i < before.len() {
        assert(after.take(before.len() as int)[i] == after[i]);
    }
}

/// No entry stands both for a call to a player and for one to an observer.
pub proof fn law_players_and_observers_are_apart<
    'a,
    B,
    A: PlayerApi<B> + ?Sized,
    O: Observer<B> + ?Sized,
>(observers: Seq<Box<O>>, call: Call<'a, B, A>)
    ensures
        genuine(call) ==> !(call is RecieveState) && !(call is GameOver),
        overheard(observers, call) ==> call is RecieveState || call is GameOver,
{
}

} // verus!
