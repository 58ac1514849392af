//! What goes over the wire to a remote player, and what the answers come to.
use crate::board::{Board, CompassDirection, Slide};
use crate::grid::Position;
use crate::player::{
    PlayerAction, PlayerApi, PlayerApiError, PlayerApiResult, PlayerMove, PubPlayerInfo,
};
use crate::remote::{
    acknowledge, acknowledged, choose_action, chosen, exchanged, limited_and_read, meant,
    Connection, JsonChoice, JsonFunctionCall, JsonResult, PlayerProxy,
};
use crate::state::State;
use vstd::prelude::*;

verus! {

/// To pass is to do nothing.
pub proof fn law_pass_is_a_pass<B: Board>(board: B, result: Result<PlayerAction, String>)
    requires
        call_ensures(JsonChoice::into_action::<B>, (JsonChoice::Pass, &board), result),
    ensures
        result is Ok,
        result->Ok_0 is None,
{
}

/// A choice to move asks the board for the slide of exactly its index and its direction. If the
/// board has it, the action is a move with that slide, and with the rotations and the destination
/// of the choice; if not, the choice is refused.
pub proof fn law_choice_is_the_action<B: Board>(
    board: B,
    index: usize,
    direction: CompassDirection,
    rotations: usize,
    destination: Position,
    result: Result<PlayerAction, String>,
) -> (slide: Option<Slide>)
    requires
        call_ensures(
            JsonChoice::into_action::<B>,
            (JsonChoice::Move { index, direction, rotations, destination }, &board),
            result,
        ),
    ensures
        call_ensures(B::new_slide, (&board, index, direction), slide),
        slide is None <==> result is Err,
        result matches Ok(action) ==> (action matches Some(wish) && slide == Some(wish.slide)
            && wish.rotations == rotations && wish.destination == destination),
{
    assert(meant(JsonChoice::Move { index, direction, rotations, destination }, board, result));
    choose|slide: Option<Slide>|
        {
            &&& #[trigger] call_ensures(B::new_slide, (&board, index, direction), slide)
            &&& match slide {
                Some(slide) => result == Ok::<PlayerAction, String>(
                    Some(PlayerMove { slide, rotations, destination }),
                ),
                None => result is Err,
            }
        }
}

/// A slide that a board gives carries the index and the direction that it was asked for.
pub open spec fn slides_carry_their_names<B: Board>() -> bool {
    forall|board: B, index: usize, direction: CompassDirection, slide: Slide| #[trigger]
        call_ensures(B::new_slide, (&board, index, direction), Some(slide)) ==> slide.index == index
            && slide.direction == direction
}

/// On a board whose slides carry the index and the direction they were asked for, a remote player's
/// move is made with the index and the direction of their own choice.
pub proof fn law_move_is_the_choice<B: Board>(
    board: B,
    index: usize,
    direction: CompassDirection,
    rotations: usize,
    destination: Position,
    result: Result<PlayerAction, String>,
)
    requires
        slides_carry_their_names::<B>(),
        call_ensures(
            JsonChoice::into_action::<B>,
            (JsonChoice::Move { index, direction, rotations, destination }, &board),
            result,
        ),
    ensures
        result matches Ok(action) ==> (action matches Some(wish) && wish.slide.index == index
            && wish.slide.direction == direction && wish.rotations == rotations && wish.destination
            == destination),
{
    let slide = law_choice_is_the_action(
        board,
        index,
        direction,
        rotations,
        destination,
        result,
    );
}

/// The answer to `limited`, of which the time was limited to 2 seconds, was read as `reply`, where
/// `sent` shows the call that it answers.
pub open spec fn answered_in_time<B, C: Connection<B>>(
    stream: C,
    sent: C::Sent,
    limited: PlayerApiResult<C::Limited>,
    reply: PlayerApiResult<JsonResult>,
) -> bool {
    &&& call_ensures(C::set_read_timeout, (&stream, sent, 2u64), limited)
    &&& limited matches Ok(limit) ==> call_ensures(C::read_result, (&stream, limit), reply)
    &&& limited matches Err(error) ==> reply == Err::<JsonResult, PlayerApiError>(error)
}

/// The call was written, with the result `sent`, and `reply` is the answer to it, or the first
/// error.
pub open spec fn answered_over<B, C: Connection<B>>(
    stream: C,
    func: JsonFunctionCall<'_, B>,
    sent: PlayerApiResult<C::Sent>,
    reply: PlayerApiResult<JsonResult>,
) -> bool {
    &&& call_ensures(C::send_function_call, (&stream, &func), sent)
    &&& sent matches Err(error) ==> reply == Err::<JsonResult, PlayerApiError>(error)
    &&& sent matches Ok(sent) ==> exists|limited: PlayerApiResult<C::Limited>| #[trigger]
        answered_in_time::<B, C>(stream, sent, limited, reply)
}

/// A reply is the answer to the call that was written, read within 2 seconds, or the first error on
/// the way to it.
pub proof fn law_exchange<B, C: Connection<B>>(
    stream: C,
    func: JsonFunctionCall<'_, B>,
    reply: PlayerApiResult<JsonResult>,
) -> (sent: PlayerApiResult<C::Sent>)
    requires
        exchanged(stream, func, reply),
    ensures
        answered_over(stream, func, sent, reply),
{
    let sent = choose|sent: PlayerApiResult<C::Sent>|
        {
            &&& #[trigger] call_ensures(C::send_function_call, (&stream, &func), sent)
            &&& match sent {
                Err(error) => reply == Err::<JsonResult, PlayerApiError>(error),
                Ok(sent) => limited_and_read::<B, C>(stream, sent, reply),
            }
        };
    if let Ok(token) = sent {
        let limited = choose|limited: PlayerApiResult<C::Limited>|
            {
                &&& #[trigger] call_ensures(C::set_read_timeout, (&stream, token, 2u64), limited)
                &&& match limited {
                    Err(error) => reply == Err::<JsonResult, PlayerApiError>(error),
                    Ok(limited) => call_ensures(C::read_result, (&stream, limited), reply),
                }
            };
        assert(answered_in_time::<B, C>(stream, token, limited, reply));
    }
    sent
}

/// A call that has nothing to return goes well exactly if the answer is `void`. An error on the way
/// is handed on, and any other answer is an error of its own.
pub proof fn law_acknowledgement(
    reply: PlayerApiResult<JsonResult>,
    complaint: &str,
    result: PlayerApiResult<()>,
)
    requires
        call_ensures(acknowledge, (reply, complaint), result),
    ensures
        result is Ok <==> reply is Ok && reply->Ok_0 is Void,
        reply matches Err(error) ==> (result matches Err(other) && other == error),
        reply is Ok && reply->Ok_0 is Choice ==> (result matches Err(PlayerApiError::Other(message))
            && message@ == complaint@),
{
}

/// `result` is what a reply to a question for a turn comes to: an error on the way is handed on, an
/// answer that is no choice is an error, and a choice is what it means on the board.
pub open spec fn turn_result<B: Board>(
    reply: PlayerApiResult<JsonResult>,
    board: B,
    result: PlayerApiResult<PlayerAction>,
) -> bool {
    match reply {
        Err(error) => result matches Err(other) && other == error,
        Ok(JsonResult::Void) => result matches Err(PlayerApiError::Other(_)),
        Ok(JsonResult::Choice(JsonChoice::Pass)) => result matches Ok(action) && action is None,
        Ok(
            JsonResult::Choice(JsonChoice::Move { index, direction, rotations, destination }),
        ) => exists|slide: Option<Slide>| #[trigger]
            call_ensures(B::new_slide, (&board, index, direction), slide) && match slide {
                Some(slide) => result matches Ok(Some(wish)) && wish.slide == slide
                    && wish.rotations == rotations && wish.destination == destination,
                None => result matches Err(PlayerApiError::Other(_)),
            },
    }
}

/// A reply to a question for a turn comes to what [`turn_result`] says.
pub proof fn law_turn_result<B: Board>(
    reply: PlayerApiResult<JsonResult>,
    board: B,
    complaint: &str,
    result: PlayerApiResult<PlayerAction>,
)
    requires
        call_ensures(choose_action::<B>, (reply, &board, complaint), result),
    ensures
        turn_result(reply, board, result),
{
    lemma_turn_result(reply, board, complaint@, result);
}

proof fn lemma_turn_result<B: Board>(
    reply: PlayerApiResult<JsonResult>,
    board: B,
    complaint: Seq<char>,
    result: PlayerApiResult<PlayerAction>,
)
    requires
        chosen(reply, board, complaint, result),
    ensures
        turn_result(reply, board, result),
{
    if let Ok(JsonResult::Choice(choice)) = reply {
        let action = choose|action: Result<PlayerAction, String>|
            {
                &&& #[trigger] meant(choice, board, action)
                &&& match action {
                    Ok(action) => result == Ok::<PlayerAction, PlayerApiError>(action),
                    Err(error) => result == Err::<PlayerAction, PlayerApiError>(
                        PlayerApiError::Other(error),
                    ),
                }
            };
        if let JsonChoice::Move { index, direction, rotations, destination } = choice {
            let slide = choose|slide: Option<Slide>|
                {
                    &&& #[trigger] call_ensures(B::new_slide, (&board, index, direction), slide)
                    &&& match slide {
                        Some(slide) => action == Ok::<PlayerAction, String>(
                            Some(PlayerMove { slide, rotations, destination }),
                        ),
                        None => action is Err,
                    }
                };
            assert(call_ensures(B::new_slide, (&board, index, direction), slide));
        }
    }
}

/// Setting a remote player up sends the state and the goal, and goes well exactly if the answer to
/// that call is `void`.
pub proof fn law_remote_setup<B: Board, C: Connection<B>>(
    proxy: PlayerProxy<C>,
    state: Option<State<B, PubPlayerInfo>>,
    goal: Position,
    result: PlayerApiResult<()>,
) -> (call: (PlayerApiResult<C::Sent>, PlayerApiResult<JsonResult>))
    requires
        call_ensures(<PlayerProxy<C> as PlayerApi<B>>::setup, (&proxy, state, goal), result),
    ensures
        answered_over(proxy.stream, JsonFunctionCall::Setup(&state, goal), call.0, call.1),
        result is Ok <==> call.1 is Ok && call.1->Ok_0 is Void,
        call.1 matches Err(error) ==> (result matches Err(other) && other == error),
        call.1 is Ok && call.1->Ok_0 is Choice ==> (result matches Err(PlayerApiError::Other(_))),
{
    let reply = choose|reply: PlayerApiResult<JsonResult>|
        {
            &&& #[trigger] exchanged(proxy.stream, JsonFunctionCall::Setup(&state, goal), reply)
            &&& acknowledged(
                reply,
                "Got something other than \"void\", when calling `setup`!"@,
                result,
            )
        };
    let sent = law_exchange(proxy.stream, JsonFunctionCall::Setup(&state, goal), reply);
    (sent, reply)
}

/// Asking a remote player for a turn sends the state, and the result is what the answer to that
/// call comes to on the board of that state.
pub proof fn law_remote_turn<B: Board, C: Connection<B>>(
    proxy: PlayerProxy<C>,
    state: State<B, PubPlayerInfo>,
    result: PlayerApiResult<PlayerAction>,
) -> (call: (PlayerApiResult<C::Sent>, PlayerApiResult<JsonResult>))
    requires
        call_ensures(<PlayerProxy<C> as PlayerApi<B>>::take_turn, (&proxy, state), result),
    ensures
        answered_over(proxy.stream, JsonFunctionCall::TakeTurn(&state), call.0, call.1),
        turn_result(call.1, state.board, result),
{
    let complaint = "Got something other than a JsonChoice when calling `take_turn`!"@;
    let reply = choose|reply: PlayerApiResult<JsonResult>|
        {
            &&& #[trigger] exchanged(proxy.stream, JsonFunctionCall::TakeTurn(&state), reply)
            &&& chosen(reply, state.board, complaint, result)
        };
    let sent = law_exchange(proxy.stream, JsonFunctionCall::TakeTurn(&state), reply);
    lemma_turn_result(reply, state.board, complaint, result);
    (sent, reply)
}

/// Telling a remote player how the game ended sends just that, and goes well exactly if the answer
/// to that call is `void`.
pub proof fn law_remote_won<B: Board, C: Connection<B>>(
    proxy: PlayerProxy<C>,
    did_win: bool,
    result: PlayerApiResult<()>,
) -> (call: (PlayerApiResult<C::Sent>, PlayerApiResult<JsonResult>))
    requires
        call_ensures(<PlayerProxy<C> as PlayerApi<B>>::won, (&proxy, did_win), result),
    ensures
        answered_over(proxy.stream, JsonFunctionCall::<'_, B>::Win(did_win), call.0, call.1),
        result is Ok <==> call.1 is Ok && call.1->Ok_0 is Void,
        call.1 matches Err(error) ==> (result matches Err(other) && other == error),
        call.1 is Ok && call.1->Ok_0 is Choice ==> (result matches Err(PlayerApiError::Other(_))),
{
    let reply = choose|reply: PlayerApiResult<JsonResult>|
        {
            &&& #[trigger] exchanged(
                proxy.stream,
                JsonFunctionCall::<'_, B>::Win(did_win),
                reply,
            )
            &&& acknowledged(
                reply,
                "Got something other than \"void\" when calling `won`!"@,
                result,
            )
        };
    let sent = law_exchange(proxy.stream, JsonFunctionCall::<'_, B>::Win(did_win), reply);
    (sent, reply)
}

/// A remote player goes by the name that they came with, and never proposes a board.
pub proof fn law_remote_name_and_board<B: Board, C: Connection<B>>(
    proxy: PlayerProxy<C>,
    cols: u32,
    rows: u32,
    name: PlayerApiResult<String>,
    board: PlayerApiResult<B>,
)
    requires
        call_ensures(<PlayerProxy<C> as PlayerApi<B>>::name, (&proxy,), name),
        call_ensures(<PlayerProxy<C> as PlayerApi<B>>::propose_board0, (&proxy, cols, rows), board),
    ensures
        name is Ok,
        name->Ok_0@ == proxy.name@,
        board is Err,
{
}

} // verus!
