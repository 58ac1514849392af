//! A player at the other end of a connection.
use crate::board::{Board, CompassDirection, Slide};
use crate::grid::Position;
use crate::player::{
    PlayerAction, PlayerApi, PlayerApiError, PlayerApiResult, PlayerMove, PubPlayerInfo,
};
use crate::state::State;
use vstd::prelude::*;

verus! {

/// How many seconds a remote player may take for an answer.
pub const READ_TIMEOUT: u64 = 2;

/// A call of one of the functions of a remote player, with its arguments.
pub enum JsonFunctionCall<'a, B> {
    Setup(&'a Option<State<B, PubPlayerInfo>>, Position),
    TakeTurn(&'a State<B, PubPlayerInfo>),
    Win(bool),
}

/// A choice of a turn, as it comes over the wire.
#[derive(Clone, Copy, Debug, PartialEq, Eq)]
pub enum JsonChoice {
    Pass,
    Move {
        /// The row or column to push.
        index: usize,
        direction: CompassDirection,
        rotations: usize,
        destination: Position,
    },
}

/// What a remote player answers to a call.
#[derive(Clone, Copy, Debug, PartialEq, Eq)]
pub enum JsonResult {
    Void,
    Choice(JsonChoice),
}

/// A connection to a remote player. Each step of an exchange hands out what the next step asks for,
/// so that an answer is read only to a call that was written, and only with a limit.
pub trait Connection<B> {
    /// Shows that a call was written.
    type Sent;

    /// Shows that the answer to a call is limited.
    type Limited;

    /// Writes a call.
    fn send_function_call(&self, func: &JsonFunctionCall<'_, B>) -> PlayerApiResult<Self::Sent>;

    /// Limits how long the answer to the call may take.
    fn set_read_timeout(&self, sent: Self::Sent, seconds: u64) -> PlayerApiResult<Self::Limited>;

    /// Reads the answer.
    fn read_result(&self, limited: Self::Limited) -> PlayerApiResult<JsonResult>;
}

/// `result` is what `choice` means on `board`: a move only if the board has the slide.
pub open spec fn meant<B: Board>(
    choice: JsonChoice,
    board: B,
    result: Result<PlayerAction, String>,
) -> bool {
    match choice {
        JsonChoice::Pass => result == Ok::<PlayerAction, String>(None),
        JsonChoice::Move { index, direction, rotations, destination } => exists|
            slide: Option<Slide>,
        |
            {
                &&& #[trigger] call_ensures(B::new_slide, (&board, index, direction), slide)
                &&& match slide {
                    Some(slide) => result == Ok::<PlayerAction, String>(
                        Some(PlayerMove { slide, rotations, destination }),
                    ),
                    None => result matches Err(message) && message@
                        == "The board has no such slide!"@,
                }
            },
    }
}

impl JsonChoice {
    /// What the choice means on a board, or else what is wrong with it.
    pub fn into_action<B: Board>(self, board: &B) -> (result: Result<PlayerAction, String>)
        ensures
            meant(self, *board, result),
    {
        match self {
            JsonChoice::Pass => Ok(None),
            JsonChoice::Move { index, direction, rotations, destination } => {
                let slide = board.new_slide(index, direction);
                assert(call_ensures(B::new_slide, (board, index, direction), slide));
                match slide {
                    Some(slide) => Ok(Some(PlayerMove { slide, rotations, destination })),
                    None => Err("The board has no such slide!".to_string()),
                }
            },
        }
    }
}

/// Stands in for a player across a network.
pub struct PlayerProxy<C> {
    pub name: String,
    pub stream: C,
}

/// The call was written, then the answer to it was limited to [`READ_TIMEOUT`] seconds, and then it
/// was read as `reply`. If one of these fails, its error is the reply, and without it the next one
/// cannot be done.
pub open spec fn exchanged<B, C: Connection<B>>(
    stream: C,
    func: JsonFunctionCall<'_, B>,
    reply: PlayerApiResult<JsonResult>,
) -> bool {
    exists|sent: PlayerApiResult<C::Sent>|
        {
            &&& #[trigger] call_ensures(C::send_function_call, (&stream, &func), sent)
            &&& match sent {
                Err(error) => reply == Err::<JsonResult, PlayerApiError>(error),
                Ok(sent) => limited_and_read::<B, C>(stream, sent, reply),
            }
        }
}

/// What [`exchanged`] says of the time after the call was written, which `sent` shows.
pub open spec fn limited_and_read<B, C: Connection<B>>(
    stream: C,
    sent: C::Sent,
    reply: PlayerApiResult<JsonResult>,
) -> bool {
    exists|limited: PlayerApiResult<C::Limited>|
        {
            &&& #[trigger] call_ensures(
                C::set_read_timeout,
                (&stream, sent, READ_TIMEOUT),
                limited,
            )
            &&& match limited {
                Err(error) => reply == Err::<JsonResult, PlayerApiError>(error),
                Ok(limited) => call_ensures(C::read_result, (&stream, limited), reply),
            }
        }
}

/// `result` is the error that says `complaint`.
pub open spec fn complains<T>(result: PlayerApiResult<T>, complaint: Seq<char>) -> bool {
    result matches Err(PlayerApiError::Other(message)) && message@ == complaint
}

/// What a call comes to that has nothing to return: it fails unless the answer is `void`.
pub open spec fn acknowledged(
    reply: PlayerApiResult<JsonResult>,
    complaint: Seq<char>,
    result: PlayerApiResult<()>,
) -> bool {
    match reply {
        Err(error) => result == Err::<(), PlayerApiError>(error),
        Ok(JsonResult::Void) => result == Ok::<(), PlayerApiError>(()),
        Ok(JsonResult::Choice(_)) => complains(result, complaint),
    }
}

/// What a call comes to that asks for a turn on `board`: it fails unless the answer is a choice
/// that means something there.
pub open spec fn chosen<B: Board>(
    reply: PlayerApiResult<JsonResult>,
    board: B,
    complaint: Seq<char>,
    result: PlayerApiResult<PlayerAction>,
) -> bool {
    match reply {
        Err(error) => result == Err::<PlayerAction, PlayerApiError>(error),
        Ok(JsonResult::Void) => complains(result, complaint),
        Ok(JsonResult::Choice(choice)) => exists|action: Result<PlayerAction, String>|
            {
                &&& #[trigger] meant(choice, board, action)
                &&& match action {
                    Ok(action) => result == Ok::<PlayerAction, PlayerApiError>(action),
                    Err(error) => result == Err::<PlayerAction, PlayerApiError>(
                        PlayerApiError::Other(error),
                    ),
                }
            },
    }
}

/// The result of a call that has nothing to return.
pub fn acknowledge(
    reply: PlayerApiResult<JsonResult>,
    complaint: &str,
) -> (result: PlayerApiResult<()>)
    ensures
        acknowledged(reply, complaint@, result),
{
    match reply {
        Err(error) => Err(error),
        Ok(JsonResult::Void) => Ok(()),
        Ok(JsonResult::Choice(_)) => Err(PlayerApiError::Other(complaint.to_string())),
    }
}

/// The result of a call that asks for a turn.
pub fn choose_action<B: Board>(
    reply: PlayerApiResult<JsonResult>,
    board: &B,
    complaint: &str,
) -> (result: PlayerApiResult<PlayerAction>)
    ensures
        chosen(reply, *board, complaint@, result),
{
    match reply {
        Err(error) => Err(error),
        Ok(JsonResult::Void) => Err(PlayerApiError::Other(complaint.to_string())),
        Ok(JsonResult::Choice(choice)) => match choice.into_action(board) {
            Ok(action) => Ok(action),
            Err(error) => Err(PlayerApiError::Other(error)),
        },
    }
}

impl<C> PlayerProxy<C> {
    pub fn new(name: String, stream: C) -> (proxy: Self)
        ensures
            proxy == (PlayerProxy { name, stream }),
    {
        PlayerProxy { name, stream }
    }

    /// Makes a call and reads the answer.
    fn exchange<B>(&self, func: &JsonFunctionCall<'_, B>) -> (reply: PlayerApiResult<
        JsonResult,
    >) where C: Connection<B>
        ensures
            exchanged(self.stream, *func, reply),
    {
        let sent = self.stream.send_function_call(func);
        assert(call_ensures(C::send_function_call, (&self.stream, func), sent));
        match sent {
            Err(error) => Err(error),
            Ok(sent) => {
                let limited = self.stream.set_read_timeout(sent, READ_TIMEOUT);
                assert(call_ensures(
                    C::set_read_timeout,
                    (&self.stream, sent, READ_TIMEOUT),
                    limited,
                ));
                match limited {
                    Err(error) => Err(error),
                    Ok(limited) => self.stream.read_result(limited),
                }
            },
        }
    }
}

impl<B: Board, C: Connection<B>> PlayerApi<B> for PlayerProxy<C> {
    fn name(&self) -> (name: PlayerApiResult<String>)
        ensures
            name matches Ok(name) && name@ == self.name@,
    {
        Ok(self.name.clone())
    }

    /// A remote player has no function to ask for a board.
    fn propose_board0(&self, _cols: u32, _rows: u32) -> (board: PlayerApiResult<B>)
        ensures
            complains(board, "A remote player does not propose boards!"@),
    {
        Err(PlayerApiError::Other("A remote player does not propose boards!".to_string()))
    }

    fn setup(&self, state: Option<State<B, PubPlayerInfo>>, goal: Position) -> (result:
        PlayerApiResult<()>)
        ensures
            exists|reply: PlayerApiResult<JsonResult>|
                {
                    &&& #[trigger] exchanged(
                        self.stream,
                        JsonFunctionCall::Setup(&state, goal),
                        reply,
                    )
                    &&& acknowledged(
                        reply,
                        "Got something other than \"void\", when calling `setup`!"@,
                        result,
                    )
                },
    {
        let reply = self.exchange(&JsonFunctionCall::Setup(&state, goal));
        acknowledge(reply, "Got something other than \"void\", when calling `setup`!")
    }

    fn take_turn(&self, state: State<B, PubPlayerInfo>) -> (result: PlayerApiResult<PlayerAction>)
        ensures
            exists|reply: PlayerApiResult<JsonResult>|
                {
                    &&& #[trigger] exchanged(
                        self.stream,
                        JsonFunctionCall::TakeTurn(&state),
                        reply,
                    )
                    &&& chosen(
                        reply,
                        state.board,
                        "Got something other than a JsonChoice when calling `take_turn`!"@,
                        result,
                    )
                },
    {
        let reply = self.exchange(&JsonFunctionCall::TakeTurn(&state));
        choose_action(
            reply,
            &state.board,
            "Got something other than a JsonChoice when calling `take_turn`!",
        )
    }

    fn won(&self, did_win: bool) -> (result: PlayerApiResult<()>)
        ensures
            exists|reply: PlayerApiResult<JsonResult>|
                {
                    &&& #[trigger] exchanged(
                        self.stream,
                        JsonFunctionCall::<'_, B>::Win(did_win),
                        reply,
                    )
                    &&& acknowledged(
                        reply,
                        "Got something other than \"void\" when calling `won`!"@,
                        result,
                    )
                },
    {
        let func: JsonFunctionCall<'_, B> = JsonFunctionCall::Win(did_win);
        let reply = self.exchange(&func);
        acknowledge(reply, "Got something other than \"void\" when calling `won`!")
    }
}

} // verus!
