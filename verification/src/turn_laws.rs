//! What a turn does, field by field.
use crate::board::{Board, Slide};
use crate::grid::Position;
use crate::history::Call;
use crate::player::{FullPlayerInfo, Player, PlayerMove, PubPlayerInfo};
use crate::state::{is_full_state, State, StateModel};
use crate::turn::{
    asked, carried, carried_out, goal_after, has_won, settled, slid, turn_end, ReplyModel, Table,
    TurnEnd, TurnReply,
};
use crate::view_laws::{law_full_view, law_player_view, shows_all, shows_places};
use std::collections::VecDeque;
use vstd::prelude::*;

verus! {

/// `info` with another tile to stand on.
pub open spec fn standing(info: FullPlayerInfo, position: Position) -> FullPlayerInfo {
    FullPlayerInfo {
        home: info.home,
        position,
        goal: info.goal,
        goals_reached: info.goals_reached,
        color: info.color,
    }
}

/// The content of a reply is what it says.
pub proof fn law_content_of_a_reply<B>(reply: TurnReply<B>)
    ensures
        reply@ is Failed <==> reply is Failed,
        reply@ is Passed <==> reply is Passed,
        reply@ is Rejected <==> reply is Rejected,
        reply matches TurnReply::Moved { slide, board, positions, accepted } ==> reply@ == (
        ReplyModel::Moved { slide, board, positions: positions@, accepted }),
{
}

/// A player has won exactly when the tile they come to is both their goal and their home, and no
/// goal is left to be handed out.
pub proof fn law_who_has_won(
    info: FullPlayerInfo,
    at: Position,
    remaining: VecDeque<Position>,
    won: bool,
)
    requires
        call_ensures(has_won, (&info, &at, &remaining), won),
    ensures
        won <==> at.0 == info.goal.0 && at.1 == info.goal.1 && at.0 == info.home.0 && at.1
            == info.home.1 && remaining@.len() == 0,
{
}

/// A player who comes to their goal, and has not won, is sent to the first goal that is left, or
/// home if none is; nobody else is sent anywhere.
pub proof fn law_next_goal(
    info: FullPlayerInfo,
    at: Position,
    remaining: VecDeque<Position>,
    goal: Option<Position>,
)
    requires
        call_ensures(goal_after, (&info, &at, &remaining), goal),
    ensures
        at != info.goal ==> goal is None,
        at == info.goal && remaining@.len() > 0 ==> goal == Some(remaining@[0]),
        at == info.goal && remaining@.len() == 0 && at != info.home ==> goal == Some(info.home),
        at == info.goal && remaining@.len() == 0 && at == info.home ==> goal is None,
{
}

/// A player who cannot be asked, or who wants what the rules forbid, is thrown out as they are, and
/// nothing else changes: the board, the last slide, the goals that are left, and everybody else
/// stay.
pub proof fn law_thrown_out<'a, B, A: ?Sized>(table: Table<'a, B, A>, reply: ReplyModel<B>)
    requires
        table.state.players.len() > 0,
        reply is Failed || reply is Rejected,
    ensures
        turn_end(table, reply) == TurnEnd::Kicked,
        settled(table, reply).state.players == table.state.players.skip(1),
        settled(table, reply).kicked == table.kicked.push(table.state.players[0]),
        settled(table, reply).state.board == table.state.board,
        settled(table, reply).state.previous_slide == table.state.previous_slide,
        settled(table, reply).remaining == table.remaining,
{
}

/// A player who passes has their next turn last, and nothing else changes.
pub proof fn law_passed<'a, B, A: ?Sized>(table: Table<'a, B, A>, reply: ReplyModel<B>)
    requires
        table.state.players.len() > 0,
        reply is Passed,
    ensures
        turn_end(table, reply) == TurnEnd::Passed,
        settled(table, reply).state.players == table.state.players.skip(1).push(
            table.state.players[0],
        ),
        settled(table, reply).kicked == table.kicked,
        settled(table, reply).state.board == table.state.board,
        settled(table, reply).state.previous_slide == table.state.previous_slide,
        settled(table, reply).remaining == table.remaining,
{
    assert(settled(table, reply).state.players =~= table.state.players.skip(1).push(
        table.state.players[0],
    ));
}

/// The others after a move: they have moved up by one place, and each stands where the slide has
/// carried them; all else that is known of them stays.
pub open spec fn others_moved_up<'a, A: ?Sized>(
    players: Seq<Player<'a, A>>,
    positions: Seq<Position>,
    after: Seq<Player<'a, A>>,
) -> bool {
    forall|i: int|
        1 <= i < players.len() ==> {
            &&& (#[trigger] after[i - 1]).api == players[i].api
            &&& after[i - 1].info == standing(players[i].info, positions[i])
        }
}

/// After a move the board is the new one and the slide is the last one. A player who comes to their
/// goal, which is their home, when no goal is left, has won, and nobody gives up their place.
pub proof fn law_won<'a, B, A: ?Sized>(
    table: Table<'a, B, A>,
    slide: Slide,
    board: B,
    positions: Seq<Position>,
    accepted: bool,
)
    requires
        table.state.players.len() > 0,
        positions.len() == table.state.players.len(),
        positions[0] == table.state.players[0].info.goal,
        positions[0] == table.state.players[0].info.home,
        table.remaining.len() == 0,
    ensures
        ({
            let reply = ReplyModel::Moved { slide, board, positions, accepted };
            let after = settled(table, reply);
            &&& turn_end(table, reply) == TurnEnd::Won
            &&& after.state.board == board
            &&& after.state.previous_slide == Some(slide)
            &&& after.remaining == table.remaining
            &&& after.kicked == table.kicked
            &&& after.state.players.len() == positions.len()
            &&& forall|i: int|
                0 <= i < positions.len() ==> {
                    &&& (#[trigger] after.state.players[i]).api == table.state.players[i].api
                    &&& after.state.players[i].info == standing(
                        table.state.players[i].info,
                        positions[i],
                    )
                }
        }),
{
}

/// A player who moves, but not to their goal, has their next turn last; of what is known of them,
/// only the tile they stand on has changed. The goals that are left stay.
pub proof fn law_moved_elsewhere<'a, B, A: ?Sized>(
    table: Table<'a, B, A>,
    slide: Slide,
    board: B,
    positions: Seq<Position>,
    accepted: bool,
)
    requires
        table.state.players.len() > 0,
        positions.len() == table.state.players.len(),
        positions[0] != table.state.players[0].info.goal,
    ensures
        ({
            let reply = ReplyModel::Moved { slide, board, positions, accepted };
            let after = settled(table, reply);
            &&& turn_end(table, reply) == TurnEnd::Moved
            &&& after.state.board == board
            &&& after.state.previous_slide == Some(slide)
            &&& after.remaining == table.remaining
            &&& after.kicked == table.kicked
            &&& after.state.players.len() == positions.len()
            &&& others_moved_up(table.state.players, positions, after.state.players)
            &&& after.state.players.last().api == table.state.players[0].api
            &&& after.state.players.last().info == standing(
                table.state.players[0].info,
                positions[0],
            )
        }),
{
}

/// A player who comes to their goal and has not won has reached exactly one goal more than before.
/// They are sent to the first of the goals that are left, which is then left no more, or home where
/// none is left. If they take notice, they have their next turn last; if not, they are thrown out.
pub proof fn law_reached_a_goal<'a, B, A: ?Sized>(
    table: Table<'a, B, A>,
    slide: Slide,
    board: B,
    positions: Seq<Position>,
    accepted: bool,
)
    requires
        table.state.players.len() > 0,
        positions.len() == table.state.players.len(),
        positions[0] == table.state.players[0].info.goal,
        positions[0] != table.state.players[0].info.home || table.remaining.len() > 0,
        table.state.players[0].info.goals_reached < usize::MAX,
    ensures
        ({
            let reply = ReplyModel::Moved { slide, board, positions, accepted };
            let after = settled(table, reply);
            let before = table.state.players[0];
            let player = if accepted {
                after.state.players.last()
            } else {
                after.kicked.last()
            };
            &&& turn_end(table, reply) == if accepted {
                TurnEnd::Moved
            } else {
                TurnEnd::Kicked
            }
            &&& after.state.board == board
            &&& after.state.previous_slide == Some(slide)
            &&& table.remaining.len() > 0 ==> after.remaining == table.remaining.skip(1)
            &&& table.remaining.len() == 0 ==> after.remaining == table.remaining
            &&& others_moved_up(table.state.players, positions, after.state.players)
            &&& accepted ==> after.state.players.len() == positions.len() && after.kicked
                == table.kicked
            &&& !accepted ==> after.state.players.len() == positions.len() - 1
                && after.kicked.len() == table.kicked.len() + 1 && after.kicked.take(
                table.kicked.len() as int,
            ) == table.kicked
            &&& player.api == before.api
            &&& player.info.home == before.info.home
            &&& player.info.color == before.info.color
            &&& player.info.position == positions[0]
            &&& player.info.goals_reached == before.info.goals_reached + 1
            &&& table.remaining.len() > 0 ==> player.info.goal == table.remaining[0]
            &&& table.remaining.len() == 0 ==> player.info.goal == before.info.home
        }),
{
    let reply = ReplyModel::Moved { slide, board, positions, accepted };
    let after = settled(table, reply);
    if !accepted {
        assert(after.kicked.take(table.kicked.len() as int) =~= table.kicked);
    }
}

/// The move was made on the board: the spare tile was rotated first, and it is the board with the
/// rotated spare that the slide was made on, which led to `board` and carried everybody but the
/// player along; the player stands where they wanted to walk.
pub open spec fn made_on<'a, B: Board, A: ?Sized>(
    state: StateModel<B, Player<'a, A>>,
    choice: PlayerMove,
    rotated: B,
    board: B,
    positions: Seq<Position>,
) -> bool {
    &&& call_ensures(B::rotate_spare, (&state.board, choice.rotations), rotated)
    &&& call_ensures(B::slide_and_insert, (&rotated, choice.slide), board)
    &&& positions.len() == state.players.len()
    &&& positions[0] == choice.destination
    &&& forall|i: int|
        1 <= i < positions.len() ==> call_ensures(
            B::slide_position,
            (&rotated, choice.slide, state.players[i].info.position),
            #[trigger] positions[i],
        )
}

/// The board was asked about `choice` with all that is known of the game, and answered `valid`.
pub open spec fn ruled_on<'a, B: Board, A: ?Sized>(
    state: StateModel<B, Player<'a, A>>,
    choice: PlayerMove,
    view: State<B, FullPlayerInfo>,
    valid: bool,
) -> bool {
    &&& cloned(state.board, view.board)
    &&& view.previous_slide == state.previous_slide
    &&& shows_all(state.players, view.player_info@)
    &&& call_ensures(
        B::is_valid_move,
        (&view, choice.slide, choice.rotations, choice.destination),
        valid,
    )
}

/// The current player is asked for a turn, and is shown a copy of the board, the last slide, and
/// everybody's home, position and color. A player who cannot be asked has failed, and one who wants
/// nothing has passed; neither hears anything more.
pub proof fn law_player_is_asked<'a, B: Board, A: ?Sized>(
    state: StateModel<B, Player<'a, A>>,
    remaining: Seq<Position>,
    reply: ReplyModel<B>,
    calls: Seq<Call<'a, B, A>>,
)
    requires
        asked(state, remaining, reply, calls),
    ensures
        calls.len() > 0,
        calls[0] matches Call::TakeTurn { player, state: view, answer } && {
            &&& player == state.players[0].api
            &&& cloned(state.board, view.board)
            &&& view.previous_slide == state.previous_slide
            &&& shows_places(state.players, view.players)
            &&& answer is None <==> reply is Failed
            &&& answer == Some(None::<PlayerMove>) <==> reply is Passed
        },
        reply is Failed || reply is Passed || reply is Rejected ==> calls.len() == 1,
{
    if let Call::TakeTurn { player, state: view, answer } = calls[0] {
        law_player_view(state, view);
        if let Some(Some(choice)) = answer {
            let (full, valid) = law_wish_is_judged(state, remaining, reply, calls, choice);
        }
    }
}

/// A player who wants a move gets it exactly if the board rules so. Then the spare tile is rotated
/// as often as they want before the slide is made, the slide is the one they want, and they stand
/// where they want to walk.
pub proof fn law_wish_is_judged<'a, B: Board, A: ?Sized>(
    state: StateModel<B, Player<'a, A>>,
    remaining: Seq<Position>,
    reply: ReplyModel<B>,
    calls: Seq<Call<'a, B, A>>,
    choice: PlayerMove,
) -> (ruling: (State<B, FullPlayerInfo>, bool))
    requires
        asked(state, remaining, reply, calls),
        calls[0] matches Call::TakeTurn { answer, .. } && answer == Some(Some(choice)),
    ensures
        ruled_on(state, choice, ruling.0, ruling.1),
        !ruling.1 ==> reply is Rejected && calls.len() == 1,
        ruling.1 ==> (reply matches ReplyModel::Moved { slide, board, positions, accepted } && {
            &&& slide == choice.slide
            &&& exists|rotated: B| #[trigger] made_on(state, choice, rotated, board, positions)
        }),
{
    let rest = calls.skip(1);
    let (view, valid) = choose|view: State<B, FullPlayerInfo>, valid: bool|
        {
            &&& is_full_state(state, view@)
            &&& #[trigger] call_ensures(
                B::is_valid_move,
                (&view, choice.slide, choice.rotations, choice.destination),
                valid,
            )
            &&& if valid {
                carried_out(state, remaining, choice, reply, rest)
            } else {
                reply is Rejected && rest.len() == 0
            }
        };
    law_full_view(state, view@);
    if valid {
        if let ReplyModel::Moved { slide, board, positions, accepted } = reply {
            assert(slid(state, choice, board, positions));
            let turned = choose|turned: B|
                {
                    &&& #[trigger] call_ensures(
                        B::rotate_spare,
                        (&state.board, choice.rotations),
                        turned,
                    )
                    &&& call_ensures(B::slide_and_insert, (&turned, choice.slide), board)
                    &&& positions.len() == state.players.len()
                    &&& positions[0] == choice.destination
                    &&& forall|i: int|
                        1 <= i < positions.len() ==> carried(
                            turned,
                            choice.slide,
                            state.players[i].info.position,
                            #[trigger] positions[i],
                        )
                };
            assert forall|i: int| 1 <= i < positions.len() implies call_ensures(
                B::slide_position,
                (&turned, choice.slide, state.players[i].info.position),
                #[trigger] positions[i],
            ) by {
                assert(carried(
                    turned,
                    choice.slide,
                    state.players[i].info.position,
                    positions[i],
                ));
            }
            assert(made_on(state, choice, turned, board, positions));
        }
    }
    (view, valid)
}

/// A player who has moved hears of a goal exactly if they have come to theirs and have not won: of
/// the first goal that is left, or of home where none is. The answer to that is what counts as
/// taking notice; a player who hears nothing is taken to have taken notice.
pub proof fn law_goal_is_told<'a, B: Board, A: ?Sized>(
    state: StateModel<B, Player<'a, A>>,
    remaining: Seq<Position>,
    slide: Slide,
    board: B,
    positions: Seq<Position>,
    accepted: bool,
    calls: Seq<Call<'a, B, A>>,
)
    requires
        asked(state, remaining, ReplyModel::Moved { slide, board, positions, accepted }, calls),
    ensures
        positions[0] != state.players[0].info.goal ==> calls.len() == 1 && accepted,
        positions[0] == state.players[0].info.goal && positions[0] == state.players[0].info.home
            && remaining.len() == 0 ==> calls.len() == 1 && accepted,
        positions[0] == state.players[0].info.goal && (positions[0] != state.players[0].info.home
            || remaining.len() > 0) ==> {
            &&& calls.len() == 2
            &&& calls[1] == (Call::Setup {
                player: state.players[0].api,
                game: None::<StateModel<B, PubPlayerInfo>>,
                goal: if remaining.len() > 0 {
                    remaining[0]
                } else {
                    state.players[0].info.home
                },
                accepted,
            })
        },
{
    let reply = ReplyModel::Moved { slide, board, positions, accepted };
    if let Call::TakeTurn { answer: Some(Some(choice)), .. } = calls[0] {
        let rest = calls.skip(1);
        let (view, valid) = choose|view: State<B, FullPlayerInfo>, valid: bool|
            {
                &&& #[trigger] call_ensures(
                    B::is_valid_move,
                    (&view, choice.slide, choice.rotations, choice.destination),
                    valid,
                )
                &&& if valid {
                    carried_out(state, remaining, choice, reply, rest)
                } else {
                    reply is Rejected && rest.len() == 0
                }
            };
        assert(carried_out(state, remaining, choice, reply, rest));
        assert(positions[0] == choice.destination);
        if rest.len() > 0 {
            assert(rest[0] == calls[1]);
        }
    }
}

} // verus!
