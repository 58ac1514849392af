//! What is shown of a game, field by field.
use crate::history::Call;
use crate::laws::copies_are_faithful;
use crate::player::{FullPlayerInfo, Player, PubPlayerInfo};
use crate::round::{shown, shown_to_all};
use crate::state::{is_full_state, is_player_state, State, StateModel};
use vstd::prelude::*;

verus! {

/// The content of a state is its board, its players in the order of their turns, and the slide that
/// was made last.
pub proof fn law_content_of_a_state<B, P>(state: State<B, P>)
    ensures
        state@.board == state.board,
        state@.players == state.player_info@,
        state@.previous_slide == state.previous_slide,
{
}

/// What everybody may know of a player is their home, their position and their color.
pub proof fn law_public_info(info: FullPlayerInfo, public: PubPlayerInfo)
    requires
        call_ensures(FullPlayerInfo::public, (&info,), public),
    ensures
        public.home == info.home,
        public.position == info.position,
        public.color == info.color,
{
}

/// `view` shows of each of `players`, in their order, home, position and color.
pub open spec fn shows_places<'a, A: ?Sized>(
    players: Seq<Player<'a, A>>,
    view: Seq<PubPlayerInfo>,
) -> bool {
    &&& view.len() == players.len()
    &&& forall|i: int|
        0 <= i < view.len() ==> {
            &&& (#[trigger] view[i]).home == players[i].info.home
            &&& view[i].position == players[i].info.position
            &&& view[i].color == players[i].info.color
        }
}

/// `view` shows all that is known of each of `players`, in their order.
pub open spec fn shows_all<'a, A: ?Sized>(
    players: Seq<Player<'a, A>>,
    view: Seq<FullPlayerInfo>,
) -> bool {
    &&& view.len() == players.len()
    &&& forall|i: int|
        0 <= i < view.len() ==> {
            &&& (#[trigger] view[i]).home == players[i].info.home
            &&& view[i].position == players[i].info.position
            &&& view[i].goal == players[i].info.goal
            &&& view[i].goals_reached == players[i].info.goals_reached
            &&& view[i].color == players[i].info.color
        }
}

/// A player is shown a copy of the board, the last slide, and of everybody home, position and
/// color.
pub proof fn law_player_view<'a, B: Clone, A: ?Sized>(
    state: StateModel<B, Player<'a, A>>,
    view: StateModel<B, PubPlayerInfo>,
)
    requires
        is_player_state(state, view),
    ensures
        cloned(state.board, view.board),
        view.previous_slide == state.previous_slide,
        shows_places(state.players, view.players),
{
}

/// What [`law_player_view`] says, of the function that makes the view.
pub proof fn law_to_player_state<'a, B: Clone, A: ?Sized>(
    state: State<B, Player<'a, A>>,
    view: State<B, PubPlayerInfo>,
)
    requires
        call_ensures(State::<B, Player<'a, A>>::to_player_state, (&state,), view),
    ensures
        cloned(state.board, view.board),
        view.previous_slide == state.previous_slide,
        shows_places(state.player_info@, view.player_info@),
{
    law_player_view(state@, view@);
}

/// Two games that agree in the board, the last slide and everybody's home, position and color look
/// the same to a player, whatever the goals, the counts of goals and the lines to the players are.
pub proof fn law_goals_are_hidden<'a, B: Clone, A: ?Sized>(
    one: StateModel<B, Player<'a, A>>,
    other: StateModel<B, Player<'a, A>>,
    view: StateModel<B, PubPlayerInfo>,
    other_view: StateModel<B, PubPlayerInfo>,
)
    requires
        copies_are_faithful::<B>(),
        is_player_state(one, view),
        is_player_state(other, other_view),
        one.board == other.board,
        one.previous_slide == other.previous_slide,
        one.players.len() == other.players.len(),
        forall|i: int|
            0 <= i < one.players.len() ==> {
                &&& (#[trigger] one.players[i]).info.home == other.players[i].info.home
                &&& one.players[i].info.position == other.players[i].info.position
                &&& one.players[i].info.color == other.players[i].info.color
            },
    ensures
        view == other_view,
{
    law_player_view(one, view);
    law_player_view(other, other_view);
    assert forall|i: int| 0 <= i < view.players.len() implies #[trigger] view.players[i]
        == other_view.players[i] by {
        assert(one.players[i].info.home == other.players[i].info.home);
        assert(other_view.players[i].home == other.players[i].info.home);
    }
    assert(view.players =~= other_view.players);
}

/// The referee and the observers see a copy of the board, the last slide, and all that is known of
/// everybody.
pub proof fn law_full_view<'a, B: Clone, A: ?Sized>(
    state: StateModel<B, Player<'a, A>>,
    view: StateModel<B, FullPlayerInfo>,
)
    requires
        is_full_state(state, view),
    ensures
        cloned(state.board, view.board),
        view.previous_slide == state.previous_slide,
        shows_all(state.players, view.players),
{
}

/// What [`law_full_view`] says, of the function that makes the view.
pub proof fn law_to_full_state<'a, B: Clone, A: ?Sized>(
    state: State<B, Player<'a, A>>,
    view: State<B, FullPlayerInfo>,
)
    requires
        call_ensures(State::<B, Player<'a, A>>::to_full_state, (&state,), view),
    ensures
        cloned(state.board, view.board),
        view.previous_slide == state.previous_slide,
        shows_all(state.player_info@, view.player_info@),
{
    law_full_view(state@, view@);
}

/// `calls` show the game once to each of so many observers, in their order, with all that is known
/// of everybody, and hold nothing else.
pub open spec fn all_see<'a, B: Clone, A: ?Sized>(
    observers: nat,
    state: StateModel<B, Player<'a, A>>,
    calls: Seq<Call<'a, B, A>>,
) -> bool {
    &&& calls.len() == observers
    &&& forall|i: int|
        0 <= i < calls.len() ==> (#[trigger] calls[i] matches Call::RecieveState {
            observer,
            shown,
        } && {
            &&& observer == i
            &&& cloned(state.board, shown.board)
            &&& shown.previous_slide == state.previous_slide
            &&& shows_all(state.players, shown.players)
        })
}

/// Showing the game to the observers shows it once to each of them, in their order, with all that
/// is known of everybody.
pub proof fn law_observers_see_all<'a, B: Clone, A: ?Sized>(
    observers: nat,
    state: StateModel<B, Player<'a, A>>,
    calls: Seq<Call<'a, B, A>>,
)
    requires
        shown_to_all(observers, state, calls),
    ensures
        all_see(observers, state, calls),
{
    assert forall|i: int| 0 <= i < calls.len() implies (
    #[trigger] calls[i] matches Call::RecieveState { observer, shown: view } && {
        &&& observer == i
        &&& cloned(state.board, view.board)
        &&& view.previous_slide == state.previous_slide
        &&& shows_all(state.players, view.players)
    }) by {
        assert(shown(state, calls, i));
        if let Call::RecieveState { observer, shown: view } = calls[i] {
            law_full_view(state, view);
        }
    }
}

} // verus!
