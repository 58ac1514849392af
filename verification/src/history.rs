//! What the referee has said, to whom, in which order, and what it was answered.
//!
//! A [`History`] notes down each call that it makes. By convention, the referee calls players and
//! observers through it alone; contracts speak of what it has noted down.
use crate::grid::Position;
use crate::observer::Observer;
use crate::player::{FullPlayerInfo, PlayerAction, PlayerApi, PlayerApiResult, PubPlayerInfo};
use crate::state::{State, StateModel};
use vstd::prelude::*;

verus! {

/// One thing that was said to a player or to an observer. An observer is known by their place.
pub enum Call<'a, B, A: ?Sized> {
    /// A player was asked for a board; `proposal` is the board, unless that failed.
    ProposeBoard { player: &'a A, cols: u32, rows: u32, proposal: Option<B> },
    /// A player was told of a goal and perhaps of the game; `accepted` says whether that went well.
    Setup {
        player: &'a A,
        game: Option<StateModel<B, PubPlayerInfo>>,
        goal: Position,
        accepted: bool,
    },
    /// A player was asked for a turn; `answer` is what they want, unless that failed.
    TakeTurn {
        player: &'a A,
        state: StateModel<B, PubPlayerInfo>,
        answer: Option<PlayerAction>,
    },
    /// A player was told whether they won; `accepted` says whether that went well.
    Won { player: &'a A, did_win: bool, accepted: bool },
    /// An observer was shown the game.
    RecieveState { observer: nat, shown: StateModel<B, FullPlayerInfo> },
    /// An observer was told that the game is over.
    GameOver { observer: nat },
}

/// What a result says when the reason of a failure does not matter.
pub open spec fn success<T>(result: PlayerApiResult<T>) -> Option<T> {
    match result {
        Ok(value) => Some(value),
        Err(_) => None,
    }
}

/// The content of a state that may be missing.
pub open spec fn content<B, P>(state: Option<State<B, P>>) -> Option<StateModel<B, P>> {
    match state {
        Some(state) => Some(state@),
        None => None,
    }
}

/// A player was asked for a board, and `proposal` is what came back.
pub open spec fn asked_for_board<B, A: PlayerApi<B> + ?Sized>(
    player: &A,
    cols: u32,
    rows: u32,
    proposal: Option<B>,
) -> bool {
    exists|reply: PlayerApiResult<B>| #[trigger]
        call_ensures(A::propose_board0, (player, cols, rows), reply) && proposal == success(reply)
}

/// A player was told of a goal and perhaps of a game, and `accepted` says whether that went well.
pub open spec fn set_up<B, A: PlayerApi<B> + ?Sized>(
    player: &A,
    game: Option<StateModel<B, PubPlayerInfo>>,
    goal: Position,
    accepted: bool,
) -> bool {
    exists|told: Option<State<B, PubPlayerInfo>>, reply: PlayerApiResult<()>|
        {
            &&& #[trigger] call_ensures(A::setup, (player, told, goal), reply)
            &&& game == content(told)
            &&& accepted == reply is Ok
        }
}

/// A player was shown `state` and asked for a turn, and `answer` is what came back.
pub open spec fn asked_for_turn<B, A: PlayerApi<B> + ?Sized>(
    player: &A,
    state: StateModel<B, PubPlayerInfo>,
    answer: Option<PlayerAction>,
) -> bool {
    exists|view: State<B, PubPlayerInfo>, reply: PlayerApiResult<PlayerAction>|
        {
            &&& #[trigger] call_ensures(A::take_turn, (player, view), reply)
            &&& state == view@
            &&& answer == success(reply)
        }
}

/// A player was told whether they won, and `accepted` says whether that went well.
pub open spec fn told_outcome<B, A: PlayerApi<B> + ?Sized>(
    player: &A,
    did_win: bool,
    accepted: bool,
) -> bool {
    exists|reply: PlayerApiResult<()>| #[trigger]
        call_ensures(A::won, (player, did_win), reply) && accepted == reply is Ok
}

/// `call` was said to a player, and the player's answer is as it says.
pub open spec fn genuine<'a, B, A: PlayerApi<B> + ?Sized>(call: Call<'a, B, A>) -> bool {
    match call {
        Call::ProposeBoard { player, cols, rows, proposal } => asked_for_board::<B, A>(
            player,
            cols,
            rows,
            proposal,
        ),
        Call::Setup { player, game, goal, accepted } => set_up::<B, A>(
            player,
            game,
            goal,
            accepted,
        ),
        Call::TakeTurn { player, state, answer } => asked_for_turn::<B, A>(player, state, answer),
        Call::Won { player, did_win, accepted } => told_outcome::<B, A>(
            player,
            did_win,
            accepted,
        ),
        _ => false,
    }
}

/// `call` was said to one of `observers`.
pub open spec fn overheard<'a, B, A: ?Sized, O: Observer<B> + ?Sized>(
    observers: Seq<Box<O>>,
    call: Call<'a, B, A>,
) -> bool {
    match call {
        Call::RecieveState { observer, shown } => observer < observers.len() && exists|
            view: State<B, FullPlayerInfo>,
        | #[trigger]
            call_ensures(O::recieve_state, (&*observers[observer as int], view), ()) && shown
                == view@,
        Call::GameOver { observer } => observer < observers.len() && call_ensures(
            O::game_over,
            (&*observers[observer as int],),
            (),
        ),
        _ => false,
    }
}

/// Between `before` and `after` players were spoken to, and nobody else.
pub open spec fn spoke<'a, B, A: PlayerApi<B> + ?Sized>(
    before: Seq<Call<'a, B, A>>,
    after: Seq<Call<'a, B, A>>,
) -> bool {
    &&& before.len() <= after.len()
    &&& after.take(before.len() as int) == before
    &&& forall|i: int| before.len() <= i < after.len() ==> genuine(#[trigger] after[i])
}

/// Between `before` and `after` players and `observers` were spoken to.
pub open spec fn spoke_before<'a, B, A: PlayerApi<B> + ?Sized, O: Observer<B> + ?Sized>(
    observers: Seq<Box<O>>,
    before: Seq<Call<'a, B, A>>,
    after: Seq<Call<'a, B, A>>,
) -> bool {
    &&& before.len() <= after.len()
    &&& after.take(before.len() as int) == before
    &&& forall|i: int|
        before.len() <= i < after.len() ==> genuine(#[trigger] after[i]) || overheard(
            observers,
            after[i],
        )
}

/// Between `before` and `after` `observers` were spoken to, and nobody else.
pub open spec fn announced<'a, B, A: ?Sized, O: Observer<B> + ?Sized>(
    observers: Seq<Box<O>>,
    before: Seq<Call<'a, B, A>>,
    after: Seq<Call<'a, B, A>>,
) -> bool {
    &&& before.len() <= after.len()
    &&& after.take(before.len() as int) == before
    &&& forall|i: int| before.len() <= i < after.len() ==> overheard(observers, #[trigger] after[i])
}

/// What was said between `before` and `after`.
pub open spec fn since<'a, B, A: ?Sized>(
    before: Seq<Call<'a, B, A>>,
    after: Seq<Call<'a, B, A>>,
) -> Seq<Call<'a, B, A>> {
    after.skip(before.len() as int)
}

/// What was said in several parts, one after the other.
pub open spec fn joined<T>(parts: Seq<Seq<T>>) -> Seq<T>
    decreases parts.len(),
{
    if parts.len() == 0 {
        Seq::empty()
    } else {
        joined(parts.drop_last()) + parts.last()
    }
}

/// Two stretches of a history make one.
pub proof fn lemma_since<'a, B, A: ?Sized>(
    before: Seq<Call<'a, B, A>>,
    middle: Seq<Call<'a, B, A>>,
    after: Seq<Call<'a, B, A>>,
)
    requires
        before.len() <= middle.len() <= after.len(),
        middle.take(before.len() as int) == before,
        after.take(middle.len() as int) == middle,
    ensures
        after.take(before.len() as int) == before,
        since(before, after) == since(before, middle) + since(middle, after),
        forall|i: int| 0 <= i < middle.len() ==> #[trigger] after[i] == middle[i],
{
    assert forall|i: int| 0 <= i < middle.len() implies #[trigger] after[i] == middle[i] by {
        assert(after.take(middle.len() as int)[i] == after[i]);
    }
    assert(after.take(before.len() as int) =~= middle.take(before.len() as int));
    assert(since(before, after) =~= since(before, middle) + since(middle, after));
}

/// The history of what one referee has said.
pub struct History<'a, B, A: ?Sized> {
    calls: Ghost<Seq<Call<'a, B, A>>>,
}

impl<'a, B, A: ?Sized> View for History<'a, B, A> {
    type V = Seq<Call<'a, B, A>>;

    closed spec fn view(&self) -> Seq<Call<'a, B, A>> {
        self.calls@
    }
}

impl<'a, B, A: ?Sized> History<'a, B, A> {
    /// Nothing has been said yet.
    pub fn new() -> (history: Self)
        ensures
            history@ == Seq::<Call<'a, B, A>>::empty(),
    {
        History { calls: Ghost(Seq::empty()) }
    }

    /// Asks a player for a board.
    pub(crate) fn propose_board0(
        &mut self,
        player: &'a A,
        cols: u32,
        rows: u32,
    ) -> (answer: PlayerApiResult<B>) where A: PlayerApi<B>
        ensures
            final(self)@ == old(self)@.push(
                Call::ProposeBoard { player, cols, rows, proposal: success(answer) },
            ),
            genuine(final(self)@.last()),
    {
        let answer = player.propose_board0(cols, rows);
        assert(call_ensures(A::propose_board0, (player, cols, rows), answer));
        self.calls = Ghost(
            self.calls@.push(Call::ProposeBoard { player, cols, rows, proposal: success(answer) }),
        );
        answer
    }

    /// Tells a player of a goal, and perhaps of the game.
    pub(crate) fn setup(
        &mut self,
        player: &'a A,
        state: Option<State<B, PubPlayerInfo>>,
        goal: Position,
    ) -> (accepted: bool) where A: PlayerApi<B>
        ensures
            final(self)@ == old(self)@.push(
                Call::Setup { player, game: content(state), goal, accepted },
            ),
            genuine(final(self)@.last()),
    {
        let answer = player.setup(state, goal);
        assert(call_ensures(A::setup, (player, state, goal), answer));
        let accepted = answer.is_ok();
        self.calls = Ghost(
            self.calls@.push(Call::Setup { player, game: content(state), goal, accepted }),
        );
        accepted
    }

    /// Asks a player for a turn.
    pub(crate) fn take_turn(
        &mut self,
        player: &'a A,
        state: State<B, PubPlayerInfo>,
    ) -> (answer: PlayerApiResult<PlayerAction>) where A: PlayerApi<B>
        ensures
            final(self)@ == old(self)@.push(
                Call::TakeTurn { player, state: state@, answer: success(answer) },
            ),
            genuine(final(self)@.last()),
    {
        let answer = player.take_turn(state);
        assert(call_ensures(A::take_turn, (player, state), answer));
        self.calls = Ghost(
            self.calls@.push(Call::TakeTurn { player, state: state@, answer: success(answer) }),
        );
        answer
    }

    /// Tells a player whether they won.
    pub(crate) fn won(&mut self, player: &'a A, did_win: bool) -> (accepted: bool) where
        A: PlayerApi<B>,

        ensures
            final(self)@ == old(self)@.push(Call::Won { player, did_win, accepted }),
            genuine(final(self)@.last()),
    {
        let answer = player.won(did_win);
        assert(call_ensures(A::won, (player, did_win), answer));
        let accepted = answer.is_ok();
        self.calls = Ghost(self.calls@.push(Call::Won { player, did_win, accepted }));
        accepted
    }

    /// Shows the game to the observer at `index`.
    pub(crate) fn recieve_state<O: Observer<B> + ?Sized>(
        &mut self,
        observers: &Vec<Box<O>>,
        index: usize,
        state: State<B, FullPlayerInfo>,
    )
        requires
            index < observers@.len(),
        ensures
            final(self)@ == old(self)@.push(
                Call::RecieveState { observer: index as nat, shown: state@ },
            ),
            overheard(observers@, final(self)@.last()),
    {
        observers[index].recieve_state(state);
        assert(call_ensures(O::recieve_state, (&*observers@[index as int], state), ()));
        self.calls = Ghost(
            self.calls@.push(Call::RecieveState { observer: index as nat, shown: state@ }),
        );
    }

    /// Tells the observer at `index` that the game is over.
    pub(crate) fn game_over<O: Observer<B> + ?Sized>(
        &mut self,
        observers: &Vec<Box<O>>,
        index: usize,
    )
        requires
            index < observers@.len(),
        ensures
            final(self)@ == old(self)@.push(Call::GameOver { observer: index as nat }),
            overheard(observers@, final(self)@.last()),
    {
        observers[index].game_over();
        self.calls = Ghost(self.calls@.push(Call::GameOver { observer: index as nat }));
    }
}

} // verus!
