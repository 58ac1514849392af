use referee::board::{Board, CompassDirection, Slide};
use referee::config::Config;
use referee::grid::Position;
use referee::history::History;
use referee::observer::Observer;
use referee::player::{
    Color, FullPlayerInfo, Player, PlayerAction, PlayerApi, PlayerApiError, PlayerApiResult,
    PlayerMove, PubPlayerInfo,
};
use referee::random::Random;
use referee::referee::{GameResult, Referee, ROUNDS};
use referee::seating::SeatingError;
use referee::state::State;
use std::cell::{Cell, RefCell};
use std::collections::VecDeque;
use std::rc::Rc;

const RED: Color = Color { red: 255, green: 0, blue: 0 };
const BLUE: Color = Color { red: 0, green: 0, blue: 255 };

/// A maze without walls: a player may walk to any tile.
#[derive(Clone, Debug, PartialEq)]
struct OpenBoard {
    cols: usize,
    rows: usize,
    turns_of_spare: usize,
    slides: usize,
    homes: usize,
    goals: usize,
}

impl OpenBoard {
    fn inner_tiles(&self) -> Vec<Position> {
        let mut tiles = vec![];
        for a in (1..self.rows).step_by(2) {
            for b in (1..self.cols).step_by(2) {
                tiles.push((a, b));
            }
        }
        tiles
    }
}

impl Board for OpenBoard {
    fn default_board(cols: u32, rows: u32) -> Self {
        OpenBoard {
            cols: cols as usize,
            rows: rows as usize,
            turns_of_spare: 0,
            slides: 0,
            homes: 9,
            goals: 9,
        }
    }

    fn new_slide(&self, index: usize, direction: CompassDirection) -> Option<Slide> {
        if index % 2 == 0 && index < self.rows {
            Some(Slide { index, direction })
        } else {
            None
        }
    }

    fn possible_homes(&self) -> Vec<Position> {
        self.inner_tiles().into_iter().take(self.homes).collect()
    }

    fn possible_goals(&self) -> Vec<Position> {
        self.inner_tiles().into_iter().take(self.goals).collect()
    }

    fn is_valid_move(
        state: &State<Self, FullPlayerInfo>,
        slide: Slide,
        _rotations: usize,
        destination: Position,
    ) -> bool {
        let opposite = match slide.direction {
            CompassDirection::North => CompassDirection::South,
            CompassDirection::South => CompassDirection::North,
            CompassDirection::East => CompassDirection::West,
            CompassDirection::West => CompassDirection::East,
        };
        slide.index % 2 == 0
            && slide.index < state.board.rows
            && destination.0 < state.board.rows
            && destination.1 < state.board.cols
            && state.previous_slide != Some(Slide { index: slide.index, direction: opposite })
    }

    fn rotate_spare(&self, rotations: usize) -> Self {
        OpenBoard { turns_of_spare: (self.turns_of_spare + rotations) % 4, ..self.clone() }
    }

    fn slide_and_insert(&self, _slide: Slide) -> Self {
        OpenBoard { slides: self.slides + 1, ..self.clone() }
    }

    fn slide_position(&self, slide: Slide, at: Position) -> Position {
        match slide.direction {
            CompassDirection::East if at.0 == slide.index => (at.0, (at.1 + 1) % self.cols),
            CompassDirection::West if at.0 == slide.index => {
                (at.0, (at.1 + self.cols - 1) % self.cols)
            }
            CompassDirection::South if at.1 == slide.index => ((at.0 + 1) % self.rows, at.1),
            CompassDirection::North if at.1 == slide.index => {
                ((at.0 + self.rows - 1) % self.rows, at.1)
            }
            _ => at,
        }
    }
}

type AnyPlayer = dyn PlayerApi<OpenBoard>;
type AnyObserver = dyn Observer<OpenBoard>;

/// Passes every turn, and remembers what it hears.
#[derive(Default)]
struct MockPlayer {
    turns_taken: Cell<usize>,
    seen: RefCell<Option<Vec<PubPlayerInfo>>>,
    goal: Cell<Option<Position>>,
    won: Cell<Option<bool>>,
}

impl PlayerApi<OpenBoard> for MockPlayer {
    fn name(&self) -> PlayerApiResult<String> {
        Ok("bob".to_string())
    }

    fn propose_board0(&self, _cols: u32, _rows: u32) -> PlayerApiResult<OpenBoard> {
        Ok(OpenBoard::default_board(3, 3))
    }

    fn setup(
        &self,
        state: Option<State<OpenBoard, PubPlayerInfo>>,
        goal: Position,
    ) -> PlayerApiResult<()> {
        self.goal.set(Some(goal));
        *self.seen.borrow_mut() = state.map(|s| s.player_info.into_iter().collect());
        Ok(())
    }

    fn take_turn(&self, state: State<OpenBoard, PubPlayerInfo>) -> PlayerApiResult<PlayerAction> {
        self.turns_taken.set(self.turns_taken.get() + 1);
        *self.seen.borrow_mut() = Some(state.player_info.into_iter().collect());
        Ok(None)
    }

    fn won(&self, did_win: bool) -> PlayerApiResult<()> {
        self.won.set(Some(did_win));
        Ok(())
    }
}

/// Walks straight to the goal, if there is no other script. An empty script passes.
struct Seeker {
    name: String,
    goal: Cell<Option<Position>>,
    goals_heard: RefCell<Vec<Position>>,
    seats_seen: RefCell<Vec<Vec<Position>>>,
    script: RefCell<Option<VecDeque<PlayerApiResult<PlayerAction>>>>,
    setups_before_failure: Cell<usize>,
    fails_at_end: bool,
    has_no_board: bool,
    boards_asked_for: RefCell<Vec<(u32, u32)>>,
    turns_taken: Cell<usize>,
    won: Cell<Option<bool>>,
}

fn broken<T>() -> PlayerApiResult<T> {
    Err(PlayerApiError::Other("gone".to_string()))
}

fn seeker(name: &str) -> Seeker {
    Seeker {
        name: name.to_string(),
        goal: Cell::new(None),
        goals_heard: RefCell::new(vec![]),
        seats_seen: RefCell::new(vec![]),
        script: RefCell::new(None),
        setups_before_failure: Cell::new(usize::MAX),
        fails_at_end: false,
        has_no_board: false,
        boards_asked_for: RefCell::new(vec![]),
        turns_taken: Cell::new(0),
        won: Cell::new(None),
    }
}

fn scripted(name: &str, script: Vec<PlayerApiResult<PlayerAction>>) -> Seeker {
    Seeker { script: RefCell::new(Some(script.into())), ..seeker(name) }
}

fn passer(name: &str) -> Seeker {
    scripted(name, vec![])
}

fn walk(destination: Position) -> PlayerApiResult<PlayerAction> {
    Ok(Some(PlayerMove {
        slide: Slide { index: 0, direction: CompassDirection::East },
        rotations: 1,
        destination,
    }))
}

fn illegal() -> PlayerApiResult<PlayerAction> {
    Ok(Some(PlayerMove {
        slide: Slide { index: 1, direction: CompassDirection::East },
        rotations: 0,
        destination: (1, 1),
    }))
}

impl PlayerApi<OpenBoard> for Seeker {
    fn name(&self) -> PlayerApiResult<String> {
        Ok(self.name.clone())
    }

    fn propose_board0(&self, cols: u32, rows: u32) -> PlayerApiResult<OpenBoard> {
        self.boards_asked_for.borrow_mut().push((cols, rows));
        if self.has_no_board {
            broken()
        } else {
            Ok(OpenBoard::default_board(cols, rows))
        }
    }

    fn setup(
        &self,
        state: Option<State<OpenBoard, PubPlayerInfo>>,
        goal: Position,
    ) -> PlayerApiResult<()> {
        if let Some(state) = state {
            self.seats_seen
                .borrow_mut()
                .push(state.player_info.iter().map(|info| info.home).collect());
        }
        self.goals_heard.borrow_mut().push(goal);
        self.goal.set(Some(goal));
        if self.setups_before_failure.get() == 0 {
            return broken();
        }
        self.setups_before_failure.set(self.setups_before_failure.get() - 1);
        Ok(())
    }

    fn take_turn(&self, _state: State<OpenBoard, PubPlayerInfo>) -> PlayerApiResult<PlayerAction> {
        self.turns_taken.set(self.turns_taken.get() + 1);
        match &mut *self.script.borrow_mut() {
            Some(script) => script.pop_front().unwrap_or(Ok(None)),
            None => walk(self.goal.get().unwrap()),
        }
    }

    fn won(&self, did_win: bool) -> PlayerApiResult<()> {
        self.won.set(Some(did_win));
        if self.fails_at_end {
            broken()
        } else {
            Ok(())
        }
    }
}

/// Remembers the tiles of the players in each state it is shown.
#[derive(Default)]
struct Onlooker {
    shown: Rc<RefCell<Vec<Vec<Position>>>>,
    over: Rc<Cell<usize>>,
}

impl Observer<OpenBoard> for Onlooker {
    fn recieve_state(&self, state: State<OpenBoard, FullPlayerInfo>) {
        self.shown.borrow_mut().push(state.player_info.iter().map(|info| info.position).collect());
    }

    fn game_over(&self) {
        self.over.set(self.over.get() + 1);
    }
}

fn nobody_watches() -> Vec<Box<AnyObserver>> {
    vec![]
}

fn referee_of<'a>(seed: u64, multiple_goals: bool) -> Referee<'a, OpenBoard, AnyPlayer> {
    Referee {
        rand: Random::new(seed),
        config: Config { multiple_goals },
        history: History::new(),
    }
}

fn player<'a>(
    api: &'a AnyPlayer,
    home: Position,
    position: Position,
    goal: Position,
) -> Player<'a, AnyPlayer> {
    Player::new(api, FullPlayerInfo::new(home, position, goal, RED))
}

fn table<'a>(players: Vec<Player<'a, AnyPlayer>>) -> State<OpenBoard, Player<'a, AnyPlayer>> {
    State::new(OpenBoard::default_board(7, 7), players.into())
}

fn names(players: &[Player<'_, AnyPlayer>]) -> Vec<String> {
    players.iter().map(|player| player.api.name().unwrap()).collect()
}

fn seats(state: &State<OpenBoard, Player<'_, AnyPlayer>>) -> Vec<String> {
    state.player_info.iter().map(|player| player.api.name().unwrap()).collect()
}

#[test]
fn test_get_player_boards() {
    let mut referee = Referee::new(0);
    let bill = seeker("bill");
    let mut players: Vec<&AnyPlayer> = vec![&bill];
    let board: OpenBoard = referee.get_player_boards(&players);
    assert_eq!(board, OpenBoard::default_board(7, 7));
    let mock = MockPlayer::default();
    players.push(&mock);
    players.rotate_left(1);
    let board: OpenBoard = referee.get_player_boards(&players);
    assert_eq!(board, OpenBoard::default_board(3, 3));
}

#[test]
fn test_get_initial_goals() {
    let referee = referee_of(0, false);
    let state = table(vec![]);
    assert!(referee.get_initial_goals(&state).is_empty());
}

#[test]
fn test_get_initial_goals_multiple() {
    let mut state = table(vec![]);
    let mock = MockPlayer::default();
    let other = seeker("jill");
    let bob =
        Player::new(&mock as &AnyPlayer, FullPlayerInfo::new((1, 1), (1, 1), (1, 5), RED));
    let jill =
        Player::new(&other as &AnyPlayer, FullPlayerInfo::new((1, 3), (1, 3), (1, 3), BLUE));
    state.add_player(bob);
    state.add_player(jill);

    let referee = referee_of(0, true);
    let init_goals = referee.get_initial_goals(&state);
    assert_eq!(init_goals.len(), 7);
    assert_eq!(init_goals, vec![(1, 1), (3, 1), (3, 3), (3, 5), (5, 1), (5, 3), (5, 5)]);
}

#[test]
fn test_make_initial_state() {
    let mut referee = Referee::new(1);
    let one = MockPlayer::default();
    let two = MockPlayer::default();
    let players: Vec<&AnyPlayer> = vec![&one, &two];
    let mut state =
        referee.make_initial_state(players, OpenBoard::default_board(7, 7)).unwrap();
    assert_eq!(state.current_player_info().info.home, (1, 3));
    assert_eq!(state.current_player_info().info.goal, (1, 1));
    assert_eq!(state.current_player_info().info.position, (1, 3));
    state.next_player();
    assert_eq!(state.current_player_info().info.home, (5, 3));
    assert_eq!(state.current_player_info().info.goal, (1, 3));
    assert_eq!(state.current_player_info().info.position, (5, 3));
}

#[test]
fn test_broadcast_inital_state() {
    let mut referee = Referee::new(0);
    let player = MockPlayer::default();
    let players: Vec<&AnyPlayer> = vec![&player];
    let mut state =
        referee.make_initial_state(players, OpenBoard::default_board(7, 7)).unwrap();
    assert_eq!(player.goal.get(), None);
    referee.broadcast_initial_state(&mut state, &mut vec![]);
    assert_eq!(state.current_player_info().info.goal, player.goal.get().unwrap());
}

#[test]
fn test_next_player() {
    let mut state = table(vec![]);
    let mock = MockPlayer::default();
    let other = seeker("jill");
    state.add_player(Player::new(
        &mock as &AnyPlayer,
        FullPlayerInfo::new((1, 1), (1, 1), (0, 5), RED),
    ));
    state.add_player(Player::new(
        &other as &AnyPlayer,
        FullPlayerInfo::new((1, 3), (1, 3), (0, 3), BLUE),
    ));

    assert_eq!(state.player_info[0].api.name().unwrap(), "bob");
    assert_eq!(state.player_info[0].info.color, RED);
    assert_eq!(state.player_info[1].api.name().unwrap(), "jill");
    assert_eq!(state.player_info[1].info.color, BLUE);
    state.next_player();
    assert_eq!(state.player_info[1].api.name().unwrap(), "bob");
    assert_eq!(state.player_info[1].info.color, RED);
    assert_eq!(state.player_info[0].api.name().unwrap(), "jill");
    assert_eq!(state.player_info[0].info.color, BLUE);
}

#[test]
fn test_calculate_winners() {
    let mut state = table(vec![]);
    let mock = MockPlayer::default();
    let mut reached_goal =
        Player::new(&mock as &AnyPlayer, FullPlayerInfo::new((0, 0), (1, 0), (0, 5), RED));
    reached_goal.info.award((0, 5));
    state.add_player(reached_goal);
    let other = seeker("jill");
    state.add_player(Player::new(
        &other as &AnyPlayer,
        FullPlayerInfo::new((1, 0), (1, 6), (6, 1), BLUE),
    ));

    let (winners, losers) = Referee::calculate_winners(&state);
    assert_eq!(winners.len(), 1);
    assert_eq!(winners[0].api.name().unwrap(), "bob");
    assert_eq!(losers.len(), 1);
}

#[test]
fn test_broadcast_winners() {
    let mut referee = Referee::new(0);

    let player = MockPlayer::default();
    let players: Vec<&AnyPlayer> = vec![&player];
    assert_eq!(player.won.get(), None);
    referee.run_game(players, &nobody_watches()).unwrap();
    assert_eq!(player.won.get(), Some(true));

    let player = MockPlayer::default();
    let joe = seeker("joe");
    let players: Vec<&AnyPlayer> = vec![&joe, &player];
    assert_eq!(player.won.get(), None);
    referee.run_game(players, &nobody_watches()).unwrap();
    assert_eq!(player.won.get(), Some(false));
}

#[test]
fn test_run_game() {
    let mut referee = Referee::new(1);

    let player = MockPlayer::default();
    let players: Vec<&AnyPlayer> = vec![&player];
    let GameResult { winners, kicked } =
        referee.run_game(players, &nobody_watches()).unwrap();
    assert_eq!(winners[0].api.name().unwrap(), player.name().unwrap());
    assert_eq!(player.turns_taken.get(), 1);
    assert!(kicked.is_empty());

    let player = MockPlayer::default();
    let joe = seeker("joe");
    let players: Vec<&AnyPlayer> = vec![&joe, &player];
    let GameResult { winners, kicked } =
        referee.run_game(players, &nobody_watches()).unwrap();
    assert_eq!(winners[0].api.name().unwrap(), "joe");
    assert_eq!(winners.len(), 1);
    assert!(kicked.is_empty());

    let mock = MockPlayer::default();
    let jill = seeker("jill");
    let joe = seeker("joe");
    let players: Vec<&AnyPlayer> = vec![&jill, &joe, &mock];
    assert_eq!(players[0].propose_board0(7, 7).unwrap(), referee.get_player_boards(&players));
    assert_eq!(players[0].propose_board0(7, 7).unwrap(), OpenBoard::default_board(7, 7));
    let GameResult { winners, kicked } =
        referee.run_game(players, &nobody_watches()).unwrap();
    assert_eq!(winners.len(), 1);
    assert_eq!(winners[0].api.name().unwrap(), "jill");
    assert!(kicked.is_empty());
}

#[test]
fn test_run_from_state() {
    let mut referee = Referee::new(1);
    let one = passer("bob");
    let two = passer("bob");
    let mut state = table(vec![
        player(&one, (1, 3), (0, 1), (3, 3)),
        player(&two, (1, 3), (0, 1), (3, 3)),
    ]);
    state.previous_slide = state.board.new_slide(0, CompassDirection::West);

    let GameResult { winners, kicked } = referee.run_from_state(&mut state, &nobody_watches());
    assert_eq!(winners.len(), 2);
    assert_eq!(kicked.len(), 0);
}

#[test]
fn homes_and_goals_run_out() {
    let one = passer("a");
    let two = passer("b");
    let three = passer("c");
    let players: Vec<&AnyPlayer> = vec![&one, &two, &three];
    let mut referee = Referee::new(5);
    let short = |homes: usize, goals: usize| OpenBoard {
        homes,
        goals,
        ..OpenBoard::default_board(7, 7)
    };
    assert!(matches!(
        referee.make_initial_state(players.clone(), short(2, 9)),
        Err(SeatingError::NotEnoughHomes)
    ));
    assert!(matches!(
        referee.make_initial_state(players.clone(), short(2, 2)),
        Err(SeatingError::NotEnoughHomes)
    ));
    assert!(matches!(
        referee.make_initial_state(players.clone(), short(2, 1)),
        Err(SeatingError::NotEnoughGoals)
    ));
    assert!(matches!(
        referee.make_initial_state(players.clone(), short(9, 2)),
        Err(SeatingError::NotEnoughGoals)
    ));
    assert_eq!(referee.rand, Random::new(5));
    assert!(referee.make_initial_state(players, short(3, 3)).is_ok());
}

#[test]
fn everyone_has_a_home_and_a_goal_of_their_own() {
    for seed in 0..20u64 {
        let apis: Vec<Seeker> = (0..9).map(|_| passer("p")).collect();
        let players: Vec<&AnyPlayer> = apis.iter().map(|api| api as &AnyPlayer).collect();
        let state = Referee::new(seed)
            .make_initial_state(players, OpenBoard::default_board(7, 7))
            .unwrap();
        let mut homes: Vec<Position> = state.player_info.iter().map(|p| p.info.home).collect();
        let goals: Vec<Position> = state.player_info.iter().map(|p| p.info.goal).collect();
        assert!(state.player_info.iter().all(|p| p.info.position == p.info.home));
        assert_eq!(goals, OpenBoard::default_board(7, 7).possible_goals());
        homes.sort();
        assert_eq!(homes, OpenBoard::default_board(7, 7).possible_homes());
    }
}

#[test]
fn equal_seeds_seat_alike() {
    let seat = |seed: u64| {
        let apis: Vec<Seeker> = (0..4).map(|_| passer("p")).collect();
        let players: Vec<&AnyPlayer> = apis.iter().map(|api| api as &AnyPlayer).collect();
        let state = Referee::new(seed)
            .make_initial_state(players, OpenBoard::default_board(7, 7))
            .unwrap();
        state.player_info.iter().map(|p| p.info).collect::<Vec<FullPlayerInfo>>()
    };
    assert_eq!(seat(3), seat(3));
    assert_ne!(seat(3), seat(4));
}

#[test]
fn everyone_is_set_up_though_others_fail() {
    let one = Seeker { setups_before_failure: Cell::new(0), ..passer("one") };
    let two = Seeker { setups_before_failure: Cell::new(0), ..passer("two") };
    let three = passer("three");
    let four = passer("four");
    let mut state = table(vec![
        player(&one, (1, 1), (1, 1), (5, 1)),
        player(&two, (1, 3), (1, 3), (5, 3)),
        player(&three, (1, 5), (1, 5), (5, 5)),
        player(&four, (3, 1), (3, 1), (3, 5)),
    ]);
    let mut kicked = vec![];
    Referee::new(0).broadcast_initial_state(&mut state, &mut kicked);
    assert_eq!(names(&kicked), vec!["one", "two"]);
    assert_eq!(seats(&state), vec!["three", "four"]);
    assert_eq!(*three.goals_heard.borrow(), vec![(5, 5)]);
    assert_eq!(*four.goals_heard.borrow(), vec![(3, 5)]);
    // Whoever was thrown out is no longer shown.
    assert_eq!(*one.seats_seen.borrow(), vec![vec![(1, 1), (1, 3), (1, 5), (3, 1)]]);
    assert_eq!(*two.seats_seen.borrow(), vec![vec![(1, 3), (1, 5), (3, 1)]]);
    assert_eq!(*three.seats_seen.borrow(), vec![vec![(1, 5), (3, 1)]]);
    assert_eq!(*four.seats_seen.borrow(), vec![vec![(3, 1), (1, 5)]]);
}

#[test]
fn a_round_of_passes_ends_the_game() {
    let one = passer("one");
    let two = passer("two");
    let mut state = table(vec![
        player(&one, (1, 1), (1, 1), (5, 1)),
        player(&two, (1, 3), (1, 3), (5, 3)),
    ]);
    let over = Referee::new(0).run_round(
        &mut state,
        &nobody_watches(),
        &mut vec![],
        &mut VecDeque::new(),
    );
    assert!(over);
    assert_eq!(seats(&state), vec!["one", "two"]);
}

#[test]
fn a_move_keeps_the_game_going_and_carries_the_others() {
    let one = scripted("one", vec![walk((4, 4))]);
    let two = passer("two");
    let mut state = table(vec![
        player(&one, (1, 1), (1, 1), (5, 1)),
        player(&two, (1, 3), (0, 6), (5, 3)),
    ]);
    let onlooker = Onlooker::default();
    let shown = onlooker.shown.clone();
    let observers: Vec<Box<AnyObserver>> = vec![Box::new(onlooker)];
    let over =
        Referee::new(0).run_round(&mut state, &observers, &mut vec![], &mut VecDeque::new());
    assert!(!over);
    assert_eq!(state.board.slides, 1);
    assert_eq!(state.board.turns_of_spare, 1);
    assert_eq!(state.previous_slide, Some(Slide { index: 0, direction: CompassDirection::East }));
    assert_eq!(state.player_info[0].info.position, (4, 4));
    assert_eq!(state.player_info[1].info.position, (0, 0));
    assert_eq!(*shown.borrow(), vec![vec![(0, 0), (4, 4)], vec![(4, 4), (0, 0)]]);
}

#[test]
fn broken_rules_and_broken_lines_are_punished() {
    let cheat = scripted("cheat", vec![illegal()]);
    let ghost = scripted("ghost", vec![broken()]);
    let one = passer("one");
    let two = passer("two");
    let three = passer("three");
    let mut state = table(vec![
        player(&one, (1, 1), (1, 1), (5, 1)),
        player(&cheat, (1, 3), (1, 3), (5, 3)),
        player(&two, (1, 5), (1, 5), (5, 5)),
        player(&ghost, (3, 1), (3, 1), (3, 3)),
        player(&three, (3, 5), (3, 5), (3, 3)),
    ]);
    let mut kicked = vec![];
    let mut referee = Referee::new(0);
    let over = referee.run_round(&mut state, &nobody_watches(), &mut kicked, &mut VecDeque::new());
    assert_eq!(names(&kicked), vec!["cheat", "ghost"]);
    assert_eq!(state.board, OpenBoard::default_board(7, 7));
    // With two players out, the fifth has to wait for the next round.
    assert_eq!(three.turns_taken.get(), 0);
    assert!(!over);
    assert_eq!(seats(&state), vec!["three", "one", "two"]);
    let over = referee.run_round(&mut state, &nobody_watches(), &mut kicked, &mut VecDeque::new());
    assert!(over);
    assert_eq!(three.turns_taken.get(), 1);
}

#[test]
fn a_round_in_which_all_are_thrown_out_ends_the_game() {
    let one = scripted("one", vec![broken()]);
    let two = scripted("two", vec![illegal()]);
    let mut state = table(vec![
        player(&one, (1, 1), (1, 1), (5, 1)),
        player(&two, (1, 3), (1, 3), (5, 3)),
    ]);
    let GameResult { winners, kicked } =
        Referee::new(0).run_from_state(&mut state, &nobody_watches());
    assert!(winners.is_empty());
    assert_eq!(names(&kicked), vec!["one", "two"]);
    assert!(state.player_info.is_empty());
}

#[test]
fn a_game_needs_players() {
    let onlooker = Onlooker::default();
    let shown = onlooker.shown.clone();
    let told = onlooker.over.clone();
    let observers: Vec<Box<AnyObserver>> = vec![Box::new(onlooker)];
    let mut referee = referee_of(4, false);
    assert!(matches!(referee.run_game(vec![], &observers), Err(SeatingError::NoPlayers)));
    assert_eq!(referee.rand, Random::new(4));
    assert!(shown.borrow().is_empty());
    assert_eq!(told.get(), 0);
}

#[test]
fn a_table_without_players_is_over() {
    let onlooker = Onlooker::default();
    let shown = onlooker.shown.clone();
    let told = onlooker.over.clone();
    let observers: Vec<Box<AnyObserver>> = vec![Box::new(onlooker)];
    let GameResult { winners, kicked } =
        referee_of(0, false).run_from_state(&mut table(vec![]), &observers);
    assert!(winners.is_empty() && kicked.is_empty());
    assert_eq!(*shown.borrow(), vec![Vec::<Position>::new()]);
    assert_eq!(told.get(), 1);
}

#[test]
fn everyone_is_asked_for_a_board() {
    let one = Seeker { has_no_board: true, ..passer("one") };
    let mock = MockPlayer::default();
    let three = passer("three");
    let players: Vec<&AnyPlayer> = vec![&one, &mock, &three];
    let mut referee = referee_of(0, false);
    assert_eq!(referee.get_player_boards(&players), OpenBoard::default_board(3, 3));
    assert_eq!(*one.boards_asked_for.borrow(), vec![(7, 7)]);
    assert_eq!(*three.boards_asked_for.borrow(), vec![(7, 7)]);
    let alone: Vec<&AnyPlayer> = vec![&one];
    assert_eq!(referee.get_player_boards(&alone), OpenBoard::default_board(7, 7));
}

#[test]
fn a_board_can_be_too_small() {
    let mock = MockPlayer::default();
    let other = passer("other");
    let players: Vec<&AnyPlayer> = vec![&mock, &other];
    assert!(matches!(
        referee_of(0, false).run_game(players, &nobody_watches()),
        Err(SeatingError::NotEnoughHomes)
    ));
}

#[test]
fn results_are_copied() {
    let empty: GameResult<'_, AnyPlayer> = GameResult::default();
    assert!(empty.winners.is_empty() && empty.kicked.is_empty());
    let bob = passer("bob");
    let result = GameResult { winners: vec![player(&bob, (1, 1), (1, 1), (3, 3))], kicked: vec![] };
    let copy = result.clone();
    assert_eq!(names(&copy.winners), names(&result.winners));
    assert!(copy.kicked.is_empty());
}

#[test]
fn a_goal_then_home_wins() {
    let hero = scripted("hero", vec![walk((5, 1)), walk((1, 1))]);
    let idler = passer("idler");
    let mut state = table(vec![
        player(&hero, (1, 1), (1, 1), (5, 1)),
        player(&idler, (1, 3), (1, 3), (1, 5)),
    ]);
    let onlooker = Onlooker::default();
    let shown = onlooker.shown.clone();
    let told = onlooker.over.clone();
    let observers: Vec<Box<AnyObserver>> = vec![Box::new(onlooker)];
    let GameResult { winners, kicked } = Referee::new(0).run_from_state(&mut state, &observers);
    assert_eq!(names(&winners), vec!["hero"]);
    assert!(kicked.is_empty());
    assert_eq!(*hero.goals_heard.borrow(), vec![(5, 1), (1, 1)]);
    assert_eq!(winners[0].info.goals_reached, 1);
    assert_eq!(hero.won.get(), Some(true));
    assert_eq!(idler.won.get(), Some(false));
    assert_eq!(idler.turns_taken.get(), 1);
    // Once at the start, and once after each of the three turns.
    assert_eq!(shown.borrow().len(), 4);
    assert_eq!(told.get(), 1);
}

#[test]
fn more_goals_are_handed_out_in_order() {
    let hero = scripted("hero", vec![walk((5, 1)), Ok(None), walk((1, 1))]);
    let mut state = table(vec![player(&hero, (1, 1), (1, 1), (5, 1))]);
    let mut goals: VecDeque<Position> = vec![(3, 3), (5, 5)].into();
    let mut referee = referee_of(0, true);
    let over = referee.run_round(&mut state, &nobody_watches(), &mut vec![], &mut goals);
    assert!(!over);
    assert_eq!(goals, VecDeque::from(vec![(5, 5)]));
    assert_eq!(state.player_info[0].info.goal, (3, 3));
    assert_eq!(state.player_info[0].info.goals_reached, 1);
    assert_eq!(*hero.goals_heard.borrow(), vec![(3, 3)]);
}

#[test]
fn home_as_a_goal_does_not_win_while_goals_are_left() {
    let hero = scripted("hero", vec![walk((1, 1))]);
    let mut state = table(vec![player(&hero, (1, 1), (3, 3), (1, 1))]);
    let mut goals: VecDeque<Position> = vec![(5, 5)].into();
    let over =
        referee_of(0, true).run_round(&mut state, &nobody_watches(), &mut vec![], &mut goals);
    assert!(!over);
    assert_eq!(state.player_info[0].info.goal, (5, 5));
    assert!(goals.is_empty());
}

#[test]
fn who_does_not_hear_of_a_goal_is_thrown_out() {
    let hero = Seeker {
        setups_before_failure: Cell::new(1),
        ..scripted("hero", vec![walk((5, 1))])
    };
    let mut state = table(vec![player(&hero, (1, 1), (1, 1), (5, 1))]);
    let GameResult { winners, kicked } =
        Referee::new(0).run_from_state(&mut state, &nobody_watches());
    assert!(winners.is_empty());
    assert_eq!(names(&kicked), vec!["hero"]);
    assert_eq!(kicked[0].info.goal, (1, 1));
    assert_eq!(kicked[0].info.goals_reached, 1);
}

#[test]
fn bad_losers_and_bad_winners_are_thrown_out() {
    let mut apis: Vec<Seeker> = ["w0", "w1", "w2", "l0", "l1", "l2"].map(passer).into();
    for i in [0, 2, 3, 5] {
        apis[i].fails_at_end = true;
    }
    let at = |i: usize| player(&apis[i], (1, 1), (1, 1), if i < 3 { (1, 2) } else { (1, 5) });
    let mut state = table((0..6).map(at).collect());
    let GameResult { winners, kicked } =
        Referee::new(0).run_from_state(&mut state, &nobody_watches());
    assert_eq!(names(&winners), vec!["w1"]);
    assert_eq!(names(&kicked), vec!["w2", "w0", "l2", "l0"]);
    assert_eq!(apis[2].won.get(), Some(true));
    assert_eq!(apis[5].won.get(), Some(false));
}

#[test]
fn a_game_ends_after_its_last_round() {
    // Walks back and forth and never reaches the goal.
    let restless = scripted(
        "restless",
        (0..2000).map(|i| walk(if i % 2 == 0 { (2, 2) } else { (4, 4) })).collect(),
    );
    let mut state = table(vec![player(&restless, (1, 1), (1, 1), (5, 1))]);
    let GameResult { winners, kicked } =
        Referee::new(0).run_from_state(&mut state, &nobody_watches());
    assert_eq!(restless.turns_taken.get(), 1000);
    assert_eq!(ROUNDS, 1000);
    assert_eq!(names(&winners), vec!["restless"]);
    assert!(kicked.is_empty());
}

#[test]
fn goals_count_more_than_distance() {
    let apis: Vec<Seeker> = ["far", "near", "ahead", "ahead_too", "behind"].map(passer).into();
    let mut players: Vec<Player<'_, AnyPlayer>> = vec![
        player(&apis[0], (1, 1), (0, 0), (6, 6)),
        player(&apis[1], (1, 1), (3, 3), (3, 3)),
        player(&apis[2], (1, 1), (0, 0), (3, 4)),
        player(&apis[3], (1, 1), (5, 0), (0, 0)),
        player(&apis[4], (1, 1), (5, 1), (0, 0)),
    ];
    for i in 2..5 {
        let goal = players[i].info.goal;
        players[i].info.award(goal);
    }
    let (winners, losers) = Referee::calculate_winners(&table(players));
    assert_eq!(names(&winners), vec!["ahead", "ahead_too"]);
    assert_eq!(names(&losers), vec!["far", "near", "behind"]);
}

#[test]
fn nobody_is_shown_a_goal() {
    let one = MockPlayer::default();
    let two = MockPlayer::default();
    let mut state = table(vec![
        player(&one, (1, 1), (1, 1), (5, 1)),
        player(&two, (1, 3), (1, 3), (5, 3)),
    ]);
    Referee::new(0).broadcast_initial_state(&mut state, &mut vec![]);
    assert_eq!(
        *two.seen.borrow(),
        Some(vec![
            PubPlayerInfo { home: (1, 3), position: (1, 3), color: RED },
            PubPlayerInfo { home: (1, 1), position: (1, 1), color: RED },
        ])
    );
}

/// Notes down when it is asked for a turn, and then does what the script says.
struct Diarist {
    inner: Seeker,
    diary: Rc<RefCell<Vec<String>>>,
}

impl PlayerApi<OpenBoard> for Diarist {
    fn name(&self) -> PlayerApiResult<String> {
        self.inner.name()
    }

    fn propose_board0(&self, cols: u32, rows: u32) -> PlayerApiResult<OpenBoard> {
        self.inner.propose_board0(cols, rows)
    }

    fn setup(
        &self,
        state: Option<State<OpenBoard, PubPlayerInfo>>,
        goal: Position,
    ) -> PlayerApiResult<()> {
        self.inner.setup(state, goal)
    }

    fn take_turn(&self, state: State<OpenBoard, PubPlayerInfo>) -> PlayerApiResult<PlayerAction> {
        self.diary.borrow_mut().push(self.inner.name.clone());
        self.inner.take_turn(state)
    }

    fn won(&self, did_win: bool) -> PlayerApiResult<()> {
        self.inner.won(did_win)
    }
}

#[test]
fn turns_go_round_and_who_is_out_stays_out() {
    let diary = Rc::new(RefCell::new(vec![]));
    let keep = |inner: Seeker| Diarist { inner, diary: diary.clone() };
    let a = keep(scripted("a", vec![walk((2, 2)), walk((4, 4)), Ok(None)]));
    let b = keep(scripted("b", vec![illegal()]));
    let c = keep(scripted("c", vec![Ok(None), broken()]));
    let mut state = table(vec![
        player(&a, (1, 1), (1, 1), (5, 1)),
        player(&b, (1, 3), (1, 3), (5, 3)),
        player(&c, (1, 5), (1, 5), (5, 5)),
    ]);
    let GameResult { winners, kicked } =
        Referee::new(0).run_from_state(&mut state, &nobody_watches());
    assert_eq!(*diary.borrow(), vec!["a", "b", "c", "a", "c", "a"]);
    assert_eq!(names(&kicked), vec!["b", "c"]);
    assert_eq!(names(&winners), vec!["a"]);
}

#[test]
fn goals_are_handed_out_that_nobody_began_with() {
    let apis: Vec<Seeker> = (0..3).map(|_| passer("p")).collect();
    let players: Vec<&AnyPlayer> = apis.iter().map(|api| api as &AnyPlayer).collect();
    let mut referee = referee_of(7, true);
    let state = referee.make_initial_state(players, OpenBoard::default_board(7, 7)).unwrap();
    let later = referee.get_initial_goals(&state);
    let all = state.board.possible_goals();
    assert_eq!(later, all[3..].to_vec());
    assert!(state.player_info.iter().all(|player| !later.contains(&player.info.goal)));
}

/// Notes down all that a player or an observer hears.
struct Listener {
    name: &'static str,
    diary: Rc<RefCell<Vec<String>>>,
    script: RefCell<VecDeque<PlayerApiResult<PlayerAction>>>,
}

impl Listener {
    fn note(&self, what: &str) {
        self.diary.borrow_mut().push(format!("{} {}", self.name, what));
    }
}

impl PlayerApi<OpenBoard> for Listener {
    fn name(&self) -> PlayerApiResult<String> {
        Ok(self.name.to_string())
    }

    fn propose_board0(&self, cols: u32, rows: u32) -> PlayerApiResult<OpenBoard> {
        self.note("board");
        Ok(OpenBoard::default_board(cols, rows))
    }

    fn setup(
        &self,
        state: Option<State<OpenBoard, PubPlayerInfo>>,
        _goal: Position,
    ) -> PlayerApiResult<()> {
        self.note(if state.is_some() { "setup" } else { "goal" });
        Ok(())
    }

    fn take_turn(&self, _state: State<OpenBoard, PubPlayerInfo>) -> PlayerApiResult<PlayerAction> {
        self.note("turn");
        self.script.borrow_mut().pop_front().unwrap_or(Ok(None))
    }

    fn won(&self, did_win: bool) -> PlayerApiResult<()> {
        self.note(if did_win { "won" } else { "lost" });
        Ok(())
    }
}

impl Observer<OpenBoard> for Listener {
    fn recieve_state(&self, _state: State<OpenBoard, FullPlayerInfo>) {
        self.note("sees");
    }

    fn game_over(&self) {
        self.note("over");
    }
}

fn listener(
    name: &'static str,
    diary: &Rc<RefCell<Vec<String>>>,
    script: Vec<PlayerApiResult<PlayerAction>>,
) -> Listener {
    Listener { name, diary: diary.clone(), script: RefCell::new(script.into()) }
}

#[test]
fn everything_is_said_once_and_in_order() {
    let diary = Rc::new(RefCell::new(vec![]));
    let a = listener("a", &diary, vec![walk((1, 1))]);
    let b = listener("b", &diary, vec![]);
    let players: Vec<&AnyPlayer> = vec![&a, &b];
    let observers: Vec<Box<AnyObserver>> =
        vec![Box::new(listener("x", &diary, vec![])), Box::new(listener("y", &diary, vec![]))];
    referee_of(1, false).run_game(players, &observers).unwrap();
    assert_eq!(
        *diary.borrow(),
        vec![
            "a board", "b board", "a setup", "b setup", "x sees", "y sees", "a turn", "a goal",
            "x sees", "y sees", "b turn", "x sees", "y sees", "a turn", "x sees", "y sees",
            "b turn", "x sees", "y sees", "x over", "y over", "a won", "b lost",
        ]
    );
}

#[test]
fn equal_tables_give_equal_games_whatever_the_seed() {
    let play = |seed: u64| {
        let diary = Rc::new(RefCell::new(vec![]));
        let a = listener("a", &diary, vec![walk((5, 1)), walk((1, 1))]);
        let b = listener("b", &diary, vec![walk((2, 2)), illegal()]);
        let mut state = table(vec![
            player(&a, (1, 1), (1, 1), (5, 1)),
            player(&b, (1, 3), (1, 3), (5, 3)),
        ]);
        let mut referee = referee_of(seed, false);
        let result = referee.run_from_state(&mut state, &nobody_watches());
        assert_eq!(referee.rand, Random::new(seed));
        let said = diary.borrow().clone();
        (said, names(&result.winners), names(&result.kicked), state.board.clone())
    };
    assert_eq!(play(1), play(2));
}

#[test]
fn homes_and_colors_stay_and_goals_are_not_forgotten() {
    let hero = scripted("hero", vec![walk((5, 1))]);
    let cheat = scripted("cheat", vec![illegal()]);
    let mut state = table(vec![
        player(&hero, (1, 1), (1, 1), (5, 1)),
        player(&cheat, (1, 3), (1, 3), (5, 3)),
    ]);
    let mut kicked = vec![];
    let mut goals = VecDeque::new();
    referee_of(0, false).run_round(&mut state, &nobody_watches(), &mut kicked, &mut goals);
    assert_eq!(state.player_info[0].info.home, (1, 1));
    assert_eq!(state.player_info[0].info.color, RED);
    assert_eq!(state.player_info[0].info.goals_reached, 1);
    assert_eq!(kicked[0].info.home, (1, 3));
    assert_eq!(kicked[0].info.color, RED);
    assert_eq!(kicked[0].info.goals_reached, 0);
}
