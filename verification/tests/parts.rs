use rand::{Rng, SeedableRng};
use rand_chacha::ChaChaRng;
use referee::board::{Board, CompassDirection, Slide};
use referee::config::Config;
use referee::grid::{same_tile, squared_euclidian_distance, Position};
use referee::player::{
    Color, FullPlayerInfo, Player, PlayerAction, PlayerApi, PlayerApiError, PlayerApiResult,
    PlayerMove, PubPlayerInfo,
};
use referee::random::Random;
use referee::referee::Referee;
use referee::remote::{
    acknowledge, Connection, JsonChoice, JsonFunctionCall, JsonResult, PlayerProxy, READ_TIMEOUT,
};
use referee::round::Tally;
use referee::seating::{free_goals, seat_player};
use referee::state::{State, StateError};
use referee::turn::{goal_after, has_won, settle_turn, TurnEnd, TurnReply};
use referee::winners::dismiss;
use std::cell::RefCell;
use std::collections::VecDeque;

const GREY: Color = Color { red: 7, green: 7, blue: 7 };

fn info(home: Position, position: Position, goal: Position) -> FullPlayerInfo {
    FullPlayerInfo::new(home, position, goal, GREY)
}

/// A table of players who are told apart by a number.
fn table(players: Vec<Player<'_, u8>>) -> State<&'static str, Player<'_, u8>> {
    State::new("board", players.into())
}

fn seats(state: &State<&'static str, Player<'_, u8>>) -> Vec<u8> {
    state.player_info.iter().map(|player| *player.api).collect()
}

const EAST: Slide = Slide { index: 0, direction: CompassDirection::East };

#[test]
fn distances_are_exact() {
    let d = squared_euclidian_distance(&(0, 0), &(3, 4));
    assert!(!d.carry);
    assert_eq!(d.low, 25);
    assert_eq!(squared_euclidian_distance(&(3, 4), &(0, 0)), d);
    assert_eq!(squared_euclidian_distance(&(5, 5), &(5, 5)).low, 0);
    assert_eq!(squared_euclidian_distance(&(1, 6), &(6, 1)).low, 50);
    let huge = squared_euclidian_distance(&(0, usize::MAX), &(usize::MAX, 0));
    assert!(d.is_less(&huge));
    assert!(!huge.is_less(&d));
    assert!(!d.is_less(&d));
    assert!(d.is_same(&d));
    assert!(!d.is_same(&huge));
    let square = (usize::MAX as u128) * (usize::MAX as u128);
    assert_eq!(huge.low, square.wrapping_add(square));
    assert_eq!(huge.carry, square.checked_add(square).is_none());
    assert!(same_tile(&(1, 2), &(1, 2)));
    assert!(!same_tile(&(1, 2), &(2, 1)));
}

#[test]
fn draws_are_those_of_the_generator() {
    for seed in [0u64, 1, 42, u64::MAX] {
        let mut ours = Random::new(seed);
        let mut theirs = ChaChaRng::seed_from_u64(seed);
        for i in 0..300usize {
            let bound = 1 + (i * 7919) % 1000;
            assert_eq!(ours.index(bound), theirs.gen_range(0..bound));
            assert_eq!(ours.byte(), theirs.gen::<u8>());
            assert_eq!(ours.word, theirs.get_word_pos());
        }
    }
    assert_eq!(Random::new(9).index(1), 0);
}

#[test]
fn a_referee_plays_by_the_plain_rules() {
    let referee: Referee<'_, Plank, u8> = Referee::new(12);
    assert_eq!(referee.config, Config::default());
    assert!(!referee.config.multiple_goals);
    assert_eq!(referee.rand, Random { seed: 12, word: 0 });
}

#[test]
fn the_last_player_leaves() {
    let id = 3u8;
    let mut state = table(vec![Player::new(&id, info((1, 1), (1, 1), (2, 2)))]);
    assert_eq!(*state.remove_player().ok().unwrap().api, 3);
    assert_eq!(state.remove_player().err(), Some(StateError::NoPlayers));
    state.next_player();
    assert!(state.player_info.is_empty());
}

#[test]
fn views_of_a_state() {
    let id = 3u8;
    let mut state = table(vec![Player::new(&id, info((1, 1), (4, 4), (4, 4)))]);
    state.previous_slide = Some(EAST);
    let seen = state.to_player_state();
    assert_eq!(
        seen.player_info,
        VecDeque::from(vec![PubPlayerInfo { home: (1, 1), position: (4, 4), color: GREY }])
    );
    assert_eq!(seen.previous_slide, Some(EAST));
    assert_eq!(seen.board, "board");
    let full = state.to_full_state();
    assert_eq!(full.player_info, VecDeque::from(vec![info((1, 1), (4, 4), (4, 4))]));
    assert!(state.player_reached_goal());
    assert!(!state.player_reached_home());
}

#[test]
fn what_an_arrival_brings() {
    let player = info((1, 1), (0, 0), (3, 3));
    let none: VecDeque<Position> = VecDeque::new();
    let some: VecDeque<Position> = vec![(5, 5), (5, 1)].into();
    assert_eq!(goal_after(&player, &(2, 2), &some), None);
    assert_eq!(goal_after(&player, &(3, 3), &some), Some((5, 5)));
    assert_eq!(goal_after(&player, &(3, 3), &none), Some((1, 1)));
    let homing = info((1, 1), (0, 0), (1, 1));
    assert!(has_won(&homing, &(1, 1), &none));
    assert!(!has_won(&homing, &(1, 1), &some));
    assert!(!has_won(&homing, &(2, 2), &none));
    assert_eq!(goal_after(&homing, &(1, 1), &none), None);
    assert_eq!(goal_after(&homing, &(1, 1), &some), Some((5, 5)));
}

#[test]
fn replies_are_settled() {
    let ids = [1u8, 2, 3];
    let start = || {
        table(vec![
            Player::new(&ids[0], info((1, 1), (1, 1), (3, 3))),
            Player::new(&ids[1], info((1, 3), (1, 3), (3, 5))),
            Player::new(&ids[2], info((1, 5), (1, 5), (5, 5))),
        ])
    };
    let settle = |reply: TurnReply<&'static str>, goals: Vec<Position>| {
        let mut state = start();
        let mut kicked = vec![];
        let mut remaining: VecDeque<Position> = goals.into();
        let end = settle_turn(&mut state, &mut kicked, &mut remaining, reply);
        let out: Vec<u8> = kicked.iter().map(|player: &Player<'_, u8>| *player.api).collect();
        (end, seats(&state), out, remaining.len(), state.board)
    };
    let go = |to: Position, accepted: bool| TurnReply::Moved {
        slide: EAST,
        board: "after",
        positions: vec![to, (1, 4), (1, 6)],
        accepted,
    };

    assert_eq!(
        settle(TurnReply::Failed, vec![]),
        (TurnEnd::Kicked, vec![2, 3], vec![1], 0, "board")
    );
    assert_eq!(
        settle(TurnReply::Rejected, vec![]),
        (TurnEnd::Kicked, vec![2, 3], vec![1], 0, "board")
    );
    assert_eq!(
        settle(TurnReply::Passed, vec![(6, 6)]),
        (TurnEnd::Passed, vec![2, 3, 1], vec![], 1, "board")
    );
    assert_eq!(
        settle(go((2, 2), true), vec![(6, 6)]),
        (TurnEnd::Moved, vec![2, 3, 1], vec![], 1, "after")
    );
    assert_eq!(
        settle(go((3, 3), true), vec![(6, 6)]),
        (TurnEnd::Moved, vec![2, 3, 1], vec![], 0, "after")
    );
    assert_eq!(
        settle(go((3, 3), false), vec![(6, 6)]),
        (TurnEnd::Kicked, vec![2, 3], vec![1], 0, "after")
    );

    let mut state = start();
    state.player_info[0].info.goal = (1, 1);
    let mut remaining = VecDeque::new();
    let end = settle_turn(&mut state, &mut vec![], &mut remaining, go((1, 1), true));
    assert_eq!(end, TurnEnd::Won);
    assert_eq!(seats(&state), vec![1, 2, 3]);
    assert_eq!(state.player_info[2].info.position, (1, 6));
    assert_eq!(state.previous_slide, Some(EAST));
}

#[test]
fn rounds_are_tallied() {
    let play = |count: usize, ends: &[TurnEnd]| {
        let mut tally = Tally::new(count);
        for end in ends {
            assert!(!tally.is_finished());
            tally.record(*end);
        }
        (tally.is_finished(), tally.ends_game())
    };
    let (k, p, m, w) = (TurnEnd::Kicked, TurnEnd::Passed, TurnEnd::Moved, TurnEnd::Won);
    assert_eq!(play(0, &[]), (true, true));
    assert_eq!(play(2, &[p]), (false, false));
    assert_eq!(play(2, &[p, p]), (true, true));
    assert_eq!(play(2, &[p, m]), (true, false));
    assert_eq!(play(3, &[m, w]), (true, true));
    assert_eq!(play(2, &[k, p]), (true, true));
    assert_eq!(play(2, &[k, k]), (true, true));
    assert_eq!(play(3, &[k, p, p]), (true, true));
    // Two are out, so the third has to wait.
    assert_eq!(play(3, &[k, k]), (true, false));
    assert_eq!(play(4, &[k, k, p]), (true, false));
}

#[test]
fn players_are_seated_and_goals_stay_free() {
    let id = 9u8;
    let mut homes = vec![(1, 1), (1, 3), (1, 5)];
    let mut goals: VecDeque<Position> = vec![(3, 1), (3, 3)].into();
    let player = seat_player(&id, &mut homes, &mut goals, 1, GREY);
    assert_eq!(player.info, info((1, 3), (1, 3), (3, 1)));
    assert_eq!(homes, vec![(1, 1), (1, 5)]);
    assert_eq!(goals, VecDeque::from(vec![(3, 3)]));
    let state = table(vec![player]);
    assert_eq!(free_goals(&vec![(3, 1), (5, 5), (3, 1), (1, 1)], &state), vec![(5, 5), (1, 1)]);
}

#[test]
fn the_last_one_is_dismissed_first() {
    let ids = [1u8, 2, 3, 4];
    let mut players: Vec<Player<'_, u8>> =
        ids.iter().map(|id| Player::new(id, info((1, 1), (1, 1), (2, 2)))).collect();
    let mut kicked = vec![];
    dismiss(&mut players, &vec![false, true, false, true], &mut kicked);
    assert_eq!(players.iter().map(|p| *p.api).collect::<Vec<u8>>(), vec![2, 4]);
    assert_eq!(kicked.iter().map(|p| *p.api).collect::<Vec<u8>>(), vec![3, 1]);
}

/// A board of one row.
#[derive(Clone, Debug, PartialEq)]
struct Plank;

impl Board for Plank {
    fn default_board(_cols: u32, _rows: u32) -> Self {
        Plank
    }

    fn new_slide(&self, index: usize, direction: CompassDirection) -> Option<Slide> {
        if index == 0 {
            Some(Slide { index, direction })
        } else {
            None
        }
    }

    fn possible_homes(&self) -> Vec<Position> {
        vec![]
    }

    fn possible_goals(&self) -> Vec<Position> {
        vec![]
    }

    fn is_valid_move(
        _state: &State<Self, FullPlayerInfo>,
        _slide: Slide,
        _rotations: usize,
        _destination: Position,
    ) -> bool {
        true
    }

    fn rotate_spare(&self, _rotations: usize) -> Self {
        Plank
    }

    fn slide_and_insert(&self, _slide: Slide) -> Self {
        Plank
    }

    fn slide_position(&self, _slide: Slide, at: Position) -> Position {
        at
    }
}

/// A line over which a given answer comes back.
struct Line {
    log: RefCell<Vec<String>>,
    send: PlayerApiResult<()>,
    limit: PlayerApiResult<()>,
    answer: RefCell<Option<PlayerApiResult<JsonResult>>>,
}

fn line(answer: PlayerApiResult<JsonResult>) -> Line {
    Line {
        log: RefCell::new(vec![]),
        send: Ok(()),
        limit: Ok(()),
        answer: RefCell::new(Some(answer)),
    }
}

/// The call with this text has gone out.
struct Sent(String);

/// The answer to the call with this text may take so many seconds.
struct Limited(String, u64);

impl Connection<Plank> for Line {
    type Sent = Sent;
    type Limited = Limited;

    fn send_function_call(&self, func: &JsonFunctionCall<'_, Plank>) -> PlayerApiResult<Sent> {
        let text = match func {
            JsonFunctionCall::Setup(state, goal) => {
                format!("setup {} {:?}", state.is_some(), goal)
            }
            JsonFunctionCall::TakeTurn(state) => format!("take_turn {:?}", state.board),
            JsonFunctionCall::Win(did_win) => format!("win {}", did_win),
        };
        self.log.borrow_mut().push(text.clone());
        self.send.clone().map(|_| Sent(text))
    }

    fn set_read_timeout(&self, sent: Sent, seconds: u64) -> PlayerApiResult<Limited> {
        self.log.borrow_mut().push(format!("limit {} to {}", sent.0, seconds));
        self.limit.clone().map(|_| Limited(sent.0, seconds))
    }

    fn read_result(&self, limited: Limited) -> PlayerApiResult<JsonResult> {
        self.log.borrow_mut().push(format!("read {} within {}", limited.0, limited.1));
        self.answer.borrow_mut().take().unwrap()
    }
}

fn push(index: usize) -> JsonChoice {
    JsonChoice::Move {
        index,
        direction: CompassDirection::East,
        rotations: 2,
        destination: (1, 1),
    }
}

fn view() -> State<Plank, PubPlayerInfo> {
    State::new(Plank, VecDeque::new())
}

fn proxy(line: Line) -> PlayerProxy<Line> {
    PlayerProxy::new("ann".to_string(), line)
}

#[test]
fn a_remote_player_is_set_up() {
    let ann = proxy(line(Ok(JsonResult::Void)));
    assert_eq!(PlayerApi::<Plank>::name(&ann), Ok("ann".to_string()));
    assert_eq!(ann.setup(Some(view()), (4, 2)), Ok(()));
    assert_eq!(
        *ann.stream.log.borrow(),
        vec![
            "setup true (4, 2)",
            "limit setup true (4, 2) to 2",
            "read setup true (4, 2) within 2",
        ]
    );
    assert_eq!(READ_TIMEOUT, 2);
    let ann = proxy(line(Ok(JsonResult::Choice(JsonChoice::Pass))));
    assert_eq!(
        ann.setup(None, (4, 2)),
        Err(PlayerApiError::Other(
            "Got something other than \"void\", when calling `setup`!".to_string()
        ))
    );
}

#[test]
fn a_remote_player_takes_a_turn() {
    let ann = proxy(line(Ok(JsonResult::Choice(push(0)))));
    assert_eq!(
        ann.take_turn(view()),
        Ok(Some(PlayerMove { slide: EAST, rotations: 2, destination: (1, 1) }))
    );
    assert_eq!(
        *ann.stream.log.borrow(),
        vec![
            "take_turn Plank",
            "limit take_turn Plank to 2",
            "read take_turn Plank within 2",
        ]
    );
    assert_eq!(proxy(line(Ok(JsonResult::Choice(JsonChoice::Pass)))).take_turn(view()), Ok(None));
    assert_eq!(
        proxy(line(Ok(JsonResult::Choice(push(5))))).take_turn(view()),
        Err(PlayerApiError::Other("The board has no such slide!".to_string()))
    );
    assert_eq!(
        proxy(line(Ok(JsonResult::Void))).take_turn(view()),
        Err(PlayerApiError::Other(
            "Got something other than a JsonChoice when calling `take_turn`!".to_string()
        ))
    );
}

#[test]
fn a_remote_player_hears_of_the_end() {
    let ann = proxy(line(Ok(JsonResult::Void)));
    assert_eq!(ann.won(true), Ok(()));
    assert_eq!(
        *ann.stream.log.borrow(),
        vec![
            "win true",
            "limit win true to 2",
            "read win true within 2",
        ]
    );
    assert_eq!(
        proxy(line(Ok(JsonResult::Choice(push(0))))).won(false),
        Err(PlayerApiError::Other(
            "Got something other than \"void\" when calling `won`!".to_string()
        ))
    );
}

#[test]
fn a_broken_line_stops_a_call() {
    let io = || PlayerApiError::Io("reset".to_string());
    let ann = proxy(Line { send: Err(io()), ..line(Ok(JsonResult::Void)) });
    assert_eq!(ann.won(true), Err(io()));
    assert_eq!(*ann.stream.log.borrow(), vec!["win true"]);
    let ann = proxy(Line { limit: Err(io()), ..line(Ok(JsonResult::Void)) });
    assert_eq!(ann.take_turn(view()), Err(io()));
    assert_eq!(*ann.stream.log.borrow(), vec!["take_turn Plank", "limit take_turn Plank to 2"]);
    let json = PlayerApiError::Json("eof".to_string());
    let ann = proxy(line(Err(json.clone())));
    assert_eq!(ann.setup(None, (0, 0)), Err(json.clone()));
    assert_eq!(acknowledge(Err(json.clone()), "x"), Err(json));
}

#[test]
fn a_remote_player_brings_no_board() {
    let ann = proxy(line(Ok(JsonResult::Void)));
    let board: PlayerApiResult<Plank> = ann.propose_board0(7, 7);
    assert_eq!(
        board,
        Err(PlayerApiError::Other("A remote player does not propose boards!".to_string()))
    );
    assert!(ann.stream.log.borrow().is_empty());
}

#[test]
fn choices_have_a_meaning() {
    assert_eq!(JsonChoice::Pass.into_action(&Plank), Ok(None));
    assert_eq!(
        push(0).into_action(&Plank),
        Ok(Some(PlayerMove { slide: EAST, rotations: 2, destination: (1, 1) }))
    );
    assert_eq!(push(1).into_action(&Plank), Err("The board has no such slide!".to_string()));
}
