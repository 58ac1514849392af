//! The referee of a maze game: it seats the players, asks each of them in turn for a move, throws
//! out whoever misbehaves, hands out goals, and names the winners.
//!
//! The rules are verified. What the rules ask of the world (the maze itself, the players, the
//! onlookers, a connection) enters through the traits [`board::Board`], [`player::PlayerApi`],
//! [`observer::Observer`] and [`remote::Connection`], of whose implementations nothing is assumed:
//! a contract that depends on an answer speaks of it as one that `call_ensures` relates to exactly
//! the question that was put. What the referee says to players and observers it says through
//! [`history::History`], which notes it down, so that contracts can say in which order and how
//! often it is said.
pub mod board;
pub mod config;
pub mod grid;
pub mod history;
pub mod history_laws;
pub mod laws;
pub mod observer;
pub mod operation_laws;
pub mod player;
pub mod protocol;
pub mod random;
pub mod referee;
pub mod remote;
pub mod remote_laws;
pub mod replay;
pub mod round;
pub mod round_laws;
pub mod seating;
pub mod seating_laws;
pub mod state;
pub mod turn;
pub mod turn_laws;
pub mod view_laws;
pub mod winner_laws;
pub mod winners;
