//! Masteroids: the rules of a multiplayer Asteroids game, with their proofs.
//!
//! - `protocol`: the UDP message format and its codec.
//! - `scheduler`: named timers that fire actions after a wait.
//! - `host`, `player`: the two sides of a multiplayer session.
//! - `game`, `pressure`, `dice`: health, immunity, rocks and summoned asteroids.
//! - `address`, `screens`, `seqs`: addresses, screen navigation, searching.
mod time;

pub mod address;
pub mod dice;
pub mod game;
pub mod host;
pub mod player;
pub mod pressure;
pub mod protocol;
pub mod scheduler;
pub mod screens;
pub mod seqs;
