//! Rocket Jam: the rules and bookkeeping of a cooperative, tick-driven party game.
//!
//! Players gather in a lobby, every player flags readiness, and the round then
//! moves to a level in which each player owns a handful of items and is told to
//! change a setting on somebody else's item before a deadline passes.
//!
//! The modules, from the ground up:
//!
//! - `round`, `messages`, `user`: the data, each type with the model that the
//!   contracts speak of;
//! - `catalog`, `dealing`, `instructions`, `text`, `projection`: the pieces of
//!   a level, and what a player is shown of it;
//! - `lobby`, `starting`, `settings`, `ticking`, `commands`: the round as a
//!   state machine;
//! - `registry`, `game`: all rounds together, driven by commands and ticks;
//! - `sessions`, `processing`, `presence`: who is connected, and what the
//!   server decides between two waits;
//! - `seqs`: facts about sequences;
//! - `chance`: the random source.
//!
//! Every function states what it returns over the models defined next to the
//! data types, and every such statement is proved. The exception is the module
//! `chance`: it hands over to the crates that supply randomness, and what it
//! states of them is taken on trust.

pub mod catalog;
pub mod chance;
pub mod commands;
pub mod dealing;
pub mod game;
pub mod instructions;
pub mod lobby;
pub mod messages;
pub mod presence;
pub mod processing;
pub mod projection;
pub mod registry;
pub mod round;
pub mod seqs;
pub mod sessions;
pub mod settings;
pub mod starting;
pub mod text;
pub mod ticking;
pub mod user;
