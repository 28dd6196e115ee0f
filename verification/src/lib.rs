//! Backend library for a session-based multiplayer word-placement game.
//!
//! The crate holds the verified core of the server: the binary frame
//! codec, the lobby and session registries, and the turn-based game
//! engine with its cross-word board validation.

pub mod board;
pub mod cards;
pub mod config;
pub mod ext;
pub mod frame;
pub mod game;
pub mod game_service;
pub mod lobby;
pub mod messages;
pub mod player;
pub mod router;
pub mod words;
