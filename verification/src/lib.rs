//! Voice commands for games: audio capture, profile configuration and the
//! rules behind every `voice-orders` subcommand.

pub mod audio;
pub mod commands;
pub mod config;
pub mod errors;
pub mod hotkey;
pub mod output;
pub mod path;
pub mod ranking;
pub mod recognition;
pub mod text;
pub mod time;
pub mod words;
