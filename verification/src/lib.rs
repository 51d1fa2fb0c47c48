//! Typing-test engine: word lists, game state, keystroke handling and scoring.

pub mod text;
pub mod cli;
pub mod stats;
pub mod game;
pub mod keyboard;
pub mod keyboard_laws;
pub mod rng;
pub mod mode;
pub mod config;
pub mod words;
pub mod menu;
pub mod results;
