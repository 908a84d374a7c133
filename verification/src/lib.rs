//! Dice-notation engine for a chat-bot command handler.
//!
//! The library parses free-form dice requests such as `"2d6+3 Fire damage"`
//! into a validated roll specification, simulates the rolls against a uniform
//! random source, resolves advantage/disadvantage between two attempts, and
//! renders the outcome as a bounded-length display string.

pub mod cli;
pub mod dice;
pub mod digits;
pub mod dnd;
pub mod parser;
pub mod storage;
pub mod utils;
