//! Breeding-path planning for Palworld.

pub mod chance;
pub mod child;
pub mod db;
pub mod iv;
pub mod mcp;
pub mod model;
pub mod names;
pub mod passives;
pub mod pool;
pub mod save;
pub mod search;
pub mod seqs;
pub mod steps;
pub mod text;
pub mod tui;
