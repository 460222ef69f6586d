//! Verified core of a small character-level GPT trainer: text preparation,
//! tokenization, training/validation splits, deterministic batching,
//! checkpoint tensor layout and run configuration.

pub mod config;
pub mod random;
pub mod text;
pub mod stories;
pub mod format;
pub mod checkpoint;
pub mod model;
pub mod batching;
pub mod session;
pub mod sampling;
pub mod display;
pub mod browser;
pub mod controls;
pub mod parameters;
