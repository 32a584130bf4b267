//! Scripture-placement guessing game: scoring, scripture indexing, study sets,
//! player statistics, the client game state machine and the server's round logic.

pub mod scoring;
pub mod text;
pub mod scriptures;
pub mod study_sets;
pub mod stats;
pub mod atlas;
pub mod api;
pub mod randomness;
pub mod server;
pub mod game;
pub mod display;
