//! A deterministic, tick-driven snake simulation on a toroidal grid, together
//! with a text renderer for its frames.
//!
//! Every executable function carries a contract over the mathematical model of
//! the game (`GameView`), and the contracts are proved.

pub mod direction;
pub mod game;
pub mod geometry;
pub mod input;
pub mod laws;
pub mod placement;
pub mod queue;
pub mod render;
pub mod tile;
