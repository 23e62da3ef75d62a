//! Guanqi: the rules, records and protocols behind a Go board with an analysis engine.

pub mod app;
pub mod board;
pub mod double;
pub mod engine;
pub mod natural;
pub mod number;
pub mod play;
pub mod portal;
pub mod sgf;
pub mod text;
