//! Verified core of a terminal snake game: grid geometry, snakes,
//! and the board simulation that moves snakes, feeds them, detects
//! collisions and scores the outcome. Terminal input and drawing live
//! outside this crate; the library works on plain values.

pub mod board;
pub mod geometry;
pub mod points;
pub mod report;
pub mod snake;
