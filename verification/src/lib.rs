//! Solvers for a set of small, independent puzzles, among them a password
//! rule cascade, a recipe scaler, an analyzer of time-ordered identifiers and
//! a contest ranking. Every function computes over in-memory values; only
//! the analysis at the present instant reads a clock.

pub mod calendar;
pub mod contest;
pub mod cookie;
pub mod cubes;
pub mod digest;
pub mod elves;
pub mod nice;
pub mod paging;
pub mod password;
pub mod pixels;
pub mod recipe;
pub mod render;
pub mod sockets;
pub mod text;
pub mod ulids;
