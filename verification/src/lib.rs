//! A rules engine for shogi: board state, a compact textual move notation,
//! legal-move enumeration, a layered move-legality pipeline, and terminal
//! (checkmate) detection, with machine-checked contracts throughout.

pub mod ai;
pub mod board;
pub mod invalidmoveerror;
pub mod movement;
pub mod piece;
pub mod position;
pub mod strutil;
