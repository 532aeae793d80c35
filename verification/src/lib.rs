//! Rule engine of a match-3 tile puzzle.
//!
//! The engine owns a rectangular grid of tiles, detects runs of three or
//! more equal tiles, generates boards that start run-free yet hold at least
//! one legal move, validates and commits tile swaps, and drives the drag
//! gesture (press, drag, release) through which a player attempts a swap.
//! Rendering and input-device handling are external collaborators: the
//! engine consumes abstract drag events and emits abstract notifications.

pub mod drag;
pub mod game;
pub mod grid;
