//! A falling-block puzzle game engine: piece geometry and rotation, a
//! collision and boundary system, a bordered playfield with row clearing, and
//! the game-state machine that drives ticking, locking, and scoring.
pub mod game;
pub mod outside;
pub mod rng;
pub mod settings;
pub mod ui;
