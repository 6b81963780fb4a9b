pub mod game_loop_controller;
pub mod piece;
pub mod piece_types;
pub mod tootris;
