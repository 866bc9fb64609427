//! Minesweeper game logic: cells, the board, revealing (with chording and
//! flood fill), flags, and the win condition, each with a verified contract.

pub mod cells;
pub mod grid;
pub mod rules;
pub mod game_play;
pub mod chance;
pub mod laws;
pub mod text;
pub mod cli_game;
pub mod tui_game;
pub mod gui_game;
