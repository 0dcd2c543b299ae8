//! A two-player four-in-a-row engine: the board, the column-drop rule,
//! the winning-line scan and the turn state machine.

pub mod game_config;
pub mod board;
pub mod decimal;
pub mod game_master;
