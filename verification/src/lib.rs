//! An incremental 2048 game and a handful of small board games, with their
//! rules proved against specifications.

pub mod autoaction;
pub mod brainfuck;
pub mod condition;
pub mod connect_four;
pub mod hangman;
pub mod key;
pub mod maze;
pub mod model;
pub mod number;
pub mod points;
mod random;
pub mod slider;
pub mod sokoban;
pub mod stats;
pub mod sudoku;
pub mod twentyfourtyeight;
pub mod upgrade;
pub mod upgrades;
