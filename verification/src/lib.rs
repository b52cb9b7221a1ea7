//! A Wordle solving assistant: clue parsing, candidate filtering,
//! next-guess suggestion and the decisions of an interactive game.

pub mod clue;
pub mod feedback;
pub mod text;
pub mod solver;
pub mod words;
pub mod game;
