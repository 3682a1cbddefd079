//! A Minesweeper board: a dense grid of cells, mines placed by rejection
//! sampling, and the reveal / flag rules, each stated and proved with Verus.

pub mod minesweeper;
pub mod laws;
pub mod random;

pub use minesweeper::{
    BoardError, BoardView, Cell, CellState, CellValue, Minesweeper, RevealResult, ShownCell,
};
