//! The logical state of a Minesweeper board: where the mines lie, which cells
//! have been opened, which carry a flag, and how many mines touch a cell.

pub mod field;
pub mod game;
pub mod grid;
mod keys;
pub mod model;
pub mod random;

pub use field::{BoardError, MineField};
pub use game::Minesweeper;
pub use grid::Position;
pub use model::OpenResult;
