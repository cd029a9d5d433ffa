//! A small, fully specified engine for Conway's Game of Life: a fixed-size
//! two-dimensional grid of alive/dead cells, advanced generation by
//! generation under the classic neighbor-counting rules.

pub mod game_of_life;

pub use game_of_life::CellState;
pub use game_of_life::Grid;
pub use game_of_life::NeighbourState;
pub use game_of_life::Point;
