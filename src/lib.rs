//! Rules engine for a human-versus-computer battleship game on a ten by ten grid: ship
//! templates and rotations, boards and fleet placement, how a volley is answered, the
//! shot-count rules, turns, and the computer's targeting.

pub mod board;
pub mod game;
mod random;
pub mod shape;
pub mod text;

pub use board::{get_random_coordinate, Board, Coordinate, Position, Ship, COLS, ROWS};
pub use game::{Difficulty, Game, Player, Rule};
pub use shape::{
    reverse_cols_of_rows, reverse_rows_of_cols, transpose, ShipShape, ShipType, Status, SHIP_SIZE,
};
