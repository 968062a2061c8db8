pub mod cell;
pub mod field;
pub mod flood;
pub mod game;
pub mod grid;

pub use cell::Cell;
pub use field::{check_field, count_mines, generate_mines, try_generate, ConfigurationError};
pub use flood::flood_fill;
pub use game::{Direction, Game, GameStatus, Position};
