//! A grid snake game: the snake's body and movement, and the game state
//! machine that moves it on a timer, places food and decides collisions.

pub mod game;
pub mod snake;

pub use game::{Difficulty, Game, GameView, Input};
pub use snake::{Block, Direction, Snake, SnakeView};
