//! A toroidal-grid snake simulation with a software RGBA rasterizer.
//!
//! The simulation advances in discrete ticks: the snake's segments each move
//! one cell in their own direction, queued turns propagate down the body as
//! segments reach the cell where the turn was recorded, food grows the snake
//! by one cell, and a self-collision ends the game. The board renders the
//! state into a flat RGBA pixel buffer, with an optional grid-line overlay.
#![verifier::loop_isolation(false)]

pub mod board;
pub mod color;
pub mod game;
pub mod geometry;
pub mod laws;
pub mod snake;

pub use board::Board;
pub use board::BoardBuilder;
pub use board::BoardGrid;
pub use board::PixelCanvasError;
pub use color::RGBA;
pub use game::Game;
pub use game::TickResult;
pub use geometry::Direction;
pub use geometry::Position;
pub use geometry::move_one;
pub use snake::Joint;
pub use snake::Snake;
pub use snake::SnakeCell;
