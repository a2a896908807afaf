//! A small Breakout game: axis-aligned rectangle collisions, balls, blocks,
//! a paddle, and the Menu / Playing / Won / Dead state machine, with all
//! lengths held as integers.
//!
//! Lengths are measured in micro-pixels (one pixel is `UNIT` of them),
//! velocities in thousandths, and frame time in milliseconds.

pub mod geometry;
pub mod random;
pub mod entities;
pub mod board;
pub mod scan;
pub mod session;

pub use geometry::{Point, Rect, Vel, resolve_collision, intersect};
pub use entities::{Ball, Block, BlockColor, BlockType, Player};
pub use board::init_blocks;
