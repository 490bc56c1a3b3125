//! Core engine for a pipe-rotation connection puzzle: a rectangular grid of
//! oriented tiles that a player rotates until every pipe segment connects
//! edge-to-edge across the grid, with no dangling ends and no leaks past the
//! boundary.
//!
//! The crate provides the tile and grid data model ([`Block`], [`World`]),
//! the plain-text level codec, the solve-check algorithm, and a command-driven
//! game reducer ([`Game`]) that owns a grid, a cursor and a cached solved flag.

pub mod block;
pub mod codec;
pub mod game;
pub mod rng;
pub mod world;

pub use block::Block;
pub use block::Direction;
pub use codec::ParseError;
pub use game::Command;
pub use game::Game;
pub use world::World;
