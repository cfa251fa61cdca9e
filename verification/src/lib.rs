//! Verified core of a tile-based box-pushing puzzle game.
//!
//! Geometry is carried in fixed-point coordinates: `SUBUNITS` subunits make
//! one tile. The collision and movement rules, the tile grid, the level-file
//! grammar and the win condition are all specified and proved here; windowing,
//! rendering and audio live outside the library.

use vstd::prelude::*;

pub mod entity;
pub mod export;
pub mod geometry;
pub mod grid;
pub mod level;
pub mod map;
pub mod motion;
pub mod screen;
pub mod sprite;
pub mod text;
pub mod tile;

pub use entity::Entity;
pub use geometry::Rect2;
pub use geometry::Vector2;
pub use map::LevelMap;
pub use tile::TileType;

verus! {

/// Number of fixed-point subunits in one tile edge.
pub const SUBUNITS: i64 = 1024;

} // verus!
