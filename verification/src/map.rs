//! The level map: an immutable rectangular tile grid stored in file order
//! (top row first), the movable boxes, and the level metadata.
//!
//! The grid file stores rows top-to-bottom while all collision math runs with
//! y growing upward, so `tile_at` flips the row index once at read time;
//! `from_left_to_right_handed` is the same flip for parsed positions.

use vstd::prelude::*;

use crate::entity::Entity;
use crate::geometry::Vector2;
use crate::tile::TileType;

verus! {

/// Largest side of a tile grid, in tiles; small enough that a tile index
/// fits a 32-bit `usize`.
pub open spec fn grid_side_ok(n: int) -> bool {
    0 <= n <= 0x8000
}

/// A loaded level: tile grid, stride, boxes and metadata. Tiles never change
/// after construction; the boxes move as they are pushed.
pub struct LevelMap {
    pub name: Vec<u8>,
    pub level_music: Option<Vec<u8>>,
    pub next_level: Option<Vec<u8>>,
    pub tiles: Vec<TileType>,
    pub tiles_stride: usize,
    pub boxes: Vec<Entity>,
    pub box_sprite_width: u32,
    pub box_sprite_height: u32,
}

impl LevelMap {
    /// Number of tile columns; zero for an empty grid.
    pub open spec fn spec_n_cols(self) -> int {
        self.tiles_stride as int
    }

    /// Number of tile rows; zero for an empty grid.
    pub open spec fn spec_n_lines(self) -> int {
        if self.tiles_stride == 0 {
            0
        } else {
            self.tiles@.len() as int / self.tiles_stride as int
        }
    }

    /// The tile at grid position `(x, y)` in the bottom-up convention:
    /// row `y` counts from the bottom, while storage order puts the top row
    /// first, so the stored row is `n_lines - 1 - y`.
    pub open spec fn spec_tile_at(self, x: int, y: int) -> TileType {
        self.tiles@[(self.spec_n_lines() - 1 - y) * self.spec_n_cols() + x]
    }

    /// Structural soundness: the grid is rectangular (the tile count is a
    /// whole number of rows) and small enough that tile rectangles stay in
    /// coordinate range; every box is a well-formed entity.
    pub open spec fn wf(self) -> bool {
        &&& self.tiles_stride == 0 ==> self.tiles@.len() == 0
        &&& self.tiles_stride > 0 ==> self.tiles@.len() as int % self.tiles_stride as int == 0
        &&& grid_side_ok(self.spec_n_cols())
        &&& grid_side_ok(self.spec_n_lines())
        &&& self.boxes@.len() < 0x1000_0000
        &&& forall|i: int| 0 <= i < self.boxes@.len() ==> (#[trigger] self.boxes@[i]).wf()
    }

    /// The tile count equals rows times stride.
    pub proof fn lemma_grid_rectangular(self)
        requires
            self.wf(),
        ensures
            self.tiles@.len() == self.spec_n_lines() * self.spec_n_cols(),
    {
        if self.tiles_stride > 0 {
            vstd::arithmetic::div_mod::lemma_fundamental_div_mod(
                self.tiles@.len() as int,
                self.tiles_stride as int,
            );
        }
    }

    pub fn n_cols(&self) -> (n: usize)
        ensures
            n == self.spec_n_cols(),
    {
        self.tiles_stride
    }

    pub fn n_lines(&self) -> (n: usize)
        ensures
            n == self.spec_n_lines(),
    {
        if self.tiles_stride == 0 {
            0
        } else {
            self.tiles.len() / self.tiles_stride
        }
    }

    /// Read the tile at `(x, y)`, bottom-up. Callers keep the query inside
    /// the grid; an out-of-range lookup is a programming error, not a
    /// defaulted value.
    pub fn tile_at(&self, x: u32, y: u32) -> (t: TileType)
        requires
            self.wf(),
            x < self.spec_n_cols(),
            y < self.spec_n_lines(),
        ensures
            t == self.spec_tile_at(x as int, y as int),
    {
        let n_lines = self.n_lines();
        let flipped: usize = n_lines - (y as usize) - 1;
        proof {
            self.lemma_grid_rectangular();
            vstd::arithmetic::mul::lemma_mul_upper_bound(
                self.spec_n_lines(),
                0x8000,
                self.spec_n_cols(),
                0x8000,
            );
            vstd::arithmetic::mul::lemma_mul_inequality(
                flipped as int + 1,
                self.spec_n_lines(),
                self.spec_n_cols(),
            );
            assert((flipped + 1) * self.spec_n_cols() == flipped * self.spec_n_cols()
                + self.spec_n_cols()) by (nonlinear_arith);
            assert(flipped * self.spec_n_cols() >= 0) by (nonlinear_arith)
                requires flipped >= 0, self.spec_n_cols() >= 0
            ;
            assert(self.tiles@.len() <= 0x4000_0000);
        }
        let pos: usize = flipped * self.tiles_stride + (x as usize);
        self.tiles[pos]
    }

    /// Append a box entity one tile square at grid position `(x, y)`
    /// (bottom-up tile coordinates).
    pub fn add_box(&mut self, x: u32, y: u32)
        requires
            x <= 0x10_0000,
            y <= 0x10_0000,
        ensures
            final(self).boxes@ == old(self).boxes@.push(
                Entity {
                    position: Vector2 {
                        x: ((x as int) * 1024) as i64,
                        y: ((y as int) * 1024) as i64,
                    },
                    velocity: Vector2 { x: 0i64, y: 0i64 },
                    acceleration: Vector2 { x: 0i64, y: 0i64 },
                    draw_width: 1024i64,
                    draw_height: 1024i64,
                    collision_width: 1024i64,
                    collision_height: 1024i64,
                },
            ),
            final(self).name == old(self).name,
            final(self).level_music == old(self).level_music,
            final(self).next_level == old(self).next_level,
            final(self).tiles == old(self).tiles,
            final(self).tiles_stride == old(self).tiles_stride,
            final(self).box_sprite_width == old(self).box_sprite_width,
            final(self).box_sprite_height == old(self).box_sprite_height,
    {
        let e_box = Entity {
            position: Vector2 { x: (x as i64) * 1024, y: (y as i64) * 1024 },
            velocity: Vector2 { x: 0, y: 0 },
            acceleration: Vector2 { x: 0, y: 0 },
            draw_width: 1024,
            draw_height: 1024,
            collision_width: 1024,
            collision_height: 1024,
        };
        self.boxes.push(e_box);
    }

    /// Whether the box at list position `i` stands on a target tile, judged
    /// by the tile containing its truncated position.
    pub open spec fn spec_box_on_target(self, i: int) -> bool {
        self.spec_tile_at(
            self.boxes@[i].position.x as int / 1024,
            self.boxes@[i].position.y as int / 1024,
        ) == TileType::Target
    }

    /// Every box's truncated position lies inside the grid, so the win test
    /// may look its tile up.
    pub open spec fn boxes_in_bounds(self) -> bool {
        forall|i: int|
            0 <= i < self.boxes@.len() ==> {
                let b = #[trigger] self.boxes@[i];
                &&& 0 <= b.position.x
                &&& 0 <= b.position.y
                &&& b.position.x as int / 1024 < self.spec_n_cols()
                &&& b.position.y as int / 1024 < self.spec_n_lines()
            }
    }

    /// The terminal test: the level is won exactly when every box stands on
    /// a target tile.
    pub fn all_boxes_on_targets(&self) -> (won: bool)
        requires
            self.wf(),
            self.boxes_in_bounds(),
        ensures
            won <==> forall|i: int| 0 <= i < self.boxes@.len() ==> self.spec_box_on_target(i),
    {
        let mut index: usize = 0;
        while index < self.boxes.len()
            invariant
                self.wf(),
                self.boxes_in_bounds(),
                0 <= index <= self.boxes@.len(),
                forall|i: int| 0 <= i < index ==> self.spec_box_on_target(i),
            decreases self.boxes@.len() - index,
        {
            let b = &self.boxes[index];
            proof {
                vstd::arithmetic::div_mod::lemma_div_pos_is_pos(b.position.x as int, 1024);
                vstd::arithmetic::div_mod::lemma_div_pos_is_pos(b.position.y as int, 1024);
            }
            let tx: u32 = (b.position.x / 1024) as u32;
            let ty: u32 = (b.position.y / 1024) as u32;
            let tile = self.tile_at(tx, ty);
            if !matches!(tile, TileType::Target) {
                proof {
                    assert(!self.spec_box_on_target(index as int));
                }
                return false;
            }
            index += 1;
        }
        true
    }
}

/// The row index flipped between the file's top-down convention and the
/// grid's bottom-up convention.
pub open spec fn spec_flip_row(row: int, n_lines: int) -> int {
    n_lines - row - 1
}

/// Convert a `(column, row)` pair read in file order (top-down rows) to the
/// bottom-up convention, given the number of rows.
pub fn from_left_to_right_handed(position: (u32, u32), n_lines: u32) -> (r: (u32, u32))
    requires
        position.1 < n_lines,
    ensures
        r.0 == position.0,
        r.1 == spec_flip_row(position.1 as int, n_lines as int),
{
    (position.0, n_lines - position.1 - 1)
}

/// Flipping a row index twice with the same row count gives the index back:
/// the conversion between the two row conventions is an involution on
/// `[0, n_lines)`.
pub proof fn lemma_flip_row_involution(row: int, n_lines: int)
    requires
        0 <= row < n_lines,
    ensures
        spec_flip_row(spec_flip_row(row, n_lines), n_lines) == row,
{
}

} // verus!
