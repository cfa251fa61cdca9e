//! The camera transform: from grid coordinates (subunits, y up) to window
//! coordinates (pixels, y down). Only the arithmetic is here; the renderer
//! that consumes these rectangles lives outside the library.

use vstd::prelude::*;

use crate::geometry::Vector2;

verus! {

/// Window position of the tile at grid position `(x, y)` drawn `tile_w` by
/// `tile_h` pixels: the y axis flips, with row 0 on the bottom edge.
pub fn tile_screen_position(x: u32, y: u32, tile_w: u32, tile_h: u32, window_height: u32) -> (p: (
    i32,
    i32,
))
    requires
        (x as int) * (tile_w as int) <= 0x7FFF_FFFF,
        (y as int + 1) * (tile_h as int) <= window_height,
        window_height <= 0x7FFF_FFFF,
    ensures
        p.0 == (x as int) * (tile_w as int),
        p.1 == window_height - (y as int) * (tile_h as int) - tile_h,
{
    proof {
        assert((x as int) * (tile_w as int) >= 0) by (nonlinear_arith);
        assert((y as int) * (tile_h as int) >= 0) by (nonlinear_arith);
        assert((y as int + 1) * (tile_h as int) == (y as int) * (tile_h as int) + tile_h)
            by (nonlinear_arith);
    }
    let sx: u64 = (x as u64) * (tile_w as u64);
    let sy: u64 = (window_height as u64) - (y as u64) * (tile_h as u64) - (tile_h as u64);
    ((sx as u32) as i32, (sy as u32) as i32)
}

/// Window rectangle of an entity: position and draw extents scaled by pixels
/// per tile, the y axis flipped so that higher grid positions draw higher on
/// screen.
pub fn entity_screen_rect(
    position: Vector2,
    draw_w: i64,
    draw_h: i64,
    pixels_per_tile_x: u32,
    pixels_per_tile_y: u32,
    window_height: u32,
) -> (r: (i32, i32, u32, u32))
    requires
        0 <= position.x <= 0x200_0000,
        0 <= position.y <= 0x200_0000,
        0 <= draw_w <= 0x10_0000,
        0 <= draw_h <= 0x10_0000,
        pixels_per_tile_x <= 0x8000,
        pixels_per_tile_y <= 0x8000,
        window_height <= 0x7FFF_FFFF,
        ({
            let sy = (position.y + draw_h) * pixels_per_tile_y as int / 1024;
            window_height - sy >= -0x8000_0000
        }),
    ensures
        r.0 == position.x * pixels_per_tile_x as int / 1024,
        r.1 == window_height - (position.y + draw_h) * pixels_per_tile_y as int / 1024,
        r.2 == draw_w * pixels_per_tile_x as int / 1024,
        r.3 == draw_h * pixels_per_tile_y as int / 1024,
{
    proof {
        lemma_scale_bounds(position.x as int, pixels_per_tile_x as int);
        lemma_scale_bounds(position.y + draw_h, pixels_per_tile_y as int);
        lemma_scale_bounds(draw_w as int, pixels_per_tile_x as int);
        lemma_scale_bounds(draw_h as int, pixels_per_tile_y as int);
    }
    let sx: i64 = position.x * (pixels_per_tile_x as i64) / 1024;
    let sy_top: i64 = (position.y + draw_h) * (pixels_per_tile_y as i64) / 1024;
    let sy: i64 = (window_height as i64) - sy_top;
    let sw: i64 = draw_w * (pixels_per_tile_x as i64) / 1024;
    let sh: i64 = draw_h * (pixels_per_tile_y as i64) / 1024;
    (sx as i32, sy as i32, sw as u32, sh as u32)
}

/// A nonnegative coordinate times a small pixel scale, divided back into
/// pixels, stays small and nonnegative.
proof fn lemma_scale_bounds(v: int, scale: int)
    requires
        0 <= v <= 0x210_0000,
        0 <= scale <= 0x8000,
    ensures
        0 <= v * scale <= 0x108_0000_0000,
        0 <= v * scale / 1024 <= 0x7FFF_FFFF,
{
    assert(0 <= v * scale <= 0x108_0000_0000) by (nonlinear_arith)
        requires 0 <= v <= 0x210_0000, 0 <= scale <= 0x8000
    ;
    vstd::arithmetic::div_mod::lemma_div_pos_is_pos(v * scale, 1024);
    vstd::arithmetic::div_mod::lemma_div_is_ordered(v * scale, 0x108_0000_0000, 1024);
}

} // verus!
