//! Movement integration and collision-constrained motion: the
//! force-to-position pipeline, the all-or-nothing wall constraint, and the
//! box push rule.

use vstd::prelude::*;

use crate::entity::div_floor_i64;
use crate::entity::spec_first_hit;
use crate::entity::Entity;
use crate::geometry::div_trunc;
use crate::geometry::spec_collision;
use crate::geometry::spec_normalize;
use crate::geometry::spec_translate;
use crate::geometry::tdiv;
use crate::geometry::vec_ok;
use crate::geometry::Rect2;
use crate::geometry::Vector2;
use crate::map::LevelMap;
use crate::tile::TileType;

verus! {

/// The unit-square rectangle of the tile at grid position `(tx, ty)`, in
/// subunits.
pub open spec fn spec_tile_rect(tx: int, ty: int) -> Rect2 {
    Rect2 {
        x0: (tx * 1024) as i64,
        y0: (ty * 1024) as i64,
        x1: (tx * 1024 + 1024) as i64,
        y1: (ty * 1024 + 1024) as i64,
    }
}

/// Whether moving a body with collision rectangle `rect` by `movement` would
/// make it overlap some wall tile of the grid. This is the whole collision
/// policy: only the translated rectangle is tested, so the constraint is
/// all-or-nothing per frame, with no partial slide.
pub open spec fn tiles_block(map: LevelMap, rect: Rect2, movement: Vector2) -> bool {
    exists|tx: int, ty: int|
        #![trigger map.spec_tile_at(tx, ty)]
        {
            &&& 0 <= tx < map.spec_n_cols()
            &&& 0 <= ty < map.spec_n_lines()
            &&& map.spec_tile_at(tx, ty) == TileType::Wall
            &&& spec_collision(spec_translate(rect, movement), spec_tile_rect(tx, ty)) is Some
        }
}

/// What a blocked movement becomes: nothing of it survives.
pub open spec fn spec_constrained(map: LevelMap, rect: Rect2, movement: Vector2) -> Vector2 {
    if tiles_block(map, rect, movement) {
        Vector2 { x: 0, y: 0 }
    } else {
        movement
    }
}

impl Entity {
    /// Constrain a tentative movement against the static wall tiles: if the
    /// moved collision rectangle would overlap any wall tile, the whole
    /// movement is rejected, otherwise it passes unchanged. Only tiles under
    /// the bounding rectangle of the start and end rectangles are swept.
    pub fn collision_against_tiles(&self, map: &LevelMap, movement: Vector2) -> (constrained:
        Vector2)
        requires
            self.wf(),
            map.wf(),
            vec_ok(movement),
        ensures
            constrained == spec_constrained(*map, self.spec_containing_rect(), movement),
    {
        let entity_rect = self.containing_rect();
        let target_rect = entity_rect.translate(movement);
        let bounding = Rect2::bounding_rect(&entity_rect, &target_rect);

        let n_cols = map.n_cols();
        let n_lines = map.n_lines();

        let lo_x = clamp_tile(div_floor_i64(bounding.x0, 1024), n_cols);
        let hi_x = clamp_tile(div_floor_i64(bounding.x1 + 1023, 1024), n_cols);
        let lo_y = clamp_tile(div_floor_i64(bounding.y0, 1024), n_lines);
        let hi_y = clamp_tile(div_floor_i64(bounding.y1 + 1023, 1024), n_lines);

        proof {
            vstd::arithmetic::div_mod::lemma_div_is_ordered(
                bounding.x0 as int,
                bounding.x1 as int + 1023,
                1024,
            );
            vstd::arithmetic::div_mod::lemma_div_is_ordered(
                bounding.y0 as int,
                bounding.y1 as int + 1023,
                1024,
            );
        }

        let ghost target = spec_translate(self.spec_containing_rect(), movement);

        let mut ty: usize = lo_y;
        while ty < hi_y
            invariant
                self.wf(),
                map.wf(),
                vec_ok(movement),
                lo_y <= ty <= hi_y,
                lo_x <= hi_x,
                n_cols == map.spec_n_cols(),
                n_lines == map.spec_n_lines(),
                hi_x <= n_cols,
                hi_y <= n_lines,
                target == spec_translate(self.spec_containing_rect(), movement),
                target_rect == target,
                forall|ax: int, ay: int|
                    #![trigger map.spec_tile_at(ax, ay)]
                    lo_x <= ax < hi_x && lo_y <= ay < ty ==> !(map.spec_tile_at(ax, ay)
                        == TileType::Wall && spec_collision(target, spec_tile_rect(ax, ay))
                        is Some),
            decreases hi_y - ty,
        {
            let mut tx: usize = lo_x;
            while tx < hi_x
                invariant
                    self.wf(),
                    map.wf(),
                    vec_ok(movement),
                    lo_y <= ty < hi_y,
                    lo_x <= tx <= hi_x,
                    n_cols == map.spec_n_cols(),
                    n_lines == map.spec_n_lines(),
                    hi_x <= n_cols,
                    hi_y <= n_lines,
                    target == spec_translate(self.spec_containing_rect(), movement),
                    target_rect == target,
                    forall|ax: int, ay: int|
                        #![trigger map.spec_tile_at(ax, ay)]
                        lo_x <= ax < hi_x && lo_y <= ay < ty ==> !(map.spec_tile_at(ax, ay)
                            == TileType::Wall && spec_collision(target, spec_tile_rect(ax, ay))
                            is Some),
                    forall|ax: int|
                        #![trigger map.spec_tile_at(ax, ty as int)]
                        lo_x <= ax < tx ==> !(map.spec_tile_at(ax, ty as int) == TileType::Wall
                            && spec_collision(target, spec_tile_rect(ax, ty as int)) is Some),
                decreases hi_x - tx,
            {
                let tile = map.tile_at(tx as u32, ty as u32);
                let tile_rect = Rect2 {
                    x0: (tx as i64) * 1024,
                    y0: (ty as i64) * 1024,
                    x1: (tx as i64) * 1024 + 1024,
                    y1: (ty as i64) * 1024 + 1024,
                };
                proof {
                    assert(tile_rect == spec_tile_rect(tx as int, ty as int));
                }
                if matches!(tile, TileType::Wall) {
                    if target_rect.collides_with(&tile_rect).is_some() {
                        proof {
                            assert(map.spec_tile_at(tx as int, ty as int) == TileType::Wall
                                && spec_collision(
                                target,
                                spec_tile_rect(tx as int, ty as int),
                            ) is Some);
                            assert(tiles_block(*map, self.spec_containing_rect(), movement));
                        }
                        return Vector2 { x: 0, y: 0 };
                    }
                }
                tx += 1;
            }
            ty += 1;
        }
        proof {
            lemma_sweep_covers(
                *map,
                self.spec_containing_rect(),
                movement,
                lo_x as int,
                hi_x as int,
                lo_y as int,
                hi_y as int,
            );
        }
        movement
    }
}

/// Reciprocal of the entity mass: force is multiplied by this to give
/// acceleration, in subunits per second squared per subunit of force.
pub const ENTITY_INV_MASS: i64 = 172;

/// Drag factor: acceleration loses `ENTITY_DRAG` times the current velocity.
pub const ENTITY_DRAG: i64 = 20;

/// The acceleration produced by a (normalized) force against the current
/// velocity: `force / mass - velocity * drag`.
pub open spec fn spec_accel(f: Vector2, vel: Vector2) -> Vector2 {
    Vector2 {
        x: (f.x * ENTITY_INV_MASS - vel.x * ENTITY_DRAG) as i64,
        y: (f.y * ENTITY_INV_MASS - vel.y * ENTITY_DRAG) as i64,
    }
}

/// A per-second rate scaled by `dt_ms` milliseconds, truncated toward zero.
pub open spec fn spec_dt_scaled(v: Vector2, dt_ms: int) -> Vector2 {
    Vector2 { x: tdiv(v.x * dt_ms, 1000) as i64, y: tdiv(v.y * dt_ms, 1000) as i64 }
}

/// Per-frame bound on the entity's velocity, in subunits per second.
pub open spec fn vel_ok(v: Vector2) -> bool {
    &&& -0x10_0000 <= v.x <= 0x10_0000
    &&& -0x10_0000 <= v.y <= 0x10_0000
}

/// Positions the mover functions accept: comfortably inside coordinate
/// range, so one frame of movement cannot leave it.
pub open spec fn pos_ok(v: Vector2) -> bool {
    &&& -0x4000_0000 <= v.x <= 0x4000_0000
    &&& -0x4000_0000 <= v.y <= 0x4000_0000
}

/// A value bounded by a frame's arithmetic times at most 1000 milliseconds
/// stays far from the `i64` edges.
proof fn lemma_small_product(a: int, dt: int)
    requires
        -0x1_0000_0000 <= a <= 0x1_0000_0000,
        0 <= dt <= 1000,
    ensures
        -0x400_0000_0000 <= a * dt <= 0x400_0000_0000,
        a * dt > i64::MIN,
        vstd::math::abs(tdiv(a * dt, 1000)) <= vstd::math::abs(a),
{
    assert(-0x400_0000_0000 <= a * dt <= 0x400_0000_0000) by (nonlinear_arith)
        requires
            -0x1_0000_0000 <= a <= 0x1_0000_0000,
            0 <= dt <= 1000,
    ;
    let p = a * dt;
    let ab = vstd::math::abs(a);
    let pb = vstd::math::abs(p);
    assert(pb <= ab * 1000) by (nonlinear_arith)
        requires
            p == a * dt,
            0 <= dt <= 1000,
            ab == vstd::math::abs(a),
            pb == vstd::math::abs(p),
    ;
    vstd::arithmetic::div_mod::lemma_div_is_ordered(pb as int, (ab * 1000) as int, 1000);
    vstd::arithmetic::div_mod::lemma_div_multiples_vanish(ab as int, 1000);
    vstd::arithmetic::div_mod::lemma_div_pos_is_pos(pb as int, 1000);
    if p >= 0 {
        assert(tdiv(p, 1000) == pb as int / 1000);
    } else {
        assert(tdiv(p, 1000) == -(pb as int / 1000));
    }
}

/// Advance the motion state one frame: normalize the input force, derive
/// acceleration with drag, step the velocity, and return the tentative
/// movement `velocity * dt` — not yet applied and not yet constrained.
fn integrate_motion(entity: &mut Entity, force: Vector2, dt_ms: u32) -> (tentative: Vector2)
    requires
        old(entity).wf(),
        pos_ok(old(entity).position),
        vel_ok(old(entity).velocity),
        pos_ok(force),
        dt_ms <= 1000,
    ensures
        ({
            let f = spec_normalize(force);
            let acc = spec_accel(f, old(entity).velocity);
            let vel = old(entity).velocity.spec_plus(spec_dt_scaled(acc, dt_ms as int));
            &&& final(entity).acceleration == acc
            &&& final(entity).velocity == vel
            &&& final(entity).position == old(entity).position
            &&& final(entity).draw_width == old(entity).draw_width
            &&& final(entity).draw_height == old(entity).draw_height
            &&& final(entity).collision_width == old(entity).collision_width
            &&& final(entity).collision_height == old(entity).collision_height
            &&& final(entity).wf()
            &&& tentative == spec_dt_scaled(vel, dt_ms as int)
            &&& -0x800_0000 <= tentative.x <= 0x800_0000
            &&& -0x800_0000 <= tentative.y <= 0x800_0000
        }),
{
    let mut f = force;
    f.normalize_or_zero();

    let ax: i64 = f.x * ENTITY_INV_MASS - entity.velocity.x * ENTITY_DRAG;
    let ay: i64 = f.y * ENTITY_INV_MASS - entity.velocity.y * ENTITY_DRAG;
    entity.acceleration = Vector2 { x: ax, y: ay };

    proof {
        lemma_small_product(ax as int, dt_ms as int);
        lemma_small_product(ay as int, dt_ms as int);
    }
    let dvx = div_trunc(ax * (dt_ms as i64), 1000);
    let dvy = div_trunc(ay * (dt_ms as i64), 1000);
    entity.velocity = Vector2 { x: entity.velocity.x + dvx, y: entity.velocity.y + dvy };

    proof {
        lemma_small_product(entity.velocity.x as int, dt_ms as int);
        lemma_small_product(entity.velocity.y as int, dt_ms as int);
    }
    Vector2 {
        x: div_trunc(entity.velocity.x * (dt_ms as i64), 1000),
        y: div_trunc(entity.velocity.y * (dt_ms as i64), 1000),
    }
}

/// One frame of force-driven movement against the static tiles alone:
/// integrate, constrain against the walls (all or nothing), and apply.
pub fn move_entity(entity: &mut Entity, force: Vector2, map: &LevelMap, dt_ms: u32)
    requires
        old(entity).wf(),
        map.wf(),
        pos_ok(old(entity).position),
        vel_ok(old(entity).velocity),
        pos_ok(force),
        dt_ms <= 1000,
    ensures
        ({
            let f = spec_normalize(force);
            let acc = spec_accel(f, old(entity).velocity);
            let vel = old(entity).velocity.spec_plus(spec_dt_scaled(acc, dt_ms as int));
            let tentative = spec_dt_scaled(vel, dt_ms as int);
            let moved = spec_constrained(
                *map,
                old(entity).spec_containing_rect(),
                tentative,
            );
            &&& final(entity).acceleration == acc
            &&& final(entity).velocity == vel
            &&& final(entity).position == old(entity).position.spec_plus(moved)
            &&& final(entity).draw_width == old(entity).draw_width
            &&& final(entity).draw_height == old(entity).draw_height
            &&& final(entity).collision_width == old(entity).collision_width
            &&& final(entity).collision_height == old(entity).collision_height
            &&& final(entity).wf()
        }),
{
    let tentative = integrate_motion(entity, force, dt_ms);
    let moved = entity.collision_against_tiles(map, tentative);
    entity.position = Vector2 { x: entity.position.x + moved.x, y: entity.position.y + moved.y };
}

/// What happens to the player when the box it pushes is itself blocked by a
/// wall: the engine's behavior is left open, so the resolution is chosen by
/// the caller.
#[derive(Clone, Copy, Debug, PartialEq, Eq, Structural)]
pub enum PushPolicy {
    /// The player keeps its own tile-constrained movement even when the
    /// pushed box cannot move, and may overlap the box.
    PlayerKeepsMovement,
    /// The player only moves as far as the pushed box does.
    PlayerMatchesBox,
}

/// One frame of player movement with push mechanics: integrate, constrain
/// the player's movement against the walls, then test the result against
/// every box (first hit wins). A struck box is pushed by the same movement,
/// itself constrained against the walls from the box's position; the player
/// then moves by its own movement or by the box's, per `policy`.
pub fn move_player_with_push(
    player: &mut Entity,
    map: &mut LevelMap,
    force: Vector2,
    dt_ms: u32,
    policy: PushPolicy,
)
    requires
        old(player).wf(),
        old(map).wf(),
        pos_ok(old(player).position),
        vel_ok(old(player).velocity),
        pos_ok(force),
        dt_ms <= 1000,
        forall|i: int|
            0 <= i < old(map).boxes@.len() ==> pos_ok((#[trigger] old(map).boxes@[i]).position),
    ensures
        final(map).name == old(map).name,
        final(map).level_music == old(map).level_music,
        final(map).next_level == old(map).next_level,
        final(map).tiles == old(map).tiles,
        final(map).tiles_stride == old(map).tiles_stride,
        final(map).box_sprite_width == old(map).box_sprite_width,
        final(map).box_sprite_height == old(map).box_sprite_height,
        final(map).wf(),
        final(player).wf(),
        ({
            let f = spec_normalize(force);
            let acc = spec_accel(f, old(player).velocity);
            let vel = old(player).velocity.spec_plus(spec_dt_scaled(acc, dt_ms as int));
            let tentative = spec_dt_scaled(vel, dt_ms as int);
            let moved = spec_constrained(
                *old(map),
                old(player).spec_containing_rect(),
                tentative,
            );
            let hit = spec_first_hit(
                old(map).boxes@,
                spec_translate(old(player).spec_containing_rect(), moved),
            );
            &&& final(player).acceleration == acc
            &&& final(player).velocity == vel
            &&& final(player).draw_width == old(player).draw_width
            &&& final(player).draw_height == old(player).draw_height
            &&& final(player).collision_width == old(player).collision_width
            &&& final(player).collision_height == old(player).collision_height
            &&& if hit == -1 {
                &&& final(map).boxes == old(map).boxes
                &&& final(player).position == old(player).position.spec_plus(moved)
            } else {
                let b = old(map).boxes@[hit];
                let box_moved = spec_constrained(*old(map), b.spec_containing_rect(), moved);
                &&& final(map).boxes@ == old(map).boxes@.update(
                    hit,
                    Entity { position: b.position.spec_plus(box_moved), ..b },
                )
                &&& final(player).position == old(player).position.spec_plus(
                    if policy == PushPolicy::PlayerMatchesBox {
                        box_moved
                    } else {
                        moved
                    },
                )
            }
        }),
{
    let tentative = integrate_motion(player, force, dt_ms);
    let moved = player.collision_against_tiles(map, tentative);
    let hit = player.collision_against_entities(&map.boxes, moved);

    let player_moved: Vector2;
    if hit >= 0 {
        let idx = hit as usize;
        let b = map.boxes[idx];
        let box_moved = b.collision_against_tiles(map, moved);
        map.boxes[idx] = Entity {
            position: Vector2 { x: b.position.x + box_moved.x, y: b.position.y + box_moved.y },
            ..b
        };
        player_moved = match policy {
            PushPolicy::PlayerMatchesBox => box_moved,
            PushPolicy::PlayerKeepsMovement => moved,
        };
    } else {
        player_moved = moved;
    }
    player.position = Vector2 {
        x: player.position.x + player_moved.x,
        y: player.position.y + player_moved.y,
    };
}

/// How far a rectangle may move toward an obstacle, in subunits: all of one
/// tile when the rectangles do not already collide, nothing otherwise. The
/// direction is accepted for symmetry with finer future resolutions and is
/// not consulted.
#[allow(unused_variables)]
pub fn allowed_motion_before_collision(moving: &Rect2, direction: Vector2, obstacle: &Rect2) -> (
    amount: i64)
    requires
        crate::geometry::rect_loose(*obstacle),
    ensures
        amount == if spec_collision(*moving, *obstacle) is Some {
            0int
        } else {
            1024int
        },
{
    if moving.collides_with(obstacle).is_some() {
        0
    } else {
        1024
    }
}

/// A wall tile directly ahead blocks the whole movement: a one-tile body
/// aligned with tile (5, 5), asked to move right by less than two tiles
/// (but not exactly one), ends the frame where it started. Moving exactly
/// one tile would land the body in perfect coincidence with the wall, which
/// the boundary-exclusive collision test does not report, and moving two or
/// more tiles jumps past the wall entirely: only the landing rectangle is
/// tested.
pub proof fn lemma_wall_blocks_movement(map: LevelMap, tx: int, ty: int, m: i64)
    requires
        map.wf(),
        0 <= tx,
        tx + 1 < map.spec_n_cols(),
        0 <= ty < map.spec_n_lines(),
        tx <= 0x8000,
        map.spec_tile_at(tx + 1, ty) == TileType::Wall,
        0 < m < 2048,
        m != 1024,
    ensures
        spec_constrained(map, spec_tile_rect(tx, ty), Vector2 { x: m, y: 0 }) == (Vector2 {
            x: 0i64,
            y: 0i64,
        }),
{
    let movement = Vector2 { x: m, y: 0 };
    let target = spec_translate(spec_tile_rect(tx, ty), movement);
    assert(spec_collision(target, spec_tile_rect(tx + 1, ty)) is Some);
    assert(tiles_block(map, spec_tile_rect(tx, ty), movement));
}

/// Clamp a tile index to `[0, limit]`.
fn clamp_tile(v: i64, limit: usize) -> (c: usize)
    requires
        limit <= 0x8000,
    ensures
        c == spec_clamp(v as int, limit as int),
{
    if v < 0 {
        0
    } else if v > limit as i64 {
        limit
    } else {
        v as usize
    }
}

pub open spec fn spec_clamp(v: int, limit: int) -> int {
    if v < 0 {
        0
    } else if v > limit {
        limit
    } else {
        v
    }
}

/// Every wall tile that the moved rectangle can strike lies inside the swept
/// window: a tile that collides overlaps the moved rectangle openly, and the
/// moved rectangle lies inside the bounding rectangle, whose sides — floored
/// and ceiled to whole tiles and clamped to the grid — are the window.
proof fn lemma_sweep_covers(
    map: LevelMap,
    rect: Rect2,
    movement: Vector2,
    lo_x: int,
    hi_x: int,
    lo_y: int,
    hi_y: int,
)
    requires
        map.wf(),
        crate::geometry::rect_ok(rect),
        vec_ok(movement),
        ({
            let target = spec_translate(rect, movement);
            let bx0 = if rect.x0 <= target.x0 { rect.x0 as int } else { target.x0 as int };
            let by0 = if rect.y0 <= target.y0 { rect.y0 as int } else { target.y0 as int };
            let bx1 = if rect.x1 >= target.x1 { rect.x1 as int } else { target.x1 as int };
            let by1 = if rect.y1 >= target.y1 { rect.y1 as int } else { target.y1 as int };
            &&& lo_x == spec_clamp(bx0 / 1024, map.spec_n_cols())
            &&& hi_x == spec_clamp((bx1 + 1023) / 1024, map.spec_n_cols())
            &&& lo_y == spec_clamp(by0 / 1024, map.spec_n_lines())
            &&& hi_y == spec_clamp((by1 + 1023) / 1024, map.spec_n_lines())
        }),
        forall|ax: int, ay: int|
            #![trigger map.spec_tile_at(ax, ay)]
            lo_x <= ax < hi_x && lo_y <= ay < hi_y ==> !(map.spec_tile_at(ax, ay)
                == TileType::Wall && spec_collision(
                spec_translate(rect, movement),
                spec_tile_rect(ax, ay),
            ) is Some),
    ensures
        !tiles_block(map, rect, movement),
{
    let target = spec_translate(rect, movement);
    assert forall|tx: int, ty: int|
        0 <= tx < map.spec_n_cols() && 0 <= ty < map.spec_n_lines() && #[trigger] map.spec_tile_at(
            tx,
            ty,
        ) == TileType::Wall implies !(spec_collision(target, spec_tile_rect(tx, ty)) is Some) by {
        if spec_collision(target, spec_tile_rect(tx, ty)) is Some {
            let tile = spec_tile_rect(tx, ty);
            crate::geometry::lemma_collision_implies_overlap(target, tile);
            lemma_tile_in_window(tx, target.x0 as int, target.x1 as int);
            lemma_tile_in_window(ty, target.y0 as int, target.y1 as int);
            let bx0 = if rect.x0 <= target.x0 { rect.x0 as int } else { target.x0 as int };
            let by0 = if rect.y0 <= target.y0 { rect.y0 as int } else { target.y0 as int };
            let bx1 = if rect.x1 >= target.x1 { rect.x1 as int } else { target.x1 as int };
            let by1 = if rect.y1 >= target.y1 { rect.y1 as int } else { target.y1 as int };
            vstd::arithmetic::div_mod::lemma_div_is_ordered(bx0, target.x0 as int, 1024);
            vstd::arithmetic::div_mod::lemma_div_is_ordered(by0, target.y0 as int, 1024);
            vstd::arithmetic::div_mod::lemma_div_is_ordered(
                target.x1 as int + 1023,
                bx1 + 1023,
                1024,
            );
            vstd::arithmetic::div_mod::lemma_div_is_ordered(
                target.y1 as int + 1023,
                by1 + 1023,
                1024,
            );
        }
    }
}

/// If the tile spanning `[t * 1024, t * 1024 + 1024]` overlaps `(c0, c1)`
/// openly, then `t` lies between the floor of `c0 / 1024` and the ceiling of
/// `c1 / 1024`.
proof fn lemma_tile_in_window(t: int, c0: int, c1: int)
    requires
        t * 1024 < c1,
        c0 < t * 1024 + 1024,
    ensures
        c0 / 1024 <= t,
        t < (c1 + 1023) / 1024,
{
    vstd::arithmetic::div_mod::lemma_div_multiples_vanish(t, 1024);
    // lower: c0 < (t + 1) * 1024, so c0 / 1024 <= t
    assert((t + 1) * 1024 == t * 1024 + 1024) by (nonlinear_arith);
    vstd::arithmetic::div_mod::lemma_div_is_ordered(c0, t * 1024 + 1023, 1024);
    vstd::arithmetic::div_mod::lemma_div_multiples_vanish_fancy(t, 1023, 1024);
    // upper: t * 1024 + 1023 < c1 + 1023, so t <= (c1 + 1023 - 1) / 1024 and
    // t * 1024 <= c1 - 1 gives t < ceiling
    vstd::arithmetic::div_mod::lemma_div_is_ordered(t * 1024 + 1024, c1 + 1023, 1024);
    vstd::arithmetic::div_mod::lemma_div_multiples_vanish_fancy(t + 1, 0, 1024);
    assert((t + 1) * 1024 + 0 == t * 1024 + 1024) by (nonlinear_arith);
}

} // verus!
