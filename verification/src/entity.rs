//! Movable things: the player and the boxes. An entity carries its motion
//! state and two sizes — the rectangle it is drawn with and the (possibly
//! smaller) rectangle it collides with.

use vstd::prelude::*;

use crate::geometry::rect_ok;
use crate::geometry::spec_collision;
use crate::geometry::spec_translate;
use crate::geometry::vec_ok;
use crate::geometry::Rect2;
use crate::geometry::Vector2;

verus! {

/// Largest extent of an entity, in subunits (1024 tiles).
pub open spec fn dim_ok(d: int) -> bool {
    0 <= d <= 0x10_0000
}

/// A movable body in the grid world: position, motion state, draw extents
/// and collision extents, all in subunits.
#[derive(Clone, Copy, Debug, PartialEq, Eq, Structural)]
pub struct Entity {
    pub position: Vector2,
    pub velocity: Vector2,
    pub acceleration: Vector2,
    pub draw_width: i64,
    pub draw_height: i64,
    pub collision_width: i64,
    pub collision_height: i64,
}

impl Entity {
    /// Structural soundness: coordinates in range and extents small enough
    /// that every derived rectangle fits comfortably in an `i64`.
    pub open spec fn wf(self) -> bool {
        &&& vec_ok(self.position)
        &&& vec_ok(self.velocity)
        &&& vec_ok(self.acceleration)
        &&& dim_ok(self.draw_width as int)
        &&& dim_ok(self.draw_height as int)
        &&& dim_ok(self.collision_width as int)
        &&& dim_ok(self.collision_height as int)
    }

    /// The collision rectangle at the entity's current position.
    pub open spec fn spec_containing_rect(self) -> Rect2 {
        Rect2 {
            x0: self.position.x,
            y0: self.position.y,
            x1: (self.position.x + self.collision_width) as i64,
            y1: (self.position.y + self.collision_height) as i64,
        }
    }

    /// A fresh entity at `p0`, at rest.
    pub fn new(p0: Vector2, collision_w: i64, collision_h: i64, draw_w: i64, draw_h: i64) -> (e:
        Entity)
        ensures
            e.position == p0,
            e.velocity == (Vector2 { x: 0i64, y: 0i64 }),
            e.acceleration == (Vector2 { x: 0i64, y: 0i64 }),
            e.collision_width == collision_w,
            e.collision_height == collision_h,
            e.draw_width == draw_w,
            e.draw_height == draw_h,
    {
        Entity {
            position: p0,
            velocity: Vector2 { x: 0, y: 0 },
            acceleration: Vector2 { x: 0, y: 0 },
            draw_width: draw_w,
            draw_height: draw_h,
            collision_width: collision_w,
            collision_height: collision_h,
        }
    }

    pub fn containing_rect(&self) -> (r: Rect2)
        requires
            self.wf(),
        ensures
            r == self.spec_containing_rect(),
            rect_ok(r),
    {
        Rect2 {
            x0: self.position.x,
            y0: self.position.y,
            x1: self.position.x + self.collision_width,
            y1: self.position.y + self.collision_height,
        }
    }

    /// Snap to the tile the entity currently stands in, offset so that the
    /// draw rectangle is centered within the whole tiles it spans: the
    /// fractional part of the position is replaced by half the slack between
    /// the draw extent and that extent rounded up to whole tiles.
    pub fn center_on_current_tile_rect(&mut self)
        requires
            old(self).wf(),
            -0x4000_0000 <= old(self).position.x <= 0x4000_0000,
            -0x4000_0000 <= old(self).position.y <= 0x4000_0000,
        ensures
            *final(self) == (Entity {
                position: Vector2 {
                    x: (1024 * (old(self).position.x as int / 1024) + (round_up_to_tile(
                        old(self).draw_width as int,
                    ) - old(self).draw_width) / 2) as i64,
                    y: (1024 * (old(self).position.y as int / 1024) + (round_up_to_tile(
                        old(self).draw_height as int,
                    ) - old(self).draw_height) / 2) as i64,
                },
                ..*old(self)
            }),
            final(self).wf(),
    {
        let x_whole = round_up_units(self.draw_width);
        let y_whole = round_up_units(self.draw_height);
        let x_diff = x_whole - self.draw_width;
        let y_diff = y_whole - self.draw_height;

        let fx = div_floor_i64(self.position.x, 1024);
        let fy = div_floor_i64(self.position.y, 1024);
        self.position.x = fx * 1024 + x_diff / 2;
        self.position.y = fy * 1024 + y_diff / 2;
        proof {
            vstd::arithmetic::div_mod::lemma_div_pos_is_pos(old(self).draw_width as int, 1024);
            vstd::arithmetic::div_mod::lemma_div_pos_is_pos(old(self).draw_height as int, 1024);
        }
    }

    /// Index of the first entity in the list whose collision rectangle the
    /// moved rectangle strikes, or -1 when it strikes none.
    pub fn collision_against_entities(&self, entities: &Vec<Entity>, movement: Vector2) -> (hit:
        isize)
        requires
            self.wf(),
            vec_ok(movement),
            entities@.len() < 0x1000_0000,
            forall|i: int| 0 <= i < entities@.len() ==> (#[trigger] entities@[i]).wf(),
        ensures
            ({
                let target = spec_translate(self.spec_containing_rect(), movement);
                &&& hit == -1 || 0 <= hit < entities@.len()
                &&& hit == -1 ==> forall|i: int|
                    0 <= i < entities@.len() ==> spec_collision(
                        target,
                        (#[trigger] entities@[i]).spec_containing_rect(),
                    ) is None
                &&& hit >= 0 ==> spec_collision(
                    target,
                    entities@[hit as int].spec_containing_rect(),
                ) is Some
                &&& hit >= 0 ==> forall|i: int|
                    0 <= i < hit ==> spec_collision(
                        target,
                        (#[trigger] entities@[i]).spec_containing_rect(),
                    ) is None
                &&& hit == spec_first_hit(entities@, target)
            }),
    {
        let self_rect = self.containing_rect();
        let target_rect = self_rect.translate(movement);

        let mut index: usize = 0;
        while index < entities.len()
            invariant
                0 <= index <= entities@.len(),
                entities@.len() < 0x1000_0000,
                self.wf(),
                vec_ok(movement),
                forall|i: int| 0 <= i < entities@.len() ==> (#[trigger] entities@[i]).wf(),
                target_rect == spec_translate(self.spec_containing_rect(), movement),
                forall|i: int|
                    0 <= i < index ==> spec_collision(
                        target_rect,
                        (#[trigger] entities@[i]).spec_containing_rect(),
                    ) is None,
            decreases entities@.len() - index,
        {
            let entity_rect = entities[index].containing_rect();
            if target_rect.collides_with(&entity_rect).is_some() {
                proof {
                    lemma_first_hit_at(entities@, target_rect, index as int);
                }
                return index as isize;
            }
            index += 1;
        }
        proof {
            lemma_first_hit_none(entities@, target_rect);
        }
        -1
    }
}

/// Index of the first entity in the list whose collision rectangle `target`
/// strikes, or -1: the linear-scan, first-match-wins rule of the engine.
pub open spec fn spec_first_hit(entities: Seq<Entity>, target: Rect2) -> int
    decreases entities.len(),
{
    if entities.len() == 0 {
        -1
    } else if spec_collision(target, entities[0].spec_containing_rect()) is Some {
        0
    } else {
        let rest = spec_first_hit(entities.drop_first(), target);
        if rest == -1 {
            -1
        } else {
            rest + 1
        }
    }
}

/// When nothing collides, the first hit is -1.
pub proof fn lemma_first_hit_none(entities: Seq<Entity>, target: Rect2)
    requires
        forall|i: int|
            0 <= i < entities.len() ==> spec_collision(
                target,
                (#[trigger] entities[i]).spec_containing_rect(),
            ) is None,
    ensures
        spec_first_hit(entities, target) == -1,
    decreases entities.len(),
{
    if entities.len() > 0 {
        lemma_first_hit_none(entities.drop_first(), target);
    }
}

/// When `i` collides and everything before it does not, `i` is the first
/// hit.
pub proof fn lemma_first_hit_at(entities: Seq<Entity>, target: Rect2, i: int)
    requires
        0 <= i < entities.len(),
        spec_collision(target, entities[i].spec_containing_rect()) is Some,
        forall|j: int|
            0 <= j < i ==> spec_collision(
                target,
                (#[trigger] entities[j]).spec_containing_rect(),
            ) is None,
    ensures
        spec_first_hit(entities, target) == i,
    decreases i,
{
    if i > 0 {
        lemma_first_hit_at(entities.drop_first(), target, i - 1);
    }
}

/// `d` rounded up to a whole number of tiles, in subunits.
pub open spec fn round_up_to_tile(d: int) -> int {
    1024 * ((d + 1023) / 1024)
}

/// Round a nonnegative extent up to a whole number of tiles.
pub fn round_up_units(d: i64) -> (r: i64)
    requires
        0 <= d <= 0x10_0000,
    ensures
        r == round_up_to_tile(d as int),
        0 <= r <= 0x10_0400,
        r >= d,
{
    proof {
        vstd::arithmetic::div_mod::lemma_div_pos_is_pos(d as int + 1023, 1024);
        vstd::arithmetic::div_mod::lemma_div_is_ordered(d as int + 1023, (0x10_0000 + 1023) as int, 1024);
        vstd::arithmetic::div_mod::lemma_fundamental_div_mod(d as int + 1023, 1024);
        vstd::arithmetic::div_mod::lemma_mod_division_less_than_divisor(d as int + 1023, 1024);
    }
    ((d + 1023) / 1024) * 1024
}

/// Floor division on machine integers, proved against the mathematical `/`.
pub fn div_floor_i64(a: i64, b: i64) -> (q: i64)
    requires
        b > 0,
        -0x1000_0000_0000_0000 <= a <= 0x1000_0000_0000_0000,
        b <= 0x1000_0000_0000,
    ensures
        q == a as int / b as int,
{
    if a >= 0 {
        a / b
    } else {
        let n = -a;
        let ceil = (n + b - 1) / b;
        proof {
            let nn = n as int;
            let bb = b as int;
            vstd::arithmetic::div_mod::lemma_fundamental_div_mod(nn, bb);
            vstd::arithmetic::div_mod::lemma_mod_division_less_than_divisor(nn, bb);
            let qq = nn / bb;
            let rr = nn % bb;
            assert((-qq) * bb == -(qq * bb)) by (nonlinear_arith);
            assert((qq + 1) * bb == qq * bb + bb) by (nonlinear_arith);
            assert((-(qq + 1)) * bb == -(qq * bb) - bb) by (nonlinear_arith);
            if rr == 0 {
                vstd::arithmetic::div_mod::lemma_fundamental_div_mod_converse(
                    nn + bb - 1,
                    bb,
                    qq,
                    bb - 1,
                );
                vstd::arithmetic::div_mod::lemma_fundamental_div_mod_converse(
                    a as int,
                    bb,
                    -qq,
                    0,
                );
            } else {
                vstd::arithmetic::div_mod::lemma_fundamental_div_mod_converse(
                    nn + bb - 1,
                    bb,
                    qq + 1,
                    rr - 1,
                );
                vstd::arithmetic::div_mod::lemma_fundamental_div_mod_converse(
                    a as int,
                    bb,
                    -(qq + 1),
                    bb - rr,
                );
            }
        }
        -ceil
    }
}

} // verus!
