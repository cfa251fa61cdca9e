//! Fixed-point plane geometry: vectors, axis-aligned rectangles and the
//! directional collision test.
//!
//! Coordinates are `i64` counts of subunits; `SUBUNITS` of them make one tile
//! edge (see the crate root). All y axes grow upward.

use vstd::prelude::*;

verus! {

/// Bound on every coordinate the library stores: wide enough for any level,
/// narrow enough that sums and differences of a few coordinates never
/// overflow an `i64`.
pub open spec fn coord_ok(c: int) -> bool {
    -0x1000_0000_0000 <= c <= 0x1000_0000_0000
}

/// Loose bound under which the collision test's corner subtractions fit in
/// an `i64`; anything built from a few `coord_ok` values satisfies it.
pub open spec fn coord_loose(c: int) -> bool {
    -0x1000_0000_0000_0000 <= c <= 0x1000_0000_0000_0000
}

/// A point or displacement of the plane, in subunits.
#[derive(Clone, Copy, Debug, PartialEq, Eq, Structural)]
pub struct Vector2 {
    pub x: i64,
    pub y: i64,
}

pub open spec fn vec_ok(v: Vector2) -> bool {
    coord_ok(v.x as int) && coord_ok(v.y as int)
}

pub open spec fn vec_loose(v: Vector2) -> bool {
    coord_loose(v.x as int) && coord_loose(v.y as int)
}

/// Truncating division (rounds toward zero, like the executable `/`),
/// defined for a positive divisor.
pub open spec fn tdiv(a: int, b: int) -> int {
    if a >= 0 {
        a / b
    } else {
        -((-a) / b)
    }
}

/// The integer square root, by counting up: the largest `r` with `r * r <= n`.
pub open spec fn isqrt_spec(n: nat) -> nat
    decreases n,
{
    if n == 0 {
        0
    } else {
        let r = isqrt_spec((n - 1) as nat);
        if (r + 1) * (r + 1) <= n {
            r + 1
        } else {
            r
        }
    }
}

pub proof fn lemma_isqrt_bounds(n: nat)
    ensures
        isqrt_spec(n) * isqrt_spec(n) <= n,
        n < (isqrt_spec(n) + 1) * (isqrt_spec(n) + 1),
    decreases n,
{
    if n == 0 {
        assert(isqrt_spec(0) == 0);
        assert(n < (isqrt_spec(n) + 1) * (isqrt_spec(n) + 1)) by (nonlinear_arith)
            requires n == 0, isqrt_spec(n) == 0
        ;
    } else {
        lemma_isqrt_bounds((n - 1) as nat);
        let r = isqrt_spec((n - 1) as nat);
        assert(isqrt_spec(n) == if (r + 1) * (r + 1) <= n {
            r + 1
        } else {
            r
        });
        if (r + 1) * (r + 1) <= n {
            assert((r + 1) * (r + 1) < (r + 2) * (r + 2)) by (nonlinear_arith);
        }
    }
}

/// The integer square root is pinned down by its two bounds.
pub proof fn lemma_isqrt_unique(n: nat, r: nat)
    requires
        r * r <= n,
        n < (r + 1) * (r + 1),
    ensures
        isqrt_spec(n) == r,
{
    lemma_isqrt_bounds(n);
    let s = isqrt_spec(n);
    if s < r {
        assert((s + 1) * (s + 1) <= r * r) by (nonlinear_arith)
            requires s + 1 <= r
        ;
    }
    if r < s {
        assert((r + 1) * (r + 1) <= s * s) by (nonlinear_arith)
            requires r + 1 <= s
        ;
    }
}

/// Squared length of a vector, in subunits squared.
pub open spec fn norm2(v: Vector2) -> int {
    v.x * v.x + v.y * v.y
}

/// What `normalize_or_zero` leaves behind: the zero vector stays zero, any
/// other vector is scaled to about one tile edge of length, each component
/// rounded toward zero.
pub open spec fn spec_normalize(v: Vector2) -> Vector2 {
    let m = isqrt_spec(norm2(v) as nat);
    if m == 0 {
        v
    } else {
        Vector2 { x: tdiv(v.x * 1024, m as int) as i64, y: tdiv(v.y * 1024, m as int) as i64 }
    }
}

impl Vector2 {
    /// The origin / null displacement.
    pub fn zero() -> (v: Vector2)
        ensures
            v == (Vector2 { x: 0i64, y: 0i64 }),
    {
        Vector2 { x: 0, y: 0 }
    }

    pub fn new(x0: i64, y0: i64) -> (v: Vector2)
        ensures
            v == (Vector2 { x: x0, y: y0 }),
    {
        Vector2 { x: x0, y: y0 }
    }

    /// Exact test against the origin.
    pub fn is_zero(&self) -> (z: bool)
        ensures
            z == (self.x == 0 && self.y == 0),
    {
        self.x == 0 && self.y == 0
    }

    pub open spec fn spec_plus(self, o: Vector2) -> Vector2 {
        Vector2 { x: (self.x + o.x) as i64, y: (self.y + o.y) as i64 }
    }

    pub fn plus(self, o: Vector2) -> (r: Vector2)
        requires
            vec_loose(self),
            vec_loose(o),
        ensures
            r == self.spec_plus(o),
            r.x == self.x + o.x,
            r.y == self.y + o.y,
    {
        Vector2 { x: self.x + o.x, y: self.y + o.y }
    }

    pub open spec fn spec_minus(self, o: Vector2) -> Vector2 {
        Vector2 { x: (self.x - o.x) as i64, y: (self.y - o.y) as i64 }
    }

    pub fn minus(self, o: Vector2) -> (r: Vector2)
        requires
            vec_loose(self),
            vec_loose(o),
        ensures
            r == self.spec_minus(o),
            r.x == self.x - o.x,
            r.y == self.y - o.y,
    {
        Vector2 { x: self.x - o.x, y: self.y - o.y }
    }

    pub open spec fn spec_negated(self) -> Vector2 {
        Vector2 { x: (-self.x) as i64, y: (-self.y) as i64 }
    }

    pub fn negated(self) -> (r: Vector2)
        requires
            vec_loose(self),
        ensures
            r == self.spec_negated(),
            r.x == -self.x,
            r.y == -self.y,
    {
        Vector2 { x: -self.x, y: -self.y }
    }

    /// Scale to roughly one tile edge of length, leaving the zero vector
    /// alone; the fixed-point analogue of dividing by the Euclidean norm.
    pub fn normalize_or_zero(&mut self)
        requires
            -0x4000_0000 <= old(self).x <= 0x4000_0000,
            -0x4000_0000 <= old(self).y <= 0x4000_0000,
        ensures
            *final(self) == spec_normalize(*old(self)),
            vstd::math::abs(final(self).x as int) <= 1024,
            vstd::math::abs(final(self).y as int) <= 1024,
            (final(self).x == 0 && final(self).y == 0) <==> (old(self).x == 0 && old(self).y
                == 0),
    {
        proof {
            assert(0 <= self.x * self.x <= 0x1000_0000_0000_0000 && 0 <= self.y * self.y
                <= 0x1000_0000_0000_0000) by (nonlinear_arith)
                requires
                    -0x4000_0000 <= self.x <= 0x4000_0000,
                    -0x4000_0000 <= self.y <= 0x4000_0000,
            ;
        }
        let n2: i64 = self.x * self.x + self.y * self.y;
        let m: i64 = isqrt(n2 as u64) as i64;
        proof {
            lemma_isqrt_bounds(n2 as nat);
            assert(m == 0 ==> self.x == 0 && self.y == 0) by (nonlinear_arith)
                requires
                    m as int == isqrt_spec(n2 as nat),
                    n2 == self.x * self.x + self.y * self.y,
                    n2 < (m + 1) * (m + 1),
            ;
        }
        if m != 0 {
            proof {
                assert(self.x * self.x <= n2 && self.y * self.y <= n2) by (nonlinear_arith)
                    requires n2 == self.x * self.x + self.y * self.y
                ;
                assert(vstd::math::abs(self.x as int) <= m && vstd::math::abs(self.y as int) <= m) by (nonlinear_arith)
                    requires
                        self.x * self.x <= n2,
                        self.y * self.y <= n2,
                        m * m <= n2 < (m + 1) * (m + 1),
                        m >= 0,
                ;
            }
            let sx: i64 = div_trunc(self.x * 1024, m);
            let sy: i64 = div_trunc(self.y * 1024, m);
            proof {
                lemma_tdiv_scale_bound(self.x as int, m as int);
                lemma_tdiv_scale_bound(self.y as int, m as int);
                assert(vstd::math::abs(self.x as int) * 1024 >= m || vstd::math::abs(
                    self.y as int,
                ) * 1024 >= m) by (nonlinear_arith)
                    requires
                        m * m <= self.x * self.x + self.y * self.y,
                        m >= 1,
                        vstd::math::abs(self.x as int) <= m,
                        vstd::math::abs(self.y as int) <= m,
                ;
                assert(sx != 0 || sy != 0);
            }
            self.x = sx;
            self.y = sy;
        }
    }
}

/// Normalizing the zero vector leaves it zero: the degenerate case never
/// divides.
pub proof fn lemma_normalize_zero(v: Vector2)
    requires
        v.x == 0,
        v.y == 0,
    ensures
        spec_normalize(v) == v,
{
    assert(isqrt_spec(0) == 0);
}

/// Normalizing a vector whose length is already exactly one tile edge
/// changes nothing. In particular a second normalization is the identity
/// whenever the first lands exactly on unit length; for other vectors the
/// fixed-point rounding can move the result by a few subunits, so exact
/// idempotence holds only on this domain.
pub proof fn lemma_normalize_fixes_unit(v: Vector2)
    requires
        1024 * 1024 <= norm2(v) < 1025 * 1025,
    ensures
        spec_normalize(v) == v,
{
    lemma_isqrt_unique(norm2(v) as nat, 1024);
    assert(tdiv(v.x * 1024, 1024) == v.x && tdiv(v.y * 1024, 1024) == v.y) by {
        lemma_tdiv_multiple_cancels(v.x as int);
        lemma_tdiv_multiple_cancels(v.y as int);
    }
}

/// A second normalization is the identity whenever the first lands exactly
/// at unit length. For other vectors the truncation can move the result of a
/// second normalization by a few subunits — (1, 1) normalizes to
/// (1024, 1024) and only then settles at (724, 724) — so this is the whole
/// of the idempotence that holds exactly.
pub proof fn lemma_normalize_idempotent_on_unit_results(v: Vector2)
    requires
        1024 * 1024 <= norm2(spec_normalize(v)) < 1025 * 1025,
    ensures
        spec_normalize(spec_normalize(v)) == spec_normalize(v),
{
    lemma_normalize_fixes_unit(spec_normalize(v));
}

/// `tdiv(a * 1024, 1024) == a`: scaling up then truncating back down is
/// exact.
proof fn lemma_tdiv_multiple_cancels(a: int)
    ensures
        tdiv(a * 1024, 1024) == a,
{
    if a >= 0 {
        vstd::arithmetic::div_mod::lemma_div_multiples_vanish(a, 1024);
    } else {
        vstd::arithmetic::div_mod::lemma_div_multiples_vanish(-a, 1024);
        assert(-(a * 1024) == (-a) * 1024);
    }
}

/// Truncating division of the executable world, proved against `tdiv`.
pub fn div_trunc(a: i64, b: i64) -> (q: i64)
    requires
        b > 0,
        a > i64::MIN,
    ensures
        q == tdiv(a as int, b as int),
        vstd::math::abs(q as int) <= vstd::math::abs(a as int),
{
    proof {
        if a >= 0 {
            vstd::arithmetic::div_mod::lemma_div_pos_is_pos(a as int, b as int);
            vstd::arithmetic::div_mod::lemma_div_nonincreasing(a as int, b as int);
        } else {
            vstd::arithmetic::div_mod::lemma_div_pos_is_pos(-a as int, b as int);
            vstd::arithmetic::div_mod::lemma_div_nonincreasing(-a as int, b as int);
        }
    }
    if a >= 0 {
        a / b
    } else {
        -((-a) / b)
    }
}

/// If `v.abs() <= m`, then scaling by `1024 / m` (truncating) stays within
/// `[-1024, 1024]`, and a component at least `m` in magnitude stays nonzero.
proof fn lemma_tdiv_scale_bound(v: int, m: int)
    requires
        m > 0,
        vstd::math::abs(v) <= m,
    ensures
        vstd::math::abs(tdiv(v * 1024, m)) <= 1024,
        vstd::math::abs(v) * 1024 >= m ==> vstd::math::abs(tdiv(v * 1024, m)) >= 1,
{
    let a: int = (vstd::math::abs(v) * 1024) as int;
    assert(a <= m * 1024) by (nonlinear_arith)
        requires
            a == vstd::math::abs(v) * 1024,
            vstd::math::abs(v) <= m,
            m > 0,
    ;
    vstd::arithmetic::div_mod::lemma_div_is_ordered(a, m * 1024, m);
    vstd::arithmetic::div_mod::lemma_div_multiples_vanish(1024, m);
    vstd::arithmetic::div_mod::lemma_div_pos_is_pos(a, m);
    if a >= m {
        vstd::arithmetic::div_mod::lemma_div_is_ordered(m, a, m);
        vstd::arithmetic::div_mod::lemma_div_by_self(m);
    }
    if v >= 0 {
        assert(a == v * 1024);
    } else {
        assert(a == (-v) * 1024);
        assert(tdiv(v * 1024, m) == -((-(v * 1024)) / m));
        assert(-(v * 1024) == (-v) * 1024);
    }
}

/// Integer square root of a machine word, by binary search.
pub fn isqrt(n: u64) -> (r: u64)
    ensures
        r == isqrt_spec(n as nat),
        r * r <= n,
        r < 0x1_0000_0000,
{
    let mut lo: u64 = 0;
    let mut hi: u64 = 0x1_0000_0000;
    while hi - lo > 1
        invariant
            lo < hi <= 0x1_0000_0000,
            (lo as int) * (lo as int) <= n as int,
            (n as int) < (hi as int) * (hi as int),
        decreases hi - lo,
    {
        let mid: u64 = lo + (hi - lo) / 2;
        let fits = if mid <= 0xFFFF_FFFF {
            proof {
                assert(mid * mid <= 0xFFFF_FFFF * 0xFFFF_FFFF) by (nonlinear_arith)
                    requires mid <= 0xFFFF_FFFF
                ;
            }
            mid * mid <= n
        } else {
            proof {
                assert((n as int) < (mid as int) * (mid as int)) by (nonlinear_arith)
                    requires mid >= 0x1_0000_0000, n <= u64::MAX
                ;
            }
            false
        };
        if fits {
            lo = mid;
        } else {
            hi = mid;
        }
    }
    proof {
        lemma_isqrt_unique(n as nat, lo as nat);
    }
    lo
}

/// An axis-aligned rectangle: `(x0, y0)` is the lower-left corner and
/// `(x1, y1)` the upper-right one. Everything the library builds keeps
/// `x0 <= x1` and `y0 <= y1`.
#[derive(Clone, Copy, Debug, PartialEq, Eq, Structural)]
pub struct Rect2 {
    pub x0: i64,
    pub y0: i64,
    pub x1: i64,
    pub y1: i64,
}

/// A well-formed rectangle: ordered corners, coordinates within twice the
/// stored-coordinate bound (a corner may be a position plus an extent).
pub open spec fn rect_ok(r: Rect2) -> bool {
    &&& -0x2000_0000_0000 <= r.x0 <= 0x2000_0000_0000
    &&& -0x2000_0000_0000 <= r.y0 <= 0x2000_0000_0000
    &&& -0x2000_0000_0000 <= r.x1 <= 0x2000_0000_0000
    &&& -0x2000_0000_0000 <= r.y1 <= 0x2000_0000_0000
    &&& r.x0 <= r.x1
    &&& r.y0 <= r.y1
}

pub open spec fn rect_loose(r: Rect2) -> bool {
    &&& coord_loose(r.x0 as int)
    &&& coord_loose(r.y0 as int)
    &&& coord_loose(r.x1 as int)
    &&& coord_loose(r.y1 as int)
}

/// The rectangle moved by `v`.
pub open spec fn spec_translate(r: Rect2, v: Vector2) -> Rect2 {
    Rect2 {
        x0: (r.x0 + v.x) as i64,
        y0: (r.y0 + v.y) as i64,
        x1: (r.x1 + v.x) as i64,
        y1: (r.y1 + v.y) as i64,
    }
}

/// Which face of `other` a rectangle strikes, if any. The branches and their
/// strict/inclusive bounds are the collision policy of the whole engine:
/// a crossing edge must lie strictly inside the other rectangle's span, and
/// rectangles that merely share a boundary do not collide. The vector
/// returned is an edge of `other` — a direction, not a distance.
pub open spec fn spec_collision(a: Rect2, b: Rect2) -> Option<Vector2> {
    if b.x0 < a.x1 && a.x1 < b.x1 {
        if a.y1 <= b.y0 || a.y0 >= b.y1 {
            None
        } else {
            // struck from the right: the edge from b's upper-left corner
            // down to its lower-left corner
            Some(Vector2 { x: 0, y: (b.y0 - b.y1) as i64 })
        }
    } else if b.x0 < a.x0 && a.x0 < b.x1 {
        if a.y1 <= b.y0 || a.y0 >= b.y1 {
            None
        } else {
            // struck from the left
            Some(Vector2 { x: 0, y: (b.y1 - b.y0) as i64 })
        }
    } else if b.y0 < a.y1 && a.y1 < b.y1 {
        if a.x1 <= b.x0 || a.x0 >= b.x1 {
            None
        } else {
            // struck from below
            Some(Vector2 { x: (b.x1 - b.x0) as i64, y: 0 })
        }
    } else if b.y0 < a.y0 && a.y0 < b.y1 {
        if a.x1 <= b.x0 || a.x0 >= b.x1 {
            None
        } else {
            // struck from above
            Some(Vector2 { x: (b.x0 - b.x1) as i64, y: 0 })
        }
    } else {
        None
    }
}

/// A collision is only reported when the two rectangles overlap with
/// nonempty interior on both axes.
pub proof fn lemma_collision_implies_overlap(a: Rect2, b: Rect2)
    requires
        a.x0 <= a.x1,
        a.y0 <= a.y1,
        spec_collision(a, b) is Some,
    ensures
        b.x0 < a.x1,
        a.x0 < b.x1,
        b.y0 < a.y1,
        a.y0 < b.y1,
{
}

impl Rect2 {
    /// The rectangle with lower-left corner `point` and the given extents.
    pub fn from_point_and_dimensions(point: Vector2, width: i64, height: i64) -> (r: Rect2)
        requires
            vec_loose(point),
            0 <= width <= 0x1000_0000_0000_0000,
            0 <= height <= 0x1000_0000_0000_0000,
        ensures
            r.x0 == point.x,
            r.y0 == point.y,
            r.x1 == point.x + width,
            r.y1 == point.y + height,
    {
        Rect2 { x0: point.x, y0: point.y, x1: point.x + width, y1: point.y + height }
    }

    /// Build directly from two corners; the caller supplies them ordered.
    pub fn from_points(p0: Vector2, p1: Vector2) -> (r: Rect2)
        ensures
            r == (Rect2 { x0: p0.x, y0: p0.y, x1: p1.x, y1: p1.y }),
    {
        Rect2 { x0: p0.x, y0: p0.y, x1: p1.x, y1: p1.y }
    }

    /// The smallest rectangle covering both arguments: component-wise
    /// minimum of the lower-left corners and maximum of the upper-right
    /// ones. It bounds the tile sweep during collision constraint.
    pub fn bounding_rect(r0: &Rect2, r1: &Rect2) -> (r: Rect2)
        ensures
            r.x0 == if r0.x0 <= r1.x0 { r0.x0 } else { r1.x0 },
            r.y0 == if r0.y0 <= r1.y0 { r0.y0 } else { r1.y0 },
            r.x1 == if r0.x1 >= r1.x1 { r0.x1 } else { r1.x1 },
            r.y1 == if r0.y1 >= r1.y1 { r0.y1 } else { r1.y1 },
    {
        Rect2 {
            x0: if r0.x0 <= r1.x0 { r0.x0 } else { r1.x0 },
            y0: if r0.y0 <= r1.y0 { r0.y0 } else { r1.y0 },
            x1: if r0.x1 >= r1.x1 { r0.x1 } else { r1.x1 },
            y1: if r0.y1 >= r1.y1 { r0.y1 } else { r1.y1 },
        }
    }

    pub fn lower_left(&self) -> (p: Vector2)
        ensures
            p == (Vector2 { x: self.x0, y: self.y0 }),
    {
        Vector2 { x: self.x0, y: self.y0 }
    }

    pub fn lower_right(&self) -> (p: Vector2)
        ensures
            p == (Vector2 { x: self.x1, y: self.y0 }),
    {
        Vector2 { x: self.x1, y: self.y0 }
    }

    pub fn upper_left(&self) -> (p: Vector2)
        ensures
            p == (Vector2 { x: self.x0, y: self.y1 }),
    {
        Vector2 { x: self.x0, y: self.y1 }
    }

    pub fn upper_right(&self) -> (p: Vector2)
        ensures
            p == (Vector2 { x: self.x1, y: self.y1 }),
    {
        Vector2 { x: self.x1, y: self.y1 }
    }

    /// A new rectangle offset by `v`; the receiver is left alone.
    pub fn translate(&self, v: Vector2) -> (r: Rect2)
        requires
            rect_loose(*self),
            vec_loose(v),
        ensures
            r == spec_translate(*self, v),
            r.x0 == self.x0 + v.x,
            r.y0 == self.y0 + v.y,
            r.x1 == self.x1 + v.x,
            r.y1 == self.y1 + v.y,
    {
        Rect2 { x0: self.x0 + v.x, y0: self.y0 + v.y, x1: self.x1 + v.x, y1: self.y1 + v.y }
    }

    /// `None` when the rectangles do not overlap; otherwise the struck edge
    /// of `other`, per `spec_collision`.
    pub fn collides_with(&self, other: &Rect2) -> (r: Option<Vector2>)
        requires
            rect_loose(*other),
        ensures
            r == spec_collision(*self, *other),
    {
        if self.x1 > other.x0 && self.x1 < other.x1 {
            if self.y1 <= other.y0 {
                return None;
            }
            if self.y0 >= other.y1 {
                return None;
            }
            // Collided from the right.
            return Some(Vector2 { x: 0, y: other.y0 - other.y1 });
        }
        if self.x0 < other.x1 && self.x0 > other.x0 {
            if self.y1 <= other.y0 {
                return None;
            }
            if self.y0 >= other.y1 {
                return None;
            }
            // Collided from the left.
            return Some(Vector2 { x: 0, y: other.y1 - other.y0 });
        }
        if self.y1 > other.y0 && self.y1 < other.y1 {
            if self.x1 <= other.x0 {
                return None;
            }
            if self.x0 >= other.x1 {
                return None;
            }
            // Collided from below.
            return Some(Vector2 { x: other.x1 - other.x0, y: 0 });
        }
        if self.y0 < other.y1 && self.y0 > other.y0 {
            if self.x1 <= other.x0 {
                return None;
            }
            if self.x0 >= other.x1 {
                return None;
            }
            // Collided from above.
            return Some(Vector2 { x: other.x0 - other.x1, y: 0 });
        }
        None
    }
}

/// Translating the moving rectangle by `t` and testing against a fixed one
/// reports exactly what testing the untranslated rectangle against the fixed
/// one moved by `-t` reports: the collision test only reads relative
/// positions.
pub proof fn lemma_collision_translation_symmetry(r: Rect2, f: Rect2, t: Vector2)
    requires
        rect_loose(r),
        rect_loose(f),
        vec_loose(t),
    ensures
        spec_collision(spec_translate(r, t), f) == spec_collision(
            r,
            spec_translate(f, t.spec_negated()),
        ),
{
}

} // verus!
