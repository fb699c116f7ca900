//! Three- and two-component fixed-point vectors and the axis enumeration.

use vstd::prelude::*;
use crate::fixed::{SCALE, tdiv, sqrt_floor, isqrt, lemma_sqrt_unique, lemma_sqrt_floor};

verus! {

/// Bound on the components accepted by the vector arithmetic helpers; wide
/// enough for every quantity the bake produces, small enough that no
/// intermediate product can leave `i64`.
pub const OP_LIMIT: i64 = 536870912;

/// One of the three coordinate axes.
#[derive(Clone, Copy, Debug)]
pub enum Axis {
    X,
    Y,
    Z,
}

/// A point or direction in 3-space, in fixed-point coordinates.
#[derive(Clone, Copy, Debug, PartialEq, Eq, Structural)]
pub struct Vec3 {
    pub x: i64,
    pub y: i64,
    pub z: i64,
}

/// A texture-space coordinate, in fixed-point.
#[derive(Clone, Copy, Debug, PartialEq, Eq, Structural)]
pub struct Vec2 {
    pub x: i64,
    pub y: i64,
}

/// All components of `v` lie within `[-bound, bound]`.
pub open spec fn vec3_in_range(v: Vec3, bound: int) -> bool {
    &&& -bound <= v.x <= bound
    &&& -bound <= v.y <= bound
    &&& -bound <= v.z <= bound
}

/// All components of `v` lie within `[-bound, bound]`.
pub open spec fn vec2_in_range(v: Vec2, bound: int) -> bool {
    &&& -bound <= v.x <= bound
    &&& -bound <= v.y <= bound
}

/// The unscaled dot product: a fixed-point value carrying `SCALE * SCALE`.
pub open spec fn raw_dot(a: Vec3, b: Vec3) -> int {
    a.x * b.x + a.y * b.y + a.z * b.z
}

/// The unscaled squared distance between `a` and `b`, carrying
/// `SCALE * SCALE`.
pub open spec fn raw_dist_sq(a: Vec3, b: Vec3) -> int {
    (a.x - b.x) * (a.x - b.x) + (a.y - b.y) * (a.y - b.y) + (a.z - b.z) * (a.z - b.z)
}

/// `v` mirrored across the plane through the origin orthogonal to `axis`.
pub open spec fn spec_reflect(v: Vec3, axis: Axis) -> Vec3 {
    match axis {
        Axis::X => Vec3 { x: (-v.x) as i64, y: v.y, z: v.z },
        Axis::Y => Vec3 { x: v.x, y: (-v.y) as i64, z: v.z },
        Axis::Z => Vec3 { x: v.x, y: v.y, z: (-v.z) as i64 },
    }
}

impl Vec3 {
    /// The component of the vector along `axis`.
    pub fn get_axis(&self, axis: Axis) -> (r: i64)
        ensures
            r == match axis {
                Axis::X => self.x,
                Axis::Y => self.y,
                Axis::Z => self.z,
            },
    {
        match axis {
            Axis::X => self.x,
            Axis::Y => self.y,
            Axis::Z => self.z,
        }
    }

    /// Componentwise sum.
    pub fn add(&self, rhs: &Vec3) -> (r: Vec3)
        requires
            vec3_in_range(*self, OP_LIMIT as int),
            vec3_in_range(*rhs, OP_LIMIT as int),
        ensures
            r.x == self.x + rhs.x,
            r.y == self.y + rhs.y,
            r.z == self.z + rhs.z,
    {
        Vec3 { x: self.x + rhs.x, y: self.y + rhs.y, z: self.z + rhs.z }
    }

    /// Componentwise difference.
    pub fn sub(&self, rhs: &Vec3) -> (r: Vec3)
        requires
            vec3_in_range(*self, OP_LIMIT as int),
            vec3_in_range(*rhs, OP_LIMIT as int),
        ensures
            r.x == self.x - rhs.x,
            r.y == self.y - rhs.y,
            r.z == self.z - rhs.z,
    {
        Vec3 { x: self.x - rhs.x, y: self.y - rhs.y, z: self.z - rhs.z }
    }

    /// The midpoint of two points, each coordinate rounded toward zero.
    pub fn midpoint(&self, rhs: &Vec3) -> (r: Vec3)
        requires
            vec3_in_range(*self, OP_LIMIT as int),
            vec3_in_range(*rhs, OP_LIMIT as int),
        ensures
            r.x == tdiv(self.x + rhs.x, 2),
            r.y == tdiv(self.y + rhs.y, 2),
            r.z == tdiv(self.z + rhs.z, 2),
    {
        Vec3 {
            x: half_i64(self.x + rhs.x),
            y: half_i64(self.y + rhs.y),
            z: half_i64(self.z + rhs.z),
        }
    }

    /// The vector mirrored across the plane orthogonal to `axis`.
    pub fn reflect(&self, axis: Axis) -> (r: Vec3)
        requires
            vec3_in_range(*self, OP_LIMIT as int),
        ensures
            r == spec_reflect(*self, axis),
    {
        match axis {
            Axis::X => Vec3 { x: -self.x, y: self.y, z: self.z },
            Axis::Y => Vec3 { x: self.x, y: -self.y, z: self.z },
            Axis::Z => Vec3 { x: self.x, y: self.y, z: -self.z },
        }
    }

    /// Fixed-point dot product (the raw product sum scaled back down).
    pub fn dot(&self, other: &Vec3) -> (r: i64)
        requires
            vec3_in_range(*self, OP_LIMIT as int),
            vec3_in_range(*other, OP_LIMIT as int),
        ensures
            r == tdiv(raw_dot(*self, *other), SCALE as int),
    {
        let raw = dot_raw(self, other);
        if raw >= 0 {
            raw / SCALE
        } else {
            -((-raw) / SCALE)
        }
    }

    /// Fixed-point squared distance between two points.
    pub fn distance_squared(&self, other: &Vec3) -> (r: i64)
        requires
            vec3_in_range(*self, OP_LIMIT as int),
            vec3_in_range(*other, OP_LIMIT as int),
        ensures
            r == raw_dist_sq(*self, *other) / (SCALE as int),
            r >= 0,
    {
        let raw = dist_sq_raw(self, other);
        raw / SCALE
    }

    /// The unit vector with this vector's direction, each component computed
    /// as the fixed-point quotient by the floored length.
    pub fn normalize(&self) -> (r: Vec3)
        requires
            vec3_in_range(*self, OP_LIMIT as int),
            !(self.x == 0 && self.y == 0 && self.z == 0),
        ensures
            r.x == tdiv(self.x * SCALE, sqrt_floor(raw_dot(*self, *self) as nat) as int),
            r.y == tdiv(self.y * SCALE, sqrt_floor(raw_dot(*self, *self) as nat) as int),
            r.z == tdiv(self.z * SCALE, sqrt_floor(raw_dot(*self, *self) as nat) as int),
            vec3_in_range(r, SCALE as int),
    {
        let raw = dot_raw(self, self);
        proof {
            assert(1 <= raw_dot(*self, *self) < 0x4000_0000_0000_0000) by (nonlinear_arith)
                requires
                    !(self.x == 0 && self.y == 0 && self.z == 0),
                    vec3_in_range(*self, OP_LIMIT as int),
                    OP_LIMIT == 536870912,
            ;
        }
        let len = isqrt(raw as u64) as i64;
        proof {
            let n = raw as nat;
            lemma_sqrt_floor(n);
            let s = sqrt_floor(n) as int;
            assert(1 <= s <= 0x1_0000_0000i64) by (nonlinear_arith)
                requires
                    s >= 0,
                    s * s <= n,
                    (s + 1) * (s + 1) > n,
                    1 <= n < 0x4000_0000_0000_0000,
            ;
            assert(self.x * self.x <= n && self.y * self.y <= n && self.z * self.z <= n)
                by (nonlinear_arith)
                requires
                    n == raw_dot(*self, *self),
                    raw_dot(*self, *self) == self.x * self.x + self.y * self.y + self.z
                        * self.z,
            ;
            lemma_component_le_sqrt(self.x as int, n, s);
            lemma_component_le_sqrt(self.y as int, n, s);
            lemma_component_le_sqrt(self.z as int, n, s);
        }
        Vec3 {
            x: div_bounded(self.x, len),
            y: div_bounded(self.y, len),
            z: div_bounded(self.z, len),
        }
    }
}

/// A component whose square is at most `n` cannot exceed the integer square
/// root of `n`.
proof fn lemma_component_le_sqrt(c: int, n: nat, s: int)
    requires
        c * c <= n,
        s >= 0,
        s * s <= n,
        n < (s + 1) * (s + 1),
    ensures
        -s <= c <= s,
{
    assert(-s <= c <= s) by (nonlinear_arith)
        requires
            c * c <= n,
            s >= 0,
            n < (s + 1) * (s + 1),
    ;
}

/// Computes `tdiv(c * SCALE, len)` with the quotient clamped inside
/// `[-SCALE, SCALE]` by the precondition `|c| <= len`.
fn div_bounded(c: i64, len: i64) -> (r: i64)
    requires
        1 <= len <= 0x1_0000_0000i64,
        -len <= c <= len,
    ensures
        r == tdiv(c * SCALE, len as int),
        -SCALE <= r <= SCALE,
{
    proof {
        assert(0 <= c * SCALE <= len * SCALE || 0 <= (-c) * SCALE <= len * SCALE)
            by (nonlinear_arith)
            requires
                -len <= c <= len,
                len >= 1,
                SCALE == 65536,
        ;
        assert((len * SCALE) / (len as int) == SCALE && len * SCALE <= 0x1_0000_0000i64 * 65536)
            by (nonlinear_arith)
            requires
                1 <= len <= 0x1_0000_0000i64,
                SCALE == 65536,
        ;
    }
    if c >= 0 {
        let num = c * SCALE;
        let q = num / len;
        proof {
            vstd::arithmetic::div_mod::lemma_div_is_ordered(num as int, len * SCALE, len as int);
        }
        q
    } else {
        let num = (-c) * SCALE;
        let q = num / len;
        proof {
            vstd::arithmetic::div_mod::lemma_div_is_ordered(num as int, len * SCALE, len as int);
        }
        -q
    }
}

/// The raw (unscaled) dot product of two bounded vectors.
fn dot_raw(a: &Vec3, b: &Vec3) -> (r: i64)
    requires
        vec3_in_range(*a, OP_LIMIT as int),
        vec3_in_range(*b, OP_LIMIT as int),
    ensures
        r == raw_dot(*a, *b),
        -0x3000_0000_0000_0000 <= r <= 0x3000_0000_0000_0000,
{
    proof {
        lemma_prod_bound(a.x as int, b.x as int);
        lemma_prod_bound(a.y as int, b.y as int);
        lemma_prod_bound(a.z as int, b.z as int);
    }
    a.x * b.x + a.y * b.y + a.z * b.z
}

/// The raw (unscaled) squared distance between two bounded points.
fn dist_sq_raw(a: &Vec3, b: &Vec3) -> (r: i64)
    requires
        vec3_in_range(*a, OP_LIMIT as int),
        vec3_in_range(*b, OP_LIMIT as int),
    ensures
        r == raw_dist_sq(*a, *b),
        r >= 0,
{
    let dx = a.x - b.x;
    let dy = a.y - b.y;
    let dz = a.z - b.z;
    proof {
        lemma_sq_bound(dx as int);
        lemma_sq_bound(dy as int);
        lemma_sq_bound(dz as int);
    }
    dx * dx + dy * dy + dz * dz
}

/// Products of two values within `OP_LIMIT` stay well inside `i64`.
proof fn lemma_prod_bound(a: int, b: int)
    requires
        -OP_LIMIT <= a <= OP_LIMIT,
        -OP_LIMIT <= b <= OP_LIMIT,
    ensures
        -0x1000_0000_0000_0000 <= a * b <= 0x1000_0000_0000_0000,
{
    assert(-0x1000_0000_0000_0000 <= a * b <= 0x1000_0000_0000_0000) by (nonlinear_arith)
        requires
            -OP_LIMIT <= a <= OP_LIMIT,
            -OP_LIMIT <= b <= OP_LIMIT,
            OP_LIMIT == 536870912,
    ;
}

/// The square of a value within `2 * OP_LIMIT` stays well inside `i64` and is
/// non-negative.
proof fn lemma_sq_bound(a: int)
    requires
        -2 * OP_LIMIT <= a <= 2 * OP_LIMIT,
    ensures
        0 <= a * a <= 0x1000_0000_0000_0000,
{
    assert(0 <= a * a <= 0x1000_0000_0000_0000) by (nonlinear_arith)
        requires
            -2 * OP_LIMIT <= a <= 2 * OP_LIMIT,
            OP_LIMIT == 536870912,
    ;
}

/// Truncating halving of a (possibly negative) coordinate sum.
fn half_i64(a: i64) -> (r: i64)
    requires
        -0x4000_0000_0000_0000 <= a <= 0x4000_0000_0000_0000,
    ensures
        r == tdiv(a as int, 2),
{
    a / 2
}

impl Vec2 {
    /// Componentwise sum.
    pub fn add(&self, rhs: &Vec2) -> (r: Vec2)
        requires
            vec2_in_range(*self, OP_LIMIT as int),
            vec2_in_range(*rhs, OP_LIMIT as int),
        ensures
            r.x == self.x + rhs.x,
            r.y == self.y + rhs.y,
    {
        Vec2 { x: self.x + rhs.x, y: self.y + rhs.y }
    }

    /// The midpoint of two texture positions, rounded toward zero.
    pub fn midpoint(&self, rhs: &Vec2) -> (r: Vec2)
        requires
            vec2_in_range(*self, OP_LIMIT as int),
            vec2_in_range(*rhs, OP_LIMIT as int),
        ensures
            r.x == tdiv(self.x + rhs.x, 2),
            r.y == tdiv(self.y + rhs.y, 2),
    {
        Vec2 { x: half_i64(self.x + rhs.x), y: half_i64(self.y + rhs.y) }
    }
}

} // verus!
