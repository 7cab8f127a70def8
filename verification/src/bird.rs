//! A single flying agent: position, heading vector and scalar speed.
//!
//! The heading's magnitude tracks the speed: after every mutation the
//! heading is re-scaled to the current speed (up to fixed-point
//! truncation).  All operations are specified exactly by spec-level
//! twins over the mathematical model [`BirdM`].

use crate::math::{
    abs_val, div_trunc, lemma_div_trunc_bound, lemma_div_trunc_ge_one, lemma_sqrt_floor,
    lemma_sqrt_floor_ge, lemma_sqrt_floor_le, sqrt_floor,
};
use crate::trig::{cos_milli, cos_of, lemma_heading_norm_lower, sin_milli, sin_of};
use crate::vec2::{norm_sq, Vec2};
use vstd::prelude::*;

verus! {

/// How far an agent can see, in fixed-point units (25 pixels).
pub const SIGHT_DISTANCE: i64 = 25_000;

/// The squared sight radius (`SIGHT_DISTANCE` squared), in squared
/// fixed-point units.
pub const SIGHT_DISTANCE_SQUARED: i64 = 625_000_000;

/// Speed floor, in fixed-point units per tick (1.5 pixels per tick).
/// Speed changes that would not leave the speed strictly above this
/// floor are rejected.
pub const MINIMUM_SPEED: i64 = 1500;

/// Cruising speed toward which every agent decays, in fixed-point units
/// per tick (3 pixels per tick).
pub const TARGET_SPEED: i64 = 3 * crate::SCALE;

/// Largest speed the fixed-point representation supports.
pub const SPEED_CAP: i64 = 1_500_000_000;

/// Largest coordinate magnitude the fixed-point representation supports.
pub const COORD_CAP: i64 = 1_000_000_000;

/// The mathematical model of an agent: its fields as unbounded integers.
pub ghost struct BirdM {
    pub pos: (int, int),
    pub dir: (int, int),
    pub speed: int,
}

/// A single flying agent.
#[derive(Clone, Copy, Debug)]
pub struct Bird {
    pub pos: Vec2,
    pub dir: Vec2,
    pub speed: i64,
}

/// The three corners of the forward-pointing triangle that renders an
/// agent.
pub struct BirdTriangle {
    pub front: Vec2,
    pub left: Vec2,
    pub right: Vec2,
}

/// Well-formedness of the model: the speed is positive and within the
/// representation's range, the heading is a nonzero vector no longer
/// than the speed in each component, and the position is in range.
pub open spec fn wf_m(b: BirdM) -> bool {
    &&& 2 <= b.speed <= SPEED_CAP
    &&& abs_val(b.dir.0) <= b.speed
    &&& abs_val(b.dir.1) <= b.speed
    &&& !(b.dir.0 == 0 && b.dir.1 == 0)
    &&& abs_val(b.pos.0) <= COORD_CAP
    &&& abs_val(b.pos.1) <= COORD_CAP
}

/// Re-scaling of a heading to a given speed: each component is
/// multiplied by the speed and divided by the heading's length.
pub open spec fn renorm_m(dir: (int, int), speed: int) -> (int, int) {
    let n = sqrt_floor(norm_sq(dir));
    (div_trunc(dir.0 * speed, n), div_trunc(dir.1 * speed, n))
}

/// Exact rotation of a vector by a rotor `(c, s)`, before rescaling:
/// the standard 2D rotation matrix applied with integer products.
pub open spec fn rot_raw(v: (int, int), c: int, s: int) -> (int, int) {
    (c * v.0 - s * v.1, s * v.0 + c * v.1)
}

/// Model of `Bird::rotate`: rotate the heading by the angle's scaled
/// cosine/sine, scale back down, then re-normalize to the current speed.
pub open spec fn rotate_m(b: BirdM, angle: int) -> BirdM {
    let c = cos_of(angle);
    let s = sin_of(angle);
    let rv = rot_raw(b.dir, c, s);
    let rd = (div_trunc(rv.0, 1000), div_trunc(rv.1, 1000));
    BirdM { dir: renorm_m(rd, b.speed), ..b }
}

/// Model of `Bird::modify_speed`: the candidate speed is applied only
/// when it clears the minimum-speed floor strictly.
pub open spec fn modify_speed_m(b: BirdM, acceleration: int) -> BirdM {
    let candidate = b.speed + acceleration;
    if candidate > MINIMUM_SPEED {
        BirdM { speed: candidate, dir: renorm_m(b.dir, candidate), ..b }
    } else {
        b
    }
}

/// Model of `Bird::set_speed`.
pub open spec fn set_speed_m(b: BirdM, speed: int) -> BirdM {
    BirdM { speed: speed, dir: renorm_m(b.dir, speed), ..b }
}

/// The blended heading candidate of `Bird::modify_direction`.
pub open spec fn lerp_m(dir: (int, int), target: (int, int), weight: int) -> (int, int) {
    (
        div_trunc(dir.0 * (1000 - weight) + target.0 * weight, 1000),
        div_trunc(dir.1 * (1000 - weight) + target.1 * weight, 1000),
    )
}

/// The speed the blended heading of `Bird::modify_direction` would
/// commit.
pub open spec fn lerp_speed_m(b: BirdM, target: (int, int), weight: int) -> int {
    sqrt_floor(norm_sq(lerp_m(b.dir, target, weight)))
}

/// Model of `Bird::modify_direction`: commit the blended heading and its
/// length as the new speed only when that length clears the
/// minimum-speed floor strictly.
pub open spec fn modify_direction_m(b: BirdM, target: (int, int), weight: int) -> BirdM {
    let nd = lerp_m(b.dir, target, weight);
    let n = lerp_speed_m(b, target, weight);
    if n > MINIMUM_SPEED {
        BirdM { dir: nd, speed: n, ..b }
    } else {
        b
    }
}

/// One toroidal wrap of a coordinate into `[0, d)`, assuming the
/// coordinate is off by less than one plane dimension.
pub open spec fn wrap_coord(p: int, d: int) -> int {
    if p < 0 {
        p + d
    } else if p >= d {
        p - d
    } else {
        p
    }
}

/// Model of `Bird::advance_toroid`: move by the heading, wrap each axis,
/// decay the speed one hundredth of the way toward the cruising speed,
/// and re-normalize the heading to the new speed.
pub open spec fn advance_m(b: BirdM, width: int, height: int) -> BirdM {
    let q = (b.pos.0 + b.dir.0, b.pos.1 + b.dir.1);
    let s2 = b.speed + div_trunc(TARGET_SPEED - b.speed, 100);
    BirdM {
        pos: (wrap_coord(q.0, width), wrap_coord(q.1, height)),
        dir: renorm_m(b.dir, s2),
        speed: s2,
    }
}

/// Model of `Bird::new`: the speed is the heading's length.
pub open spec fn new_m(pos: (int, int), dir: (int, int)) -> BirdM {
    BirdM { pos: pos, dir: dir, speed: sqrt_floor(norm_sq(dir)) }
}

/// The squared Euclidean distance between two agents' positions.
pub open spec fn dist_sq_m(a: BirdM, b: BirdM) -> int {
    norm_sq((a.pos.0 - b.pos.0, a.pos.1 - b.pos.1))
}

/// Whether `a` sees `b`: the squared distance is strictly below the
/// squared sight radius.
pub open spec fn can_see_m(a: BirdM, b: BirdM) -> bool {
    dist_sq_m(a, b) < SIGHT_DISTANCE_SQUARED
}

/// Rotation scales the squared heading magnitude by the rotor's squared
/// magnitude: with a unit rotor the magnitude is preserved exactly.
pub proof fn lemma_rotation_preserves_norm(v: (int, int), c: int, s: int)
    ensures
        norm_sq(rot_raw(v, c, s)) == (c * c + s * s) * norm_sq(v),
{
    let x = v.0;
    let y = v.1;
    let a = c * x;
    let b = s * y;
    let e = s * x;
    let d = c * y;
    assert((a - b) * (a - b) == a * a - 2 * (a * b) + b * b) by (nonlinear_arith);
    assert((e + d) * (e + d) == e * e + 2 * (e * d) + d * d) by (nonlinear_arith);
    assert(a * a == (c * c) * (x * x) && b * b == (s * s) * (y * y) && e * e == (s * s) * (x * x)
        && d * d == (c * c) * (y * y)) by (nonlinear_arith)
        requires
            a == c * x,
            b == s * y,
            e == s * x,
            d == c * y,
    ;
    assert(a * b == e * d) by (nonlinear_arith)
        requires
            a == c * x,
            b == s * y,
            e == s * x,
            d == c * y,
    ;
    assert((c * c) * (x * x) + (s * s) * (y * y) + ((s * s) * (x * x) + (c * c) * (y * y)) == (c * c
        + s * s) * (x * x + y * y)) by (nonlinear_arith);
}

/// Rotating by a rotor `(c, s)` and then by its inverse `(c, -s)`
/// restores the original heading, scaled by the rotor's squared
/// magnitude: with a unit rotor this is the round trip through an angle
/// and its negation.
pub proof fn lemma_rotation_round_trip(v: (int, int), c: int, s: int)
    ensures
        rot_raw(rot_raw(v, c, s), c, -s) == ((c * c + s * s) * v.0, (c * c + s * s) * v.1),
{
    let x = v.0;
    let y = v.1;
    assert(c * (c * x - s * y) == (c * c) * x - (c * s) * y) by (nonlinear_arith);
    assert((-s) * (s * x + c * y) == -((s * s) * x) - (c * s) * y) by (nonlinear_arith);
    assert((-s) * (c * x - s * y) == -((c * s) * x) + (s * s) * y) by (nonlinear_arith);
    assert(c * (s * x + c * y) == (c * s) * x + (c * c) * y) by (nonlinear_arith);
    assert((c * c) * x + (s * s) * x == (c * c + s * s) * x) by (nonlinear_arith);
    assert((s * s) * y + (c * c) * y == (c * c + s * s) * y) by (nonlinear_arith);
}

/// Toroidal wrap: a coordinate that is off by less than one plane
/// dimension lands inside `[0, d)` and differs from the unwrapped
/// coordinate by exactly one multiple of `d` or not at all.
pub proof fn lemma_wrap_coord(p: int, d: int)
    requires
        0 < d,
        -d <= p < 2 * d,
    ensures
        0 <= wrap_coord(p, d) < d,
        wrap_coord(p, d) == p || wrap_coord(p, d) == p - d || wrap_coord(p, d) == p + d,
{
}

/// Re-normalization keeps each heading component within the target
/// speed and keeps the heading nonzero.
proof fn lemma_renorm_wf(dir: (int, int), speed: int)
    requires
        !(dir.0 == 0 && dir.1 == 0),
        2 <= speed,
    ensures
        abs_val(renorm_m(dir, speed).0) <= speed,
        abs_val(renorm_m(dir, speed).1) <= speed,
        !(renorm_m(dir, speed).0 == 0 && renorm_m(dir, speed).1 == 0),
{
    let nsq = norm_sq(dir);
    assert(nsq >= 1) by (nonlinear_arith)
        requires
            !(dir.0 == 0 && dir.1 == 0),
            nsq == dir.0 * dir.0 + dir.1 * dir.1,
    ;
    broadcast use lemma_sqrt_floor;

    let n = sqrt_floor(nsq);
    lemma_sqrt_floor_ge(nsq, 1);
    assert(abs_val(dir.0) * abs_val(dir.0) <= nsq) by (nonlinear_arith)
        requires
            nsq == dir.0 * dir.0 + dir.1 * dir.1,
    ;
    assert(abs_val(dir.1) * abs_val(dir.1) <= nsq) by (nonlinear_arith)
        requires
            nsq == dir.0 * dir.0 + dir.1 * dir.1,
    ;
    lemma_sqrt_floor_ge(nsq, abs_val(dir.0));
    lemma_sqrt_floor_ge(nsq, abs_val(dir.1));
    assert(abs_val(dir.0 * speed) <= n * speed) by (nonlinear_arith)
        requires
            abs_val(dir.0) <= n,
            speed >= 0,
    ;
    assert(abs_val(dir.1 * speed) <= n * speed) by (nonlinear_arith)
        requires
            abs_val(dir.1) <= n,
            speed >= 0,
    ;
    lemma_div_trunc_bound(dir.0 * speed, n, speed);
    lemma_div_trunc_bound(dir.1 * speed, n, speed);
    // The larger component stays nonzero: the length is less than twice
    // the larger component, and the speed is at least two.
    let m = if abs_val(dir.0) >= abs_val(dir.1) {
        abs_val(dir.0)
    } else {
        abs_val(dir.1)
    };
    assert(m >= 1);
    assert(nsq <= 2 * (m * m)) by (nonlinear_arith)
        requires
            nsq == dir.0 * dir.0 + dir.1 * dir.1,
            abs_val(dir.0) <= m,
            abs_val(dir.1) <= m,
    ;
    assert(n < 2 * m) by (nonlinear_arith)
        requires
            n >= 0,
            m >= 1,
            n * n <= 2 * (m * m),
    ;
    assert(m * speed >= n) by (nonlinear_arith)
        requires
            speed >= 2,
            m >= 1,
            n < 2 * m,
    ;
    lemma_div_trunc_ge_one(m * speed, n);
    if abs_val(dir.0) >= abs_val(dir.1) {
        crate::math::lemma_abs_mul(dir.0, speed);
        crate::math::lemma_div_trunc_abs(dir.0 * speed, n);
        assert(abs_val(div_trunc(dir.0 * speed, n)) >= 1);
    } else {
        crate::math::lemma_abs_mul(dir.1, speed);
        crate::math::lemma_div_trunc_abs(dir.1 * speed, n);
        assert(abs_val(div_trunc(dir.1 * speed, n)) >= 1);
    }
}

impl Bird {
    /// The agent's fields as unbounded integers, for specifications.
    pub open spec fn m(self) -> BirdM {
        BirdM {
            pos: (self.pos.x as int, self.pos.y as int),
            dir: (self.dir.x as int, self.dir.y as int),
            speed: self.speed as int,
        }
    }

    /// Well-formedness of the agent.
    pub open spec fn wf(self) -> bool {
        wf_m(self.m())
    }

    /// Create an agent at `pos` heading along `dir`; its speed is the
    /// magnitude of `dir`.
    pub fn new(pos: Vec2, dir: Vec2) -> (b: Bird)
        requires
            abs_val(pos.x as int) <= COORD_CAP,
            abs_val(pos.y as int) <= COORD_CAP,
            abs_val(dir.x as int) <= COORD_CAP,
            abs_val(dir.y as int) <= COORD_CAP,
            norm_sq((dir.x as int, dir.y as int)) >= 4,
        ensures
            b.m() == new_m((pos.x as int, pos.y as int), (dir.x as int, dir.y as int)),
            b.pos == pos,
            b.dir == dir,
            b.wf(),
    {
        proof {
            assert(dir.x * dir.x >= 0 && dir.y * dir.y >= 0 && dir.x * dir.x
                <= 1_000_000_000_000_000_000 && dir.y * dir.y <= 1_000_000_000_000_000_000)
                by (nonlinear_arith)
                requires
                    -1_000_000_000 <= dir.x <= 1_000_000_000,
                    -1_000_000_000 <= dir.y <= 1_000_000_000,
            ;
        }
        let nsq: i64 = dir.x * dir.x + dir.y * dir.y;
        let speed = crate::math::isqrt(nsq);
        proof {
            lemma_sqrt_floor_ge(nsq as int, 2);
            assert(!(dir.x == 0 && dir.y == 0)) by (nonlinear_arith)
                requires
                    dir.x * dir.x + dir.y * dir.y >= 4,
            ;
            crate::math::lemma_comp_sq_le_norm(dir.x as int, dir.y as int);
            crate::math::lemma_comp_sq_le_norm(dir.y as int, dir.x as int);
            lemma_sqrt_floor_ge(nsq as int, abs_val(dir.x as int));
            lemma_sqrt_floor_ge(nsq as int, abs_val(dir.y as int));
            lemma_sqrt_floor_le(nsq as int, 1_414_213_563);
        }
        Bird { pos, dir, speed }
    }

    pub fn get_speed(&self) -> (r: i64)
        ensures
            r == self.speed,
    {
        self.speed
    }

    pub fn get_pos(&self) -> (r: Vec2)
        ensures
            r == self.pos,
    {
        self.pos
    }

    pub fn get_direction(&self) -> (r: Vec2)
        ensures
            r == self.dir,
    {
        self.dir
    }

    /// The squared Euclidean distance to another agent.
    pub fn squared_distance_to(&self, other: &Bird) -> (r: i64)
        requires
            abs_val(self.pos.x as int) <= COORD_CAP,
            abs_val(self.pos.y as int) <= COORD_CAP,
            abs_val(other.pos.x as int) <= COORD_CAP,
            abs_val(other.pos.y as int) <= COORD_CAP,
        ensures
            r == dist_sq_m(self.m(), other.m()),
            r >= 0,
    {
        let dx: i64 = self.pos.x - other.pos.x;
        let dy: i64 = self.pos.y - other.pos.y;
        proof {
            assert(dx * dx >= 0 && dy * dy >= 0 && dx * dx <= 4_000_000_000_000_000_000
                && dy * dy <= 4_000_000_000_000_000_000) by (nonlinear_arith)
                requires
                    -2_000_000_000 <= dx <= 2_000_000_000,
                    -2_000_000_000 <= dy <= 2_000_000_000,
            ;
        }
        dx * dx + dy * dy
    }

    /// Whether this agent sees `other`: strictly closer than the sight
    /// radius.
    pub fn can_see(&self, other: &Bird) -> (r: bool)
        requires
            abs_val(self.pos.x as int) <= COORD_CAP,
            abs_val(self.pos.y as int) <= COORD_CAP,
            abs_val(other.pos.x as int) <= COORD_CAP,
            abs_val(other.pos.y as int) <= COORD_CAP,
        ensures
            r == can_see_m(self.m(), other.m()),
    {
        self.squared_distance_to(other) < SIGHT_DISTANCE_SQUARED
    }

    /// Re-scale the heading to the current speed.
    fn update_dir_magnitude(&mut self)
        requires
            !(old(self).dir.x == 0 && old(self).dir.y == 0),
            2 <= old(self).speed <= SPEED_CAP,
            abs_val(old(self).dir.x as int) <= 2_100_000_000,
            abs_val(old(self).dir.y as int) <= 2_100_000_000,
        ensures
            final(self).m() == (BirdM {
                dir: renorm_m(old(self).m().dir, old(self).m().speed),
                ..old(self).m()
            }),
            final(self).pos == old(self).pos,
            final(self).speed == old(self).speed,
            abs_val(final(self).dir.x as int) <= final(self).speed,
            abs_val(final(self).dir.y as int) <= final(self).speed,
            !(final(self).dir.x == 0 && final(self).dir.y == 0),
    {
        let x = self.dir.x;
        let y = self.dir.y;
        proof {
            assert(x * x >= 0 && y * y >= 0 && x * x <= 4_410_000_000_000_000_000
                && y * y <= 4_410_000_000_000_000_000) by (nonlinear_arith)
                requires
                    -2_100_000_000 <= x <= 2_100_000_000,
                    -2_100_000_000 <= y <= 2_100_000_000,
            ;
        }
        let nsq: i64 = x * x + y * y;
        let n = crate::math::isqrt(nsq);
        proof {
            lemma_renorm_wf((x as int, y as int), self.speed as int);
            assert(nsq >= 1) by (nonlinear_arith)
                requires
                    !(x == 0 && y == 0),
                    nsq == x * x + y * y,
            ;
            lemma_sqrt_floor_ge(nsq as int, 1);
            assert(abs_val(x as int * self.speed) <= 4_000_000_000_000_000_000) by (nonlinear_arith)
                requires
                    -2_100_000_000 <= x <= 2_100_000_000,
                    0 <= self.speed <= 1_500_000_000,
            ;
            assert(abs_val(y as int * self.speed) <= 4_000_000_000_000_000_000) by (nonlinear_arith)
                requires
                    -2_100_000_000 <= y <= 2_100_000_000,
                    0 <= self.speed <= 1_500_000_000,
            ;
        }
        let nx: i64 = (x * self.speed) / n;
        let ny: i64 = (y * self.speed) / n;
        self.dir = Vec2 { x: nx, y: ny };
    }

    /// Replace the speed and re-scale the heading to it.
    pub fn set_speed(&mut self, speed: i64)
        requires
            !(old(self).dir.x == 0 && old(self).dir.y == 0),
            abs_val(old(self).dir.x as int) <= 2_100_000_000,
            abs_val(old(self).dir.y as int) <= 2_100_000_000,
            2 <= speed <= SPEED_CAP,
        ensures
            final(self).m() == set_speed_m(old(self).m(), speed as int),
            final(self).speed == speed,
            final(self).pos == old(self).pos,
            abs_val(final(self).dir.x as int) <= speed,
            abs_val(final(self).dir.y as int) <= speed,
            !(final(self).dir.x == 0 && final(self).dir.y == 0),
    {
        self.speed = speed;
        self.update_dir_magnitude();
    }

    /// Accelerate or decelerate by `acceleration`.  The change is
    /// applied only when the candidate speed is strictly above the
    /// minimum-speed floor; otherwise the call is a no-op.
    pub fn modify_speed(&mut self, acceleration: i64)
        requires
            old(self).wf(),
            -SPEED_CAP <= acceleration <= SPEED_CAP,
            old(self).speed + acceleration <= SPEED_CAP,
        ensures
            final(self).m() == modify_speed_m(old(self).m(), acceleration as int),
            final(self).wf(),
            final(self).pos == old(self).pos,
            // Speed floor: the speed is unchanged or strictly above the
            // floor, never at or below it.
            final(self).speed == old(self).speed || final(self).speed > MINIMUM_SPEED,
            old(self).speed + acceleration > MINIMUM_SPEED ==> final(self).speed == old(
                self,
            ).speed + acceleration,
            old(self).speed + acceleration <= MINIMUM_SPEED ==> *final(self) == *old(self),
    {
        let candidate: i64 = self.speed + acceleration;
        if candidate > MINIMUM_SPEED {
            self.speed = candidate;
            self.update_dir_magnitude();
            proof {
                lemma_renorm_wf(old(self).m().dir, candidate as int);
            }
        }
    }

    /// Rotate the heading by `angle_milli` milliradians
    /// (counter-clockwise positive), keeping the speed unchanged.
    pub fn rotate(&mut self, angle_milli: i64)
        requires
            old(self).wf(),
            old(self).speed <= COORD_CAP,
            norm_sq(old(self).m().dir) >= 8,
            -1_000_000_000_000 <= angle_milli <= 1_000_000_000_000,
        ensures
            final(self).m() == rotate_m(old(self).m(), angle_milli as int),
            // Rotation preserves the speed, hence the heading magnitude
            // it stands for.
            final(self).speed == old(self).speed,
            final(self).pos == old(self).pos,
            final(self).wf(),
    {
        let c = cos_milli(angle_milli);
        let s = sin_milli(angle_milli);
        let x = self.dir.x;
        let y = self.dir.y;
        proof {
            assert(abs_val(c as int * x) <= 1_000_000_000_000 && abs_val(s as int * y)
                <= 1_000_000_000_000 && abs_val(s as int * x) <= 1_000_000_000_000 && abs_val(
                c as int * y,
            ) <= 1_000_000_000_000) by (nonlinear_arith)
                requires
                    -1000 <= c <= 1000,
                    -1000 <= s <= 1000,
                    -1_000_000_000 <= x <= 1_000_000_000,
                    -1_000_000_000 <= y <= 1_000_000_000,
            ;
        }
        let rvx: i64 = c * x - s * y;
        let rvy: i64 = s * x + c * y;
        let rdx: i64 = rvx / 1000;
        let rdy: i64 = rvy / 1000;
        proof {
            // The scaled-down rotated heading is still nonzero: the
            // rotor has squared length at least a quarter unit and the
            // heading has squared length at least 8, so the rotated
            // heading has a component of at least a full unit.
            lemma_heading_norm_lower(angle_milli as int);
            lemma_rotation_preserves_norm((x as int, y as int), c as int, s as int);
            assert(norm_sq(rot_raw((x as int, y as int), c as int, s as int)) >= 2_000_000)
                by (nonlinear_arith)
                requires
                    c * c + s * s >= 250000,
                    norm_sq((x as int, y as int)) >= 8,
                    norm_sq(rot_raw((x as int, y as int), c as int, s as int)) == (c * c + s * s)
                        * norm_sq((x as int, y as int)),
            ;
            assert(abs_val(rvx as int) >= 1000 || abs_val(rvy as int) >= 1000) by (nonlinear_arith)
                requires
                    rvx * rvx + rvy * rvy >= 2_000_000,
            ;
            if abs_val(rvx as int) >= 1000 {
                lemma_div_trunc_ge_one(abs_val(rvx as int), 1000);
            } else {
                lemma_div_trunc_ge_one(abs_val(rvy as int), 1000);
            }
            lemma_div_trunc_bound(rvx as int, 1000, 2_000_000_000);
            lemma_div_trunc_bound(rvy as int, 1000, 2_000_000_000);
        }
        self.dir = Vec2 { x: rdx, y: rdy };
        self.update_dir_magnitude();
        proof {
            lemma_renorm_wf((rdx as int, rdy as int), self.speed as int);
        }
    }

    /// Blend the heading toward `acceleration` with the given weight (in
    /// thousandths).  The blend is committed, together with its length
    /// as the new speed, only when that length is strictly above the
    /// minimum-speed floor; otherwise the call is a no-op.
    pub fn modify_direction(&mut self, acceleration: Vec2, weight: i64)
        requires
            old(self).wf(),
            0 <= weight <= 1000,
            abs_val(acceleration.x as int) <= SPEED_CAP,
            abs_val(acceleration.y as int) <= SPEED_CAP,
            lerp_speed_m(old(self).m(), (acceleration.x as int, acceleration.y as int), weight as int)
                <= SPEED_CAP,
        ensures
            final(self).m() == modify_direction_m(
                old(self).m(),
                (acceleration.x as int, acceleration.y as int),
                weight as int,
            ),
            final(self).wf(),
            final(self).pos == old(self).pos,
            final(self).speed == old(self).speed || final(self).speed > MINIMUM_SPEED,
            lerp_speed_m(old(self).m(), (acceleration.x as int, acceleration.y as int), weight as int)
                <= MINIMUM_SPEED ==> *final(self) == *old(self),
    {
        let x = self.dir.x;
        let y = self.dir.y;
        let ax = acceleration.x;
        let ay = acceleration.y;
        let w = weight;
        proof {
            assert(abs_val(x as int * (1000 - w)) <= 1_500_000_000_000 && abs_val(ax as int * w)
                <= 1_500_000_000_000 && abs_val(y as int * (1000 - w)) <= 1_500_000_000_000
                && abs_val(ay as int * w) <= 1_500_000_000_000 && abs_val(
                x as int * (1000 - w) + ax as int * w,
            ) <= 1000 * 1_500_000_000 && abs_val(y as int * (1000 - w) + ay as int * w) <= 1000
                * 1_500_000_000) by (nonlinear_arith)
                requires
                    0 <= w <= 1000,
                    -1_500_000_000 <= x <= 1_500_000_000,
                    -1_500_000_000 <= y <= 1_500_000_000,
                    -1_500_000_000 <= ax <= 1_500_000_000,
                    -1_500_000_000 <= ay <= 1_500_000_000,
            ;
            lemma_div_trunc_bound(x as int * (1000 - w) + ax as int * w, 1000, 1_500_000_000);
            lemma_div_trunc_bound(y as int * (1000 - w) + ay as int * w, 1000, 1_500_000_000);
        }
        let ndx: i64 = (x * (1000 - w) + ax * w) / 1000;
        let ndy: i64 = (y * (1000 - w) + ay * w) / 1000;
        proof {
            assert(ndx * ndx >= 0 && ndy * ndy >= 0 && ndx * ndx <= 2_250_000_000_000_000_000
                && ndy * ndy <= 2_250_000_000_000_000_000) by (nonlinear_arith)
                requires
                    -1_500_000_000 <= ndx <= 1_500_000_000,
                    -1_500_000_000 <= ndy <= 1_500_000_000,
            ;
        }
        let nsq: i64 = ndx * ndx + ndy * ndy;
        let n = crate::math::isqrt(nsq);
        if n > MINIMUM_SPEED {
            proof {
                crate::math::lemma_comp_sq_le_norm(ndx as int, ndy as int);
                crate::math::lemma_comp_sq_le_norm(ndy as int, ndx as int);
                lemma_sqrt_floor_ge(nsq as int, abs_val(ndx as int));
                lemma_sqrt_floor_ge(nsq as int, abs_val(ndy as int));
                if ndx == 0 && ndy == 0 {
                    assert(nsq == 0);
                    lemma_sqrt_floor_le(0, 0);
                    assert(false);
                }
            }
            self.dir = Vec2 { x: ndx, y: ndy };
            self.speed = n;
        }
    }

    /// Move one tick along the heading, wrap around the toroidal plane,
    /// then decay the speed toward the cruising speed and re-normalize
    /// the heading to it.
    pub fn advance_toroid(&mut self, width: i64, height: i64)
        requires
            old(self).wf(),
            0 < width <= COORD_CAP,
            0 < height <= COORD_CAP,
            -width <= old(self).pos.x + old(self).dir.x < 2 * width,
            -height <= old(self).pos.y + old(self).dir.y < 2 * height,
        ensures
            final(self).m() == advance_m(old(self).m(), width as int, height as int),
            final(self).wf(),
            // Toroidal wrap: the new position is inside the plane and
            // differs from the unwrapped position by one plane dimension
            // at most, per axis.
            0 <= final(self).pos.x < width,
            0 <= final(self).pos.y < height,
            final(self).pos.x == old(self).pos.x + old(self).dir.x || final(self).pos.x == old(
                self,
            ).pos.x + old(self).dir.x - width || final(self).pos.x == old(self).pos.x + old(
                self,
            ).dir.x + width,
            final(self).pos.y == old(self).pos.y + old(self).dir.y || final(self).pos.y == old(
                self,
            ).pos.y + old(self).dir.y - height || final(self).pos.y == old(self).pos.y + old(
                self,
            ).dir.y + height,
            final(self).speed == old(self).speed + div_trunc(
                TARGET_SPEED - old(self).speed,
                100,
            ),
    {
        let qx: i64 = self.pos.x + self.dir.x;
        let qy: i64 = self.pos.y + self.dir.y;
        let px: i64 = if qx < 0 {
            qx + width
        } else if qx >= width {
            qx - width
        } else {
            qx
        };
        let py: i64 = if qy < 0 {
            qy + height
        } else if qy >= height {
            qy - height
        } else {
            qy
        };
        self.pos = Vec2 { x: px, y: py };
        let decay: i64 = (TARGET_SPEED - self.speed) / 100;
        let s2: i64 = self.speed + decay;
        proof {
            assert(2 <= s2 <= SPEED_CAP);
        }
        self.speed = s2;
        self.update_dir_magnitude();
        proof {
            lemma_renorm_wf(old(self).m().dir, s2 as int);
        }
    }

    /// The forward-pointing isoceles triangle that renders this agent:
    /// the tip two headings ahead, the base corners one heading back,
    /// displaced perpendicular to the heading on either side.
    pub fn get_triangle(&self) -> (t: BirdTriangle)
        requires
            self.wf(),
        ensures
            t.front.x == self.pos.x + 2 * self.dir.x,
            t.front.y == self.pos.y + 2 * self.dir.y,
            t.left.x == self.pos.x - self.dir.x + self.dir.y,
            t.left.y == self.pos.y - self.dir.y - self.dir.x,
            t.right.x == self.pos.x - self.dir.x - self.dir.y,
            t.right.y == self.pos.y - self.dir.y + self.dir.x,
    {
        let l = rotate_left(self.dir);
        let r = rotate_right(self.dir);
        BirdTriangle {
            front: Vec2 { x: self.pos.x + 2 * self.dir.x, y: self.pos.y + 2 * self.dir.y },
            left: Vec2 { x: self.pos.x - self.dir.x + l.x, y: self.pos.y - self.dir.y + l.y },
            right: Vec2 { x: self.pos.x - self.dir.x + r.x, y: self.pos.y - self.dir.y + r.y },
        }
    }
}

/// A quarter turn of a direction, clockwise in screen coordinates.
pub fn rotate_left(direction: Vec2) -> (r: Vec2)
    requires
        direction.x > i64::MIN,
    ensures
        r.x == direction.y,
        r.y == -direction.x,
{
    Vec2 { x: direction.y, y: -direction.x }
}

/// A quarter turn of a direction, counter-clockwise in screen
/// coordinates.
pub fn rotate_right(direction: Vec2) -> (r: Vec2)
    requires
        direction.y > i64::MIN,
    ensures
        r.x == -direction.y,
        r.y == direction.x,
{
    Vec2 { x: -direction.y, y: direction.x }
}

/// Rotate a vector by an angle in milliradians, using the scaled
/// rotation matrix; the result is scaled back to fixed-point units.
pub fn rotate_angle(direction: Vec2, angle_milli: i64) -> (r: Vec2)
    requires
        abs_val(direction.x as int) <= COORD_CAP,
        abs_val(direction.y as int) <= COORD_CAP,
        -1_000_000_000_000 <= angle_milli <= 1_000_000_000_000,
    ensures
        r.x == div_trunc(
            rot_raw((direction.x as int, direction.y as int), cos_of(angle_milli as int), sin_of(angle_milli as int)).0,
            1000,
        ),
        r.y == div_trunc(
            rot_raw((direction.x as int, direction.y as int), cos_of(angle_milli as int), sin_of(angle_milli as int)).1,
            1000,
        ),
{
    let c = cos_milli(angle_milli);
    let s = sin_milli(angle_milli);
    proof {
        assert(abs_val(c as int * direction.x) <= 1_000_000_000_000 && abs_val(
            s as int * direction.y,
        ) <= 1_000_000_000_000 && abs_val(s as int * direction.x) <= 1_000_000_000_000 && abs_val(
            c as int * direction.y,
        ) <= 1_000_000_000_000) by (nonlinear_arith)
            requires
                -1000 <= c <= 1000,
                -1000 <= s <= 1000,
                -1_000_000_000 <= direction.x <= 1_000_000_000,
                -1_000_000_000 <= direction.y <= 1_000_000_000,
        ;
    }
    let rvx: i64 = c * direction.x - s * direction.y;
    let rvy: i64 = s * direction.x + c * direction.y;
    Vec2 { x: rvx / 1000, y: rvy / 1000 }
}

} // verus!
