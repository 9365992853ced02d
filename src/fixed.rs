use vstd::prelude::*;

verus! {

/// Ticks per world unit: positions, sizes and velocities are stored in
/// thousandths of a world unit (velocities per second).
pub const SCALE: i64 = 1000;

/// The largest magnitude of a coordinate or a velocity component. Results of
/// the simulation are clamped to `[-COORD_LIMIT, COORD_LIMIT]`, a world of
/// a thousand million units each way.
pub const COORD_LIMIT: i64 = 1_000_000_000_000;

/// A 2D vector (or point) in fixed-point ticks.
#[derive(Clone, Copy, Debug, PartialEq, Eq, Structural)]
pub struct Vec2 {
    pub x: i64,
    pub y: i64,
}

/// Both components lie within the world's limits.
pub open spec fn in_limits(v: int) -> bool {
    -COORD_LIMIT <= v <= COORD_LIMIT
}

impl Vec2 {
    pub open spec fn bounded(self) -> bool {
        in_limits(self.x as int) && in_limits(self.y as int)
    }

    pub fn new(x: i64, y: i64) -> (r: Vec2)
        ensures
            r.x == x,
            r.y == y,
    {
        Vec2 { x, y }
    }
}

/// Division rounding toward zero, as integer division does in Rust.
pub open spec fn tdiv(a: int, d: int) -> int {
    if a >= 0 {
        a / d
    } else {
        -((-a) / d)
    }
}

/// `v` pulled back into the world's limits.
pub open spec fn clamp(v: int) -> int {
    if v > COORD_LIMIT {
        COORD_LIMIT as int
    } else if v < -COORD_LIMIT {
        -COORD_LIMIT
    } else {
        v
    }
}

pub open spec fn abs(v: int) -> int {
    if v < 0 {
        -v
    } else {
        v
    }
}

pub fn div_toward_zero(a: i128, d: i128) -> (r: i128)
    requires
        d > 0,
        a > i128::MIN,
    ensures
        r == tdiv(a as int, d as int),
        abs(r as int) <= abs(a as int),
{
    if a >= 0 {
        assert(0 <= (a as int) / (d as int) <= a) by (nonlinear_arith)
            requires
                a >= 0,
                d > 0,
        ;
    } else {
        let ghost m: int = -(a as int);
        assert(0 <= m / (d as int) <= m) by (nonlinear_arith)
            requires
                m >= 0,
                d > 0,
        ;
    }
    if a >= 0 {
        a / d
    } else {
        -((-a) / d)
    }
}

pub fn clamp_coord(v: i128) -> (r: i64)
    ensures
        r == clamp(v as int),
{
    if v > COORD_LIMIT as i128 {
        COORD_LIMIT
    } else if v < -(COORD_LIMIT as i128) {
        -COORD_LIMIT
    } else {
        v as i64
    }
}

} // verus!
