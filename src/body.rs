use vstd::prelude::*;
use crate::fixed::{Vec2, SCALE, COORD_LIMIT, in_limits, tdiv, clamp, abs, div_toward_zero, clamp_coord};

verus! {

/// The largest mass a dynamic body may have, in thousandths of a mass unit.
pub const MAX_WEIGHT: i64 = 1_000_000_000;

/// An axis-aligned, non-rotating box.
///
/// `weight == None` marks a static body (infinite mass); `Some(m)` a dynamic
/// body of mass `m`. `elasticity` is a restitution coefficient in thousandths.
#[derive(Clone, Copy, Debug, PartialEq, Eq, Structural)]
pub struct RigidBody {
    pub top_left: Vec2,
    pub dimensions: Vec2,
    pub velocity: Vec2,
    pub weight: Option<i64>,
    pub elasticity: i64,
}

/// The axis along which a collision is corrected.
#[derive(Clone, Copy, Debug, PartialEq, Eq, Structural)]
pub enum Axis {
    X,
    Y,
}

/// An axis-aligned rectangle: corner and size.
#[derive(Clone, Copy, Debug, PartialEq, Eq, Structural)]
pub struct Rect {
    pub x: i64,
    pub y: i64,
    pub w: i64,
    pub h: i64,
}

impl RigidBody {
    /// Position and velocity within the world's limits, a positive size, a
    /// positive mass for a dynamic body, and an elasticity between 0 and 1.
    pub open spec fn wf(self) -> bool {
        &&& self.top_left.bounded()
        &&& self.velocity.bounded()
        &&& 0 < self.dimensions.x <= COORD_LIMIT
        &&& 0 < self.dimensions.y <= COORD_LIMIT
        &&& match self.weight {
            Some(m) => 0 < m <= MAX_WEIGHT,
            None => true,
        }
        &&& 0 <= self.elasticity <= SCALE
    }

    pub open spec fn is_dynamic(self) -> bool {
        self.weight is Some
    }

    pub open spec fn left(self) -> int {
        self.top_left.x as int
    }

    pub open spec fn right(self) -> int {
        self.top_left.x + self.dimensions.x
    }

    pub open spec fn top(self) -> int {
        self.top_left.y as int
    }

    pub open spec fn bottom(self) -> int {
        self.top_left.y + self.dimensions.y
    }
}

/// The two boxes share interior points; boxes that only touch do not overlap.
pub open spec fn overlaps(a: RigidBody, b: RigidBody) -> bool {
    &&& a.left() < b.right()
    &&& b.left() < a.right()
    &&& a.top() < b.bottom()
    &&& b.top() < a.bottom()
}

/// The shift of `a` along one axis that separates it from `b`: of pushing `a`
/// back past `b`'s low edge or forward past `b`'s high edge, the shorter.
pub open spec fn axis_displacement(a_lo: int, a_hi: int, b_lo: int, b_hi: int) -> int {
    let ab = a_hi - b_lo;
    let ba = b_hi - a_lo;
    if ab > ba {
        ba
    } else {
        -ab
    }
}

/// The per-axis minimum translation of `a` out of `b`, if they overlap.
pub open spec fn collision_displacement(a: RigidBody, b: RigidBody) -> Option<Vec2> {
    if overlaps(a, b) {
        let dx = axis_displacement(a.left(), a.right(), b.left(), b.right());
        let dy = axis_displacement(a.top(), a.bottom(), b.top(), b.bottom());
        if dx == 0 && dy == 0 {
            None
        } else {
            Some(Vec2 { x: dx as i64, y: dy as i64 })
        }
    } else {
        None
    }
}

/// The axis that a displacement corrects: the one with the smaller shift.
pub open spec fn axis_to_fix(d: Vec2) -> Axis {
    if abs(d.x as int) > abs(d.y as int) {
        Axis::Y
    } else {
        Axis::X
    }
}

/// A velocity component after an inelastic bounce: reversed and halved, in
/// whole ticks (rounded toward zero).
pub open spec fn bounced(v: i64) -> i64 {
    (-tdiv(v as int, 2)) as i64
}

pub open spec fn moved(p: Vec2, dx: int, dy: int) -> Vec2 {
    Vec2 { x: clamp(p.x + dx) as i64, y: clamp(p.y + dy) as i64 }
}

/// `b` with its velocity bounced on `axis`.
pub open spec fn bounced_on(b: RigidBody, axis: Axis) -> RigidBody {
    match axis {
        Axis::X => RigidBody { velocity: Vec2 { x: bounced(b.velocity.x), ..b.velocity }, ..b },
        Axis::Y => RigidBody { velocity: Vec2 { y: bounced(b.velocity.y), ..b.velocity }, ..b },
    }
}

/// The displacement with the component off `axis` zeroed.
pub open spec fn restricted(d: Vec2, axis: Axis) -> Vec2 {
    match axis {
        Axis::X => Vec2 { x: d.x, y: 0 },
        Axis::Y => Vec2 { x: 0, y: d.y },
    }
}

/// The pair after the displacement-based response to `d`: velocities on the
/// corrected axis bounced, then the dynamic bodies pushed apart along it by
/// the whole shift between them: when both move, `a` takes half of it
/// (rounded toward zero) and `b` the rest, when one moves it takes all.
pub open spec fn resolved(a: RigidBody, b: RigidBody, d: Vec2) -> (RigidBody, RigidBody) {
    let axis = axis_to_fix(d);
    let s = restricted(d, axis);
    let a1 = bounced_on(a, axis);
    let b1 = bounced_on(b, axis);
    if a.is_dynamic() && b.is_dynamic() {
        let hx = tdiv(s.x as int, 2);
        let hy = tdiv(s.y as int, 2);
        (
            RigidBody { top_left: moved(a.top_left, hx, hy), ..a1 },
            RigidBody { top_left: moved(b.top_left, -(s.x - hx), -(s.y - hy)), ..b1 },
        )
    } else if a.is_dynamic() {
        (RigidBody { top_left: moved(a.top_left, s.x as int, s.y as int), ..a1 }, b1)
    } else if b.is_dynamic() {
        (a1, RigidBody { top_left: moved(b.top_left, -s.x, -s.y), ..b1 })
    } else {
        (a1, b1)
    }
}


/// Gravity, in ticks per second squared (9 units/s²).
pub const GRAVITY: i64 = 9000;

/// Velocity decay: a step of `dt` milliseconds scales a dynamic body's
/// velocity by `(DECAY_DIVISOR - dt) / DECAY_DIVISOR`, a loss of one half per
/// second.
pub const DECAY_DIVISOR: i64 = 2000;

/// A velocity component after `dt` milliseconds of decay.
pub open spec fn damped(v: i64, dt: int) -> int {
    tdiv(v * (DECAY_DIVISOR - dt), DECAY_DIVISOR as int)
}

/// The body after one integration pass of `dt` milliseconds: a dynamic body's
/// velocity decays, gains gravity on `y`, and then moves the body; a static
/// body's velocity is zeroed.
pub open spec fn integrated(b: RigidBody, dt: int) -> RigidBody {
    if b.is_dynamic() {
        let vx = clamp(damped(b.velocity.x, dt));
        let vy = clamp(damped(b.velocity.y, dt) + dt * GRAVITY / SCALE as int);
        RigidBody {
            velocity: Vec2 { x: vx as i64, y: vy as i64 },
            top_left: moved(b.top_left, tdiv(vx * dt, SCALE as int), tdiv(vy * dt, SCALE as int)),
            ..b
        }
    } else {
        RigidBody { velocity: Vec2 { x: 0, y: 0 }, ..b }
    }
}

/// How an impulse is shared: the numerators for `a` and for `b` over a common
/// denominator, from the inverse masses (zero for a static body).
pub open spec fn impulse_shares(a: RigidBody, b: RigidBody) -> (int, int, int) {
    match (a.weight, b.weight) {
        (Some(ma), Some(mb)) => (mb as int, ma as int, ma + mb),
        (Some(_), None) => (1, 0, 1),
        (None, Some(_)) => (0, 1, 1),
        (None, None) => (0, 0, 0),
    }
}

/// The relative velocity of `b` with respect to `a`, projected on `n`.
pub open spec fn approach(a: RigidBody, b: RigidBody, n: Vec2) -> int {
    (b.velocity.x - a.velocity.x) * n.x + (b.velocity.y - a.velocity.y) * n.y
}

pub open spec fn min_elasticity(a: RigidBody, b: RigidBody) -> int {
    if a.elasticity < b.elasticity {
        a.elasticity as int
    } else {
        b.elasticity as int
    }
}

/// One component of a velocity change: `k` (restitution, approach and share)
/// along the normal component `n`, brought back to ticks.
pub open spec fn impulse_change(k: int, n: int, den: int) -> int {
    tdiv(k * n, SCALE * SCALE * SCALE * den)
}

/// The pair after the impulse-based response along `n`: nothing when the
/// bodies separate or both are static, else `j = -(1 + e) v_n / (1/m_a + 1/m_b)`
/// with `e` the smaller elasticity, applied as `-j n / m_a` and `+j n / m_b`.
pub open spec fn impulse_resolved(a: RigidBody, b: RigidBody, n: Vec2) -> (RigidBody, RigidBody) {
    let dot = approach(a, b, n);
    let (na, nb, den) = impulse_shares(a, b);
    if dot > 0 || den == 0 {
        (a, b)
    } else {
        let e = min_elasticity(a, b);
        let ka = (SCALE + e) * dot * na;
        let kb = (SCALE + e) * dot * nb;
        (
            RigidBody {
                velocity: moved(a.velocity, impulse_change(ka, n.x as int, den), impulse_change(ka, n.y as int, den)),
                ..a
            },
            RigidBody {
                velocity: moved(b.velocity, -impulse_change(kb, n.x as int, den), -impulse_change(kb, n.y as int, den)),
                ..b
            },
        )
    }
}

/// A bound on every intermediate product of integration: a velocity within
/// the world's limits times any step length that an `i64` holds.
pub const WIDE_BOUND: i128 = 10_000_000_000_000_000_000_000_000_000_000;

fn decay(v: i64, dt: i64) -> (r: i128)
    requires
        in_limits(v as int),
        0 <= dt,
    ensures
        r == damped(v, dt as int),
        -WIDE_BOUND <= r <= WIDE_BOUND,
{
    let f = DECAY_DIVISOR as i128 - dt as i128;
    assert(-WIDE_BOUND <= (v as int) * (f as int) <= WIDE_BOUND) by (nonlinear_arith)
        requires
            -COORD_LIMIT <= v <= COORD_LIMIT,
            -10_000_000_000_000_000_000 <= f <= 2000,
    ;
    div_toward_zero(v as i128 * f, DECAY_DIVISOR as i128)
}

fn travel(v: i64, dt: i64) -> (r: i128)
    requires
        in_limits(v as int),
        0 <= dt,
    ensures
        r == tdiv(v * dt, SCALE as int),
        -WIDE_BOUND <= r <= WIDE_BOUND,
{
    assert(-WIDE_BOUND <= (v as int) * (dt as int) <= WIDE_BOUND) by (nonlinear_arith)
        requires
            -COORD_LIMIT <= v <= COORD_LIMIT,
            0 <= dt <= 10_000_000_000_000_000_000,
    ;
    div_toward_zero(v as i128 * dt as i128, SCALE as i128)
}

fn impulse_step(k: i128, n: i64, den: i128) -> (r: i128)
    requires
        -8_000_000_000_000_000_000_000_000_000 <= k <= 8_000_000_000_000_000_000_000_000_000,
        -SCALE <= n <= SCALE,
        1 <= den <= 2 * MAX_WEIGHT,
    ensures
        r == impulse_change(k as int, n as int, den as int),
        -8_000_000_000_000_000_000_000_000_000_000 <= r <= 8_000_000_000_000_000_000_000_000_000_000,
{
    assert(-8_000_000_000_000_000_000_000_000_000_000 <= (k as int) * (n as int)
        <= 8_000_000_000_000_000_000_000_000_000_000) by (nonlinear_arith)
        requires
            -8_000_000_000_000_000_000_000_000_000 <= k <= 8_000_000_000_000_000_000_000_000_000,
            -1000 <= n <= 1000,
    ;
    let q: i128 = 1_000_000_000 * den;
    div_toward_zero(k * n as i128, q)
}

fn halve(v: i64) -> (r: i64)
    requires
        in_limits(v as int),
    ensures
        r == tdiv(v as int, 2),
        in_limits(r as int),
{
    div_toward_zero(v as i128, 2) as i64
}

fn bounce(v: i64) -> (r: i64)
    requires
        in_limits(v as int),
    ensures
        r == bounced(v),
        in_limits(r as int),
{
    -halve(v)
}

fn shift(p: Vec2, dx: i128, dy: i128) -> (r: Vec2)
    requires
        -WIDE_BOUND <= dx <= WIDE_BOUND,
        -WIDE_BOUND <= dy <= WIDE_BOUND,
    ensures
        r == moved(p, dx as int, dy as int),
        r.bounded(),
{
    Vec2 { x: clamp_coord(p.x as i128 + dx), y: clamp_coord(p.y as i128 + dy) }
}

impl RigidBody {
    /// A body at rest with full elasticity.
    pub fn new(top_left: Vec2, dimensions: Vec2, weight: Option<i64>) -> (r: RigidBody)
        requires
            top_left.bounded(),
            0 < dimensions.x <= COORD_LIMIT,
            0 < dimensions.y <= COORD_LIMIT,
            match weight {
                Some(m) => 0 < m <= MAX_WEIGHT,
                None => true,
            },
        ensures
            r.wf(),
            r == (RigidBody { top_left, dimensions, velocity: Vec2 { x: 0, y: 0 }, weight, elasticity: SCALE }),
    {
        RigidBody { top_left, dimensions, velocity: Vec2 { x: 0, y: 0 }, weight, elasticity: SCALE }
    }


    /// One integration pass of `delta_ms` milliseconds (see `integrated`).
    pub fn integrate(&mut self, delta_ms: i64)
        requires
            old(self).wf(),
            0 <= delta_ms,
        ensures
            *final(self) == integrated(*old(self), delta_ms as int),
            final(self).wf(),
    {
        if self.weight.is_some() {
            let vx = clamp_coord(decay(self.velocity.x, delta_ms));
            let vy = clamp_coord(decay(self.velocity.y, delta_ms) + (delta_ms as i128 * GRAVITY as i128) / SCALE as i128);
            self.velocity = Vec2 { x: vx, y: vy };
            self.top_left = shift(self.top_left, travel(vx, delta_ms), travel(vy, delta_ms));
        } else {
            self.velocity = Vec2 { x: 0, y: 0 };
        }
    }

    /// Impulse-based collision response along the unit normal `normal` (in
    /// ticks, pointing from `a` to `b`), honouring masses and elasticity. The
    /// step uses `resolve_collision` instead; this variant is kept beside it.
    pub fn resolve_collision_impulse(a: &mut RigidBody, b: &mut RigidBody, normal: Vec2)
        requires
            old(a).wf(),
            old(b).wf(),
            -SCALE <= normal.x <= SCALE,
            -SCALE <= normal.y <= SCALE,
        ensures
            (*final(a), *final(b)) == impulse_resolved(*old(a), *old(b), normal),
            final(a).wf(),
            final(b).wf(),
    {
        let rvx = b.velocity.x as i128 - a.velocity.x as i128;
        let rvy = b.velocity.y as i128 - a.velocity.y as i128;
        assert(-2 * COORD_LIMIT * SCALE <= (rvx as int) * (normal.x as int) <= 2 * COORD_LIMIT * SCALE) by (nonlinear_arith)
            requires -2 * COORD_LIMIT <= rvx <= 2 * COORD_LIMIT, -SCALE <= normal.x <= SCALE;
        assert(-2 * COORD_LIMIT * SCALE <= (rvy as int) * (normal.y as int) <= 2 * COORD_LIMIT * SCALE) by (nonlinear_arith)
            requires -2 * COORD_LIMIT <= rvy <= 2 * COORD_LIMIT, -SCALE <= normal.y <= SCALE;
        let dot = rvx * normal.x as i128 + rvy * normal.y as i128;
        if dot > 0 {
            return;
        }
        let (na, nb, den): (i128, i128, i128) = match (a.weight, b.weight) {
            (Some(ma), Some(mb)) => (mb as i128, ma as i128, ma as i128 + mb as i128),
            (Some(_), None) => (1, 0, 1),
            (None, Some(_)) => (0, 1, 1),
            (None, None) => (0, 0, 0),
        };
        if den == 0 {
            return;
        }
        let e: i128 = if a.elasticity < b.elasticity { a.elasticity as i128 } else { b.elasticity as i128 };
        let r = SCALE as i128 + e;
        assert(-8_000_000_000_000_000_000 <= (r as int) * (dot as int) <= 0) by (nonlinear_arith)
            requires 0 <= r <= 2000, -4_000_000_000_000_000 <= dot <= 0;
        let rd = r * dot;
        assert(-8_000_000_000_000_000_000_000_000_000 <= (rd as int) * (na as int) <= 0) by (nonlinear_arith)
            requires -8_000_000_000_000_000_000 <= rd <= 0, 0 <= na <= 1_000_000_000;
        assert(-8_000_000_000_000_000_000_000_000_000 <= (rd as int) * (nb as int) <= 0) by (nonlinear_arith)
            requires -8_000_000_000_000_000_000 <= rd <= 0, 0 <= nb <= 1_000_000_000;
        let ka = rd * na;
        let kb = rd * nb;
        let ax = impulse_step(ka, normal.x, den);
        let ay = impulse_step(ka, normal.y, den);
        let bx = impulse_step(kb, normal.x, den);
        let by = impulse_step(kb, normal.y, den);
        a.velocity = Vec2 { x: clamp_coord(a.velocity.x as i128 + ax), y: clamp_coord(a.velocity.y as i128 + ay) };
        b.velocity = Vec2 { x: clamp_coord(b.velocity.x as i128 - bx), y: clamp_coord(b.velocity.y as i128 - by) };
    }

    pub fn get_top_left(&self) -> (r: Vec2)
        ensures
            r == self.top_left,
    {
        self.top_left
    }

    pub fn get_velocity(&self) -> (r: Vec2)
        ensures
            r == self.velocity,
    {
        self.velocity
    }

    /// Replaces the velocity, as an owner of the body may between steps.
    pub fn set_velocity(&mut self, velocity: Vec2)
        requires
            velocity.bounded(),
        ensures
            *final(self) == (RigidBody { velocity, ..*old(self) }),
    {
        self.velocity = velocity;
    }

    /// Adds `dv` to the velocity, as an owner of the body may between steps
    /// (a jump, a push from input), clamped to the world's limits.
    pub fn push(&mut self, dv: Vec2)
        requires
            old(self).wf(),
            dv.bounded(),
        ensures
            final(self).wf(),
            *final(self) == (RigidBody { velocity: moved(old(self).velocity, dv.x as int, dv.y as int), ..*old(self) }),
    {
        self.velocity = shift(self.velocity, dv.x as i128, dv.y as i128);
    }

    /// The box's size, placed at the origin.
    pub fn get_dimensions_rect(&self) -> (r: Rect)
        ensures
            r == (Rect { x: 0, y: 0, w: self.dimensions.x, h: self.dimensions.y }),
    {
        Rect { x: 0, y: 0, w: self.dimensions.x, h: self.dimensions.y }
    }

    /// The box in world space: `top_left .. top_left + dimensions`.
    pub fn get_transformed_rect(&self) -> (r: Rect)
        ensures
            r == (Rect { x: self.top_left.x, y: self.top_left.y, w: self.dimensions.x, h: self.dimensions.y }),
    {
        Rect { x: self.top_left.x, y: self.top_left.y, w: self.dimensions.x, h: self.dimensions.y }
    }

    /// The shift of `a` (and the opposite shift of `b`) that separates the two
    /// boxes on each axis independently, or `None` when they do not overlap.
    pub fn get_collision_displacement(a: &RigidBody, b: &RigidBody) -> (r: Option<Vec2>)
        requires
            a.wf(),
            b.wf(),
        ensures
            r == collision_displacement(*a, *b),
            r matches Some(d) ==> d.bounded(),
    {
        let ra = a.get_transformed_rect();
        let rb = b.get_transformed_rect();
        let a_left = ra.x as i128;
        let a_right = ra.x as i128 + ra.w as i128;
        let a_top = ra.y as i128;
        let a_bottom = ra.y as i128 + ra.h as i128;
        let b_left = rb.x as i128;
        let b_right = rb.x as i128 + rb.w as i128;
        let b_top = rb.y as i128;
        let b_bottom = rb.y as i128 + rb.h as i128;

        if a_left < b_right && b_left < a_right && a_top < b_bottom && b_top < a_bottom {
            let displ_x_ab = a_right - b_left;
            let displ_x_ba = b_right - a_left;
            let displ_y_ab = a_bottom - b_top;
            let displ_y_ba = b_bottom - a_top;

            let displ_x = if displ_x_ab > displ_x_ba {
                displ_x_ba
            } else {
                -displ_x_ab
            };
            let displ_y = if displ_y_ab > displ_y_ba {
                displ_y_ba
            } else {
                -displ_y_ab
            };
            if displ_x == 0 && displ_y == 0 {
                return None;
            }
            return Some(Vec2 { x: displ_x as i64, y: displ_y as i64 });
        }
        None
    }

    /// Displacement-based collision response (the one the step uses): bounces
    /// both velocities on the axis with the smaller shift and moves the dynamic
    /// bodies apart along that axis only.
    pub fn resolve_collision(a: &mut RigidBody, b: &mut RigidBody, displace_a: Vec2)
        requires
            old(a).wf(),
            old(b).wf(),
            displace_a.bounded(),
        ensures
            (*final(a), *final(b)) == resolved(*old(a), *old(b), displace_a),
            final(a).wf(),
            final(b).wf(),
    {
        let axis_to_fix = if abs_i64(displace_a.x) > abs_i64(displace_a.y) {
            Axis::Y
        } else {
            Axis::X
        };
        let mut d = displace_a;
        match axis_to_fix {
            Axis::X => {
                a.velocity.x = bounce(a.velocity.x);
                b.velocity.x = bounce(b.velocity.x);
                d.y = 0;
            },
            Axis::Y => {
                a.velocity.y = bounce(a.velocity.y);
                b.velocity.y = bounce(b.velocity.y);
                d.x = 0;
            },
        }
        if a.weight.is_some() && b.weight.is_some() {
            let hx = halve(d.x);
            let hy = halve(d.y);
            a.top_left = shift(a.top_left, hx as i128, hy as i128);
            b.top_left = shift(b.top_left, -(d.x as i128 - hx as i128), -(d.y as i128 - hy as i128));
        } else if a.weight.is_some() {
            a.top_left = shift(a.top_left, d.x as i128, d.y as i128);
        } else if b.weight.is_some() {
            b.top_left = shift(b.top_left, -(d.x as i128), -(d.y as i128));
        }
    }
}

fn abs_i64(v: i64) -> (r: i64)
    requires
        in_limits(v as int),
    ensures
        r == abs(v as int),
{
    if v < 0 {
        -v
    } else {
        v
    }
}

/// Boxes that do not overlap (touching edges included) have no collision
/// displacement.
pub proof fn lemma_apart_no_displacement(a: RigidBody, b: RigidBody)
    requires
        !overlaps(a, b),
    ensures
        collision_displacement(a, b) is None,
{
}

/// An integration pass leaves a static body at rest, whatever its velocity
/// was, and where it was.
pub proof fn lemma_static_comes_to_rest(b: RigidBody, dt: int)
    requires
        !b.is_dynamic(),
    ensures
        integrated(b, dt).velocity == (Vec2 { x: 0, y: 0 }),
        integrated(b, dt).top_left == b.top_left,
{
}

/// A free dynamic body first loses `dt / DECAY_DIVISOR` of its velocity, then
/// gains exactly `dt * 9` ticks per second downward, and then moves by its new
/// velocity times `dt`; its size, mass and elasticity stay (all within the
/// world's limits).
pub proof fn lemma_free_fall(b: RigidBody, dt: int)
    requires
        b.wf(),
        b.is_dynamic(),
        0 <= dt,
    ensures
        ({
            let n = integrated(b, dt);
            &&& n.velocity.x == clamp(damped(b.velocity.x, dt))
            &&& n.velocity.y == clamp(damped(b.velocity.y, dt) + dt * 9)
            &&& n.top_left.x == clamp(b.top_left.x + tdiv(n.velocity.x * dt, SCALE as int))
            &&& n.top_left.y == clamp(b.top_left.y + tdiv(n.velocity.y * dt, SCALE as int))
            &&& n.dimensions == b.dimensions
            &&& n.weight == b.weight
            &&& n.elasticity == b.elasticity
        }),
{
    assert(dt * GRAVITY / SCALE as int == dt * 9) by (nonlinear_arith)
        requires
            dt >= 0,
    ;
}

/// Resolving a collision of two boxes, at least one of them dynamic, separates
/// them along the corrected axis: the offset between them there changes by
/// exactly the displacement, so afterwards they at most touch on that axis;
/// along the other axis nothing moves (away from the world's edges).
pub proof fn lemma_resolve_separates(a: RigidBody, b: RigidBody)
    requires
        a.wf(),
        b.wf(),
        a.is_dynamic() || b.is_dynamic(),
        collision_displacement(a, b) is Some,
        in_limits(a.top_left.x + collision_displacement(a, b)->0.x),
        in_limits(a.top_left.y + collision_displacement(a, b)->0.y),
        in_limits(b.top_left.x - collision_displacement(a, b)->0.x),
        in_limits(b.top_left.y - collision_displacement(a, b)->0.y),
    ensures
        ({
            let d = collision_displacement(a, b)->0;
            let (a2, b2) = resolved(a, b, d);
            match axis_to_fix(d) {
                Axis::X => {
                    &&& a2.left() - b2.left() == a.left() - b.left() + d.x
                    &&& (a2.right() <= b2.left() || b2.right() <= a2.left())
                    &&& a2.top_left.y == a.top_left.y
                    &&& b2.top_left.y == b.top_left.y
                },
                Axis::Y => {
                    &&& a2.top() - b2.top() == a.top() - b.top() + d.y
                    &&& (a2.bottom() <= b2.top() || b2.bottom() <= a2.top())
                    &&& a2.top_left.x == a.top_left.x
                    &&& b2.top_left.x == b.top_left.x
                },
            }
        }),
{
}

/// Two dynamic bodies after a collision response: on the corrected axis both
/// velocities are reversed and halved (rounded toward zero), on the other
/// they stay; the shift off that axis is dropped and the one on it is split
/// between the bodies, `a` taking half (rounded toward zero) and `b` the rest
/// the other way (away from the world's edges).
pub proof fn lemma_resolve_two_dynamic(a: RigidBody, b: RigidBody, d: Vec2)
    requires
        a.wf(),
        b.wf(),
        d.bounded(),
        a.is_dynamic(),
        b.is_dynamic(),
        in_limits(a.top_left.x + d.x),
        in_limits(a.top_left.y + d.y),
        in_limits(b.top_left.x - d.x),
        in_limits(b.top_left.y - d.y),
    ensures
        ({
            let (a2, b2) = resolved(a, b, d);
            &&& a2.dimensions == a.dimensions && a2.weight == a.weight
            &&& b2.dimensions == b.dimensions && b2.weight == b.weight
            &&& match axis_to_fix(d) {
                Axis::X => {
                    &&& a2.velocity == Vec2 { x: bounced(a.velocity.x), y: a.velocity.y }
                    &&& b2.velocity == Vec2 { x: bounced(b.velocity.x), y: b.velocity.y }
                    &&& a2.top_left.x == a.top_left.x + tdiv(d.x as int, 2)
                    &&& b2.top_left.x == b.top_left.x - (d.x - tdiv(d.x as int, 2))
                    &&& a2.top_left.y == a.top_left.y
                    &&& b2.top_left.y == b.top_left.y
                },
                Axis::Y => {
                    &&& a2.velocity == Vec2 { x: a.velocity.x, y: bounced(a.velocity.y) }
                    &&& b2.velocity == Vec2 { x: b.velocity.x, y: bounced(b.velocity.y) }
                    &&& a2.top_left.y == a.top_left.y + tdiv(d.y as int, 2)
                    &&& b2.top_left.y == b.top_left.y - (d.y - tdiv(d.y as int, 2))
                    &&& a2.top_left.x == a.top_left.x
                    &&& b2.top_left.x == b.top_left.x
                },
            }
        }),
{
}

} // verus!
