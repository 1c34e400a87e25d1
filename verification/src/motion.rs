//! Velocity, acceleration and facing of a body, and the steps that move it.

use vstd::prelude::*;
use crate::config::SimConfig;
use crate::unit::Unit;
use crate::vector::{
    clamped_length, difference, dist_sq, lemma_clamped_length, lemma_norm_sq_positive,
    lemma_product_bound, lemma_square_bound, negated, normalized, scaled, sum, zero, Vec2,
};

verus! {

/// The facing of a unit: the direction it last moved in, as a vector of
/// length one million. A unit that never moved faces up, `(0, 1_000_000)`.
#[derive(Clone, Copy, PartialEq, Eq, Debug)]
pub struct Rotation(pub Vec2);

/// Where a unit wants to go, relative to where it is; `None` when it has no
/// target and comes to rest.
#[derive(Clone, Copy, PartialEq, Eq, Debug)]
pub struct TargetPoint(pub Option<Vec2>);

/// The motion of a unit and its limits.
#[derive(Clone, Copy, PartialEq, Eq, Debug)]
pub struct MovingBody {
    pub curr_velocity: Vec2,
    pub max_speed: u32,
    pub curr_acceleration: Vec2,
    pub max_acceleration: u32,
}

/// A body slower than this keeps its facing: one thousandth of a unit per second.
pub const ROTATION_SPEED_THRESHOLD: u32 = 1;

/// The unit after `dt` microseconds at its current velocity.
pub open spec fn moved(u: Unit, dt: u32) -> Unit {
    Unit {
        translation: sum(u.translation, scaled(u.body.curr_velocity, dt as int, 1_000_000)),
        ..u
    }
}

/// The unit facing the way it moves; a unit that is all but at rest keeps its
/// facing.
pub open spec fn turned(u: Unit) -> Unit {
    if u.body.curr_velocity.norm_sq() > ROTATION_SPEED_THRESHOLD * ROTATION_SPEED_THRESHOLD {
        Unit { rotation: Rotation(normalized(u.body.curr_velocity)), ..u }
    } else {
        u
    }
}

/// The change of velocity that a body asks for in one tick of `dt`
/// microseconds. With a target it pushes toward the target at full
/// acceleration, capped at `max_acceleration * dt`; without one it cancels
/// the velocity outright.
pub open spec fn tick_acceleration(body: MovingBody, target: TargetPoint, dt: u32) -> Vec2 {
    match target.0 {
        Some(p) => clamped_length(
            scaled(normalized(p), body.max_acceleration as int, 1_000_000),
            (dt * body.max_acceleration) / 1_000_000,
        ),
        None => negated(body.curr_velocity),
    }
}

/// The body after one tick: the acceleration of `tick_acceleration`, and the
/// velocity changed by it and capped at `max_speed`.
pub open spec fn accelerated_body(body: MovingBody, target: TargetPoint, dt: u32) -> MovingBody {
    let acceleration = tick_acceleration(body, target, dt);
    MovingBody {
        curr_acceleration: acceleration,
        curr_velocity: clamped_length(sum(body.curr_velocity, acceleration), body.max_speed as int),
        ..body
    }
}

/// The unit with its body stepped by `accelerated_body`.
pub open spec fn accelerated(u: Unit, dt: u32) -> Unit {
    Unit { body: accelerated_body(u.body, u.target, dt), ..u }
}

impl MovingBody {
    /// A body at rest with the given limits.
    pub fn new(max_speed: u32, max_acceleration: u32) -> (b: MovingBody)
        ensures
            b == (MovingBody {
                curr_velocity: zero(),
                max_speed,
                curr_acceleration: zero(),
                max_acceleration,
            }),
    {
        MovingBody {
            curr_velocity: Vec2::origin(),
            max_speed,
            curr_acceleration: Vec2::origin(),
            max_acceleration,
        }
    }

    /// Steps the velocity by one tick of `dt` microseconds toward `target`.
    /// The new velocity is never faster than `max_speed`.
    pub fn step(self, target: TargetPoint, dt: u32) -> (b: MovingBody)
        ensures
            b == accelerated_body(self, target, dt),
            b.curr_velocity.norm_sq() <= self.max_speed * self.max_speed,
            target.0.is_some() ==> b.curr_acceleration.norm_sq() <= ((dt * self.max_acceleration)
                / 1_000_000) * ((dt * self.max_acceleration) / 1_000_000),
    {
        let acceleration: Vec2 = match target.0 {
            Some(p) => {
                proof {
                    lemma_product_bound(
                        dt as int,
                        self.max_acceleration as int,
                        0xFFFF_FFFF,
                        0xFFFF_FFFF,
                    );
                }
                let cap: u64 = (dt as u64 * self.max_acceleration as u64) / 1_000_000;
                let direction: Vec2 = p.normalize_or_zero();
                direction.scale(self.max_acceleration as i64, 1_000_000).clamp_length_max(cap)
            },
            None => self.curr_velocity.opposite(),
        };
        MovingBody {
            curr_acceleration: acceleration,
            curr_velocity: self.curr_velocity.plus(acceleration).clamp_length_max(
                self.max_speed as u64,
            ),
            ..self
        }
    }
}

/// Moves every unit by its velocity over `dt` microseconds.
pub fn apply_velocity(units: &mut Vec<Unit>, dt: u32)
    ensures
        final(units)@.len() == old(units)@.len(),
        forall|i: int| 0 <= i < old(units)@.len() ==> final(units)@[i] == moved(old(units)@[i], dt),
{
    let n: usize = units.len();
    let ghost before = units@;
    let mut i: usize = 0;
    while i < n
        invariant
            i <= n,
            units@.len() == n,
            before.len() == n,
            forall|j: int| 0 <= j < i ==> units@[j] == moved(before[j], dt),
            forall|j: int| i <= j < n ==> units@[j] == before[j],
        decreases n - i,
    {
        let u: Unit = units[i];
        let step: Vec2 = u.body.curr_velocity.scale(dt as i64, 1_000_000);
        units.set(i, Unit { translation: u.translation.plus(step), ..u });
        i += 1;
    }
}

/// Turns every unit that moves to face the way it moves.
pub fn apply_rotation(units: &mut Vec<Unit>)
    ensures
        final(units)@.len() == old(units)@.len(),
        forall|i: int| 0 <= i < old(units)@.len() ==> final(units)@[i] == turned(old(units)@[i]),
{
    let n: usize = units.len();
    let ghost before = units@;
    let mut i: usize = 0;
    while i < n
        invariant
            i <= n,
            units@.len() == n,
            before.len() == n,
            forall|j: int| 0 <= j < i ==> units@[j] == turned(before[j]),
            forall|j: int| i <= j < n ==> units@[j] == before[j],
        decreases n - i,
    {
        let u: Unit = units[i];
        let threshold: u128 = ROTATION_SPEED_THRESHOLD as u128 * ROTATION_SPEED_THRESHOLD as u128;
        if u.body.curr_velocity.length_squared() > threshold {
            let facing: Vec2 = u.body.curr_velocity.normalize_or_zero();
            units.set(i, Unit { rotation: Rotation(facing), ..u });
        }
        i += 1;
    }
}

/// Steps the velocity of every unit by one tick of `dt` microseconds. After
/// it no unit is faster than its `max_speed`.
pub fn update_velocity(units: &mut Vec<Unit>, dt: u32)
    ensures
        final(units)@.len() == old(units)@.len(),
        forall|i: int|
            0 <= i < old(units)@.len() ==> final(units)@[i] == accelerated(old(units)@[i], dt),
        forall|i: int|
            0 <= i < old(units)@.len() ==> final(units)@[i].body.curr_velocity.norm_sq()
                <= old(units)@[i].body.max_speed * old(units)@[i].body.max_speed,
{
    let n: usize = units.len();
    let ghost before = units@;
    let mut i: usize = 0;
    while i < n
        invariant
            i <= n,
            units@.len() == n,
            before.len() == n,
            forall|j: int| 0 <= j < i ==> units@[j] == accelerated(before[j], dt),
            forall|j: int|
                0 <= j < i ==> units@[j].body.curr_velocity.norm_sq() <= before[j].body.max_speed
                    * before[j].body.max_speed,
            forall|j: int| i <= j < n ==> units@[j] == before[j],
        decreases n - i,
    {
        let u: Unit = units[i];
        units.set(i, Unit { body: u.body.step(u.target, dt), ..u });
        i += 1;
    }
}

/// What is added to a squared distance before dividing by it.
pub const SEPARATION_EPSILON: u32 = 1;

/// The strength of the push between two bodies at squared distance `d2`:
/// `force_constant / (d2 + epsilon)` inside the collision radius, nothing
/// at or beyond it.
pub open spec fn repulsion_force(d2: int, cfg: SimConfig) -> int {
    if d2 < cfg.collision_radius * cfg.collision_radius {
        (cfg.force_constant * 1_000_000) / (d2 + SEPARATION_EPSILON)
    } else {
        0
    }
}

/// The change of velocity that pushes a body at `p1` away from one at `p2`
/// over `dt` microseconds.
pub open spec fn repulsion(p1: Vec2, p2: Vec2, cfg: SimConfig, dt: u32) -> Vec2 {
    scaled(
        scaled(
            normalized(difference(p1, p2)),
            repulsion_force(dist_sq(p1, p2), cfg),
            1_000_000,
        ),
        dt as int,
        1_000_000,
    )
}

/// The velocity of body `i` once it has been paired with every body whose
/// index is below `n`. Of a pair, the body with the lower index receives the
/// push and the other one its opposite.
pub open spec fn repelled_velocity(
    units: Seq<Unit>,
    i: int,
    n: int,
    cfg: SimConfig,
    dt: u32,
) -> Vec2
    decreases n,
{
    if n <= 0 {
        units[i].body.curr_velocity
    } else {
        let so_far = repelled_velocity(units, i, n - 1, cfg, dt);
        let j = n - 1;
        if j == i {
            so_far
        } else if i < j {
            sum(so_far, repulsion(units[i].translation, units[j].translation, cfg, dt))
        } else {
            difference(so_far, repulsion(units[j].translation, units[i].translation, cfg, dt))
        }
    }
}

/// The unit with another velocity.
pub open spec fn with_velocity(u: Unit, velocity: Vec2) -> Unit {
    Unit { body: MovingBody { curr_velocity: velocity, ..u.body }, ..u }
}

/// The push on a body at `p1` away from one at `p2`.
pub fn push_apart(p1: Vec2, p2: Vec2, cfg: &SimConfig, dt: u32) -> (push: Vec2)
    ensures
        push == repulsion(p1, p2, *cfg, dt),
{
    let d2: u128 = p1.distance_squared(p2);
    let radius: u128 = cfg.collision_radius as u128;
    proof {
        lemma_product_bound(radius as int, radius as int, 0xFFFF_FFFF, 0xFFFF_FFFF);
    }
    let force: i64 = if d2 < radius * radius {
        let numerator: u128 = cfg.force_constant as u128 * 1_000_000;
        let denominator: u128 = d2 + SEPARATION_EPSILON as u128;
        let quotient: u128 = numerator / denominator;
        assert(quotient <= numerator) by (nonlinear_arith)
            requires
                quotient == numerator / denominator,
                denominator >= 1,
        ;
        quotient as i64
    } else {
        0
    };
    p1.minus(p2).normalize_or_zero().scale(force, 1_000_000).scale(dt as i64, 1_000_000)
}

/// Pushes apart every pair of bodies that are closer than the collision
/// radius. Positions do not change, only velocities.
pub fn repel_bodies(units: &mut Vec<Unit>, cfg: &SimConfig, dt: u32)
    ensures
        final(units)@.len() == old(units)@.len(),
        forall|i: int|
            0 <= i < old(units)@.len() ==> final(units)@[i] == with_velocity(
                old(units)@[i],
                repelled_velocity(old(units)@, i, old(units)@.len() as int, *cfg, dt),
            ),
{
    let n: usize = units.len();
    let ghost before = units@;
    let mut a: usize = 0;
    while a < n
        invariant
            a <= n,
            units@.len() == n,
            before.len() == n,
            forall|k: int|
                0 <= k < a ==> units@[k] == with_velocity(
                    before[k],
                    repelled_velocity(before, k, n as int, *cfg, dt),
                ),
            forall|k: int|
                a <= k < n ==> units@[k] == with_velocity(
                    before[k],
                    repelled_velocity(before, k, a as int, *cfg, dt),
                ),
        decreases n - a,
    {
        let mut b: usize = a + 1;
        proof {
            assert(repelled_velocity(before, a as int, a + 1, *cfg, dt) == repelled_velocity(
                before,
                a as int,
                a as int,
                *cfg,
                dt,
            ));
        }
        while b < n
            invariant
                a < b <= n,
                units@.len() == n,
                before.len() == n,
                forall|k: int|
                    0 <= k < a ==> units@[k] == with_velocity(
                        before[k],
                        repelled_velocity(before, k, n as int, *cfg, dt),
                    ),
                units@[a as int] == with_velocity(
                    before[a as int],
                    repelled_velocity(before, a as int, b as int, *cfg, dt),
                ),
                forall|k: int|
                    a < k < b ==> units@[k] == with_velocity(
                        before[k],
                        repelled_velocity(before, k, a + 1, *cfg, dt),
                    ),
                forall|k: int|
                    b <= k < n ==> units@[k] == with_velocity(
                        before[k],
                        repelled_velocity(before, k, a as int, *cfg, dt),
                    ),
            decreases n - b,
        {
            let first: Unit = units[a];
            let second: Unit = units[b];
            let push: Vec2 = push_apart(first.translation, second.translation, cfg, dt);
            units.set(
                a,
                Unit {
                    body: MovingBody {
                        curr_velocity: first.body.curr_velocity.plus(push),
                        ..first.body
                    },
                    ..first
                },
            );
            units.set(
                b,
                Unit {
                    body: MovingBody {
                        curr_velocity: second.body.curr_velocity.minus(push),
                        ..second.body
                    },
                    ..second
                },
            );
            b += 1;
        }
        a += 1;
    }
}

/// The speed limit: after a step of the velocity, whatever the target and
/// the length of the tick, the body is no faster than its `max_speed`.
pub proof fn lemma_speed_limit(body: MovingBody, target: TargetPoint, dt: u32)
    ensures
        accelerated_body(body, target, dt).curr_velocity.norm_sq() <= body.max_speed
            * body.max_speed,
{
    lemma_clamped_length(
        sum(body.curr_velocity, tick_acceleration(body, target, dt)),
        body.max_speed as int,
    );
}

/// The acceleration limit: with a target, the change of velocity that a body
/// asks for in one tick is no longer than `max_acceleration * dt`.
pub proof fn lemma_acceleration_limit(body: MovingBody, p: Vec2, dt: u32)
    ensures
        tick_acceleration(body, TargetPoint(Some(p)), dt).norm_sq() <= ((dt * body.max_acceleration)
            / 1_000_000) * ((dt * body.max_acceleration) / 1_000_000),
{
    let cap = (dt * body.max_acceleration) / 1_000_000;
    assert(dt * body.max_acceleration >= 0) by (nonlinear_arith);
    lemma_clamped_length(scaled(normalized(p), body.max_acceleration as int, 1_000_000), cap);
}

/// Braking: a body without a target loses speed in every tick until it
/// rests, and no component of its velocity changes sign on the way. Unless a
/// component is the least value of its type, one tick brings the body to
/// rest.
pub proof fn lemma_braking(body: MovingBody, dt: u32)
    ensures
        ({
            let before = body.curr_velocity;
            let after = accelerated_body(body, TargetPoint(None), dt).curr_velocity;
            &&& before == zero() ==> after == zero()
            &&& before != zero() ==> after.norm_sq() < before.norm_sq()
            &&& before.x >= 0 ==> 0 <= after.x <= before.x
            &&& before.x <= 0 ==> before.x <= after.x <= 0
            &&& before.y >= 0 ==> 0 <= after.y <= before.y
            &&& before.y <= 0 ==> before.y <= after.y <= 0
            &&& before.x > i32::MIN && before.y > i32::MIN ==> after == zero()
        }),
{
    let before = body.curr_velocity;
    let rest = sum(before, negated(before));
    lemma_clamped_length(rest, body.max_speed as int);
    lemma_norm_sq_positive(before);
    lemma_norm_sq_positive(rest);
    lemma_norm_sq_positive(clamped_length(rest, body.max_speed as int));
    lemma_square_bound(rest.x as int, 1);
    lemma_square_bound(rest.y as int, 1);
    if before.x == i32::MIN {
        assert(before.x * before.x > 2) by (nonlinear_arith)
            requires
                before.x == -0x8000_0000,
        ;
        assert(before.y * before.y >= 0) by (nonlinear_arith);
    }
    if before.y == i32::MIN {
        assert(before.y * before.y > 2) by (nonlinear_arith)
            requires
                before.y == -0x8000_0000,
        ;
        assert(before.x * before.x >= 0) by (nonlinear_arith);
    }
}

/// Separation does nothing beyond the collision radius: two bodies at or
/// beyond it do not push each other.
pub proof fn lemma_no_push_beyond_radius(p1: Vec2, p2: Vec2, cfg: SimConfig, dt: u32)
    requires
        dist_sq(p1, p2) >= cfg.collision_radius * cfg.collision_radius,
    ensures
        repulsion(p1, p2, cfg, dt) == zero(),
{
    let direction = normalized(difference(p1, p2));
    assert(direction.x * 0 == 0 && direction.y * 0 == 0);
    assert(scaled(direction, 0, 1_000_000) == zero());
    assert(0 * dt == 0) by (nonlinear_arith);
}

/// Separation does nothing beyond the collision radius: a body that is at
/// or beyond it from every other body among the first `n` keeps its
/// velocity.
pub proof fn lemma_separation_keeps_far_bodies(
    units: Seq<Unit>,
    i: int,
    n: int,
    cfg: SimConfig,
    dt: u32,
)
    requires
        0 <= i < units.len(),
        0 <= n <= units.len(),
        forall|j: int|
            0 <= j < n && j != i ==> dist_sq(units[i].translation, units[j].translation)
                >= cfg.collision_radius * cfg.collision_radius,
    ensures
        repelled_velocity(units, i, n, cfg, dt) == units[i].body.curr_velocity,
    decreases n,
{
    if n > 0 {
        lemma_separation_keeps_far_bodies(units, i, n - 1, cfg, dt);
        let j = n - 1;
        if j != i {
            let a = units[i].translation;
            let b = units[j].translation;
            assert(dist_sq(a, b) == dist_sq(b, a)) by (nonlinear_arith)
                requires
                    dist_sq(a, b) == (a.x - b.x) * (a.x - b.x) + (a.y - b.y) * (a.y - b.y),
                    dist_sq(b, a) == (b.x - a.x) * (b.x - a.x) + (b.y - a.y) * (b.y - a.y),
            ;
            lemma_no_push_beyond_radius(a, b, cfg, dt);
            lemma_no_push_beyond_radius(b, a, cfg, dt);
        }
    }
}

} // verus!
