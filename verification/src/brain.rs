//! Choosing a target and steering toward it.

use vstd::prelude::*;
use crate::config::SimConfig;
use crate::fixed::{
    clamp_i32, floor_sqrt, isqrt, lemma_floor_sqrt_bounds, lemma_trunc_div_within, saturate_i32,
    trunc_div,
};
use crate::motion::TargetPoint;
use crate::unit::{Unit, UnitType};
use crate::vector::{dist, dist_sq, lemma_product_bound, lemma_square_root_below, Vec2};

verus! {

/// The nearest of the first `n` candidates, by squared distance. Of several
/// at the same distance the first one wins.
pub open spec fn nearest(pos: Vec2, candidates: Seq<Vec2>, n: int) -> Option<int>
    decreases n,
{
    if n <= 0 {
        None
    } else {
        match nearest(pos, candidates, n - 1) {
            None => Some(n - 1),
            Some(best) => if dist_sq(candidates[n - 1], pos) < dist_sq(candidates[best], pos) {
                Some(n - 1)
            } else {
                Some(best)
            },
        }
    }
}

/// The speed of a body in millionths, rounded down, and one millionth for
/// a body at rest, so that the speed can always be divided by.
pub open spec fn steering_speed(velocity: Vec2) -> int {
    let speed = floor_sqrt(velocity.norm_sq() * 1_000_000);
    if speed > 0 {
        speed
    } else {
        1
    }
}

/// How far one coordinate of the aim is moved against the hunter's own
/// velocity: `stability * (-velocity) * way / speed`, which is the velocity
/// turned around, times the time that the way takes at the current speed,
/// damped by `stability`. The quotient is taken once, at the end. For a body
/// at rest the lead is zero.
pub open spec fn lead(velocity: int, way: int, speed: int, stability: int) -> int {
    trunc_div(-velocity * way * stability, speed)
}

/// Where to steer, relative to `pos`, to meet a target at `target` without
/// circling it: `target + lead - pos`, where the lead is taken over the
/// distance to the target.
pub open spec fn steering_offset(pos: Vec2, velocity: Vec2, target: Vec2, stability: u32) -> Vec2 {
    let way = dist(pos, target);
    let speed = steering_speed(velocity);
    let lead_x = lead(velocity.x as int, way, speed, stability as int);
    let lead_y = lead(velocity.y as int, way, speed, stability as int);
    Vec2 {
        x: clamp_i32(target.x + lead_x - pos.x) as i32,
        y: clamp_i32(target.y + lead_y - pos.y) as i32,
    }
}

/// What a hunter at `pos` decides: no target without candidates, else the
/// steering offset toward the nearest one.
pub open spec fn brain_target(
    pos: Vec2,
    velocity: Vec2,
    candidates: Seq<Vec2>,
    stability: u32,
) -> TargetPoint {
    match nearest(pos, candidates, candidates.len() as int) {
        None => TargetPoint(None),
        Some(best) => TargetPoint(
            Some(steering_offset(pos, velocity, candidates[best], stability)),
        ),
    }
}

/// The unit with the target its brain decides on, if it is of the kind that
/// thinks; else unchanged.
pub open spec fn decided(u: Unit, kind: UnitType, candidates: Seq<Vec2>, cfg: SimConfig) -> Unit {
    if u.kind == kind {
        Unit {
            target: brain_target(
                u.translation,
                u.body.curr_velocity,
                candidates,
                cfg.stability_constant,
            ),
            ..u
        }
    } else {
        u
    }
}

/// `nearest` finds a candidate whenever there is one; none is nearer than
/// it, and every earlier one is farther.
pub proof fn lemma_nearest(pos: Vec2, candidates: Seq<Vec2>, n: int)
    requires
        0 <= n <= candidates.len(),
    ensures
        n == 0 <==> nearest(pos, candidates, n).is_none(),
        match nearest(pos, candidates, n) {
            Some(best) => {
                &&& 0 <= best < n
                &&& forall|j: int|
                    0 <= j < n ==> dist_sq(candidates[best], pos) <= dist_sq(candidates[j], pos)
                &&& forall|j: int|
                    0 <= j < best ==> dist_sq(candidates[best], pos) < dist_sq(candidates[j], pos)
            },
            None => true,
        },
    decreases n,
{
    if n > 0 {
        lemma_nearest(pos, candidates, n - 1);
    }
}

/// The index of the candidate nearest to `pos`; the first of several equally
/// near; `None` if there is no candidate.
pub fn find_nearest(pos: Vec2, candidates: &Vec<Vec2>) -> (r: Option<usize>)
    ensures
        match r {
            Some(best) => {
                &&& nearest(pos, candidates@, candidates@.len() as int) == Some(best as int)
                &&& best < candidates@.len()
                &&& forall|j: int|
                    0 <= j < candidates@.len() ==> dist_sq(candidates@[best as int], pos)
                        <= dist_sq(candidates@[j], pos)
                &&& forall|j: int|
                    0 <= j < best ==> dist_sq(candidates@[best as int], pos) < dist_sq(
                        candidates@[j],
                        pos,
                    )
            },
            None => candidates@.len() == 0 && nearest(pos, candidates@, 0).is_none(),
        },
{
    let n: usize = candidates.len();
    let mut best: Option<usize> = None;
    let mut min_dist: u128 = 0;
    let mut i: usize = 0;
    while i < n
        invariant
            i <= n,
            n == candidates@.len(),
            match best {
                Some(b) => nearest(pos, candidates@, i as int) == Some(b as int) && b < i
                    && min_dist == dist_sq(candidates@[b as int], pos),
                None => nearest(pos, candidates@, i as int).is_none(),
            },
        decreases n - i,
    {
        let d: u128 = candidates[i].distance_squared(pos);
        match best {
            None => {
                min_dist = d;
                best = Some(i);
            },
            Some(_) => {
                if d < min_dist {
                    min_dist = d;
                    best = Some(i);
                }
            },
        }
        i += 1;
    }
    proof {
        lemma_nearest(pos, candidates@, n as int);
    }
    best
}

/// Computes the steering offset toward `target`.
pub fn steer(pos: Vec2, velocity: Vec2, target: Vec2, stability: u32) -> (offset: Vec2)
    ensures
        offset == steering_offset(pos, velocity, target, stability),
{
    let way: u64 = pos.distance(target);
    let square: u128 = velocity.length_squared() * 1_000_000;
    let root: u64 = isqrt(square);
    proof {
        lemma_floor_sqrt_bounds(square as int);
        lemma_square_root_below(root as int, square + 1, 0x400_0000_0000);
    }
    let speed: u64 = if root > 0 {
        root
    } else {
        1
    };
    let lead_x: i128 = lead_of(velocity.x, way, speed, stability);
    let lead_y: i128 = lead_of(velocity.y, way, speed, stability);
    Vec2 {
        x: saturate_i32(target.x as i128 + lead_x - pos.x as i128),
        y: saturate_i32(target.y as i128 + lead_y - pos.y as i128),
    }
}

/// One coordinate of the lead; its magnitude stays below `2^96`.
fn lead_of(velocity: i32, way: u64, speed: u64, stability: u32) -> (r: i128)
    requires
        way < 0x2_0000_0000u64,
        speed > 0,
    ensures
        r == lead(velocity as int, way as int, speed as int, stability as int),
        -0x1_0000_0000_0000_0000_0000_0000 <= r <= 0x1_0000_0000_0000_0000_0000_0000,
{
    let against: i128 = -(velocity as i128);
    proof {
        lemma_product_bound(against as int, way as int, 0x8000_0000, 0x2_0000_0000);
        lemma_product_bound(
            against * way,
            stability as int,
            0x1_0000_0000_0000_0000,
            0xFFFF_FFFF,
        );
    }
    let product: i128 = against * (way as i128) * (stability as i128);
    let quotient: i128 = product / (speed as i128);
    proof {
        lemma_trunc_div_within(product as int, speed as int);
    }
    quotient
}

/// Gives every unit of the given kind the target its brain decides on among
/// the candidates.
pub fn think(units: &mut Vec<Unit>, kind: UnitType, candidates: &Vec<Vec2>, cfg: &SimConfig)
    ensures
        final(units)@.len() == old(units)@.len(),
        forall|i: int|
            0 <= i < old(units)@.len() ==> final(units)@[i] == decided(
                old(units)@[i],
                kind,
                candidates@,
                *cfg,
            ),
{
    let n: usize = units.len();
    let ghost before = units@;
    let mut i: usize = 0;
    while i < n
        invariant
            i <= n,
            units@.len() == n,
            before.len() == n,
            forall|j: int| 0 <= j < i ==> units@[j] == decided(before[j], kind, candidates@, *cfg),
            forall|j: int| i <= j < n ==> units@[j] == before[j],
        decreases n - i,
    {
        let u: Unit = units[i];
        if u.kind == kind {
            let target: TargetPoint = match find_nearest(u.translation, candidates) {
                None => TargetPoint(None),
                Some(best) => TargetPoint(
                    Some(
                        steer(
                            u.translation,
                            u.body.curr_velocity,
                            candidates[best],
                            cfg.stability_constant,
                        ),
                    ),
                ),
            };
            units.set(i, Unit { target, ..u });
        }
        i += 1;
    }
}

} // verus!
