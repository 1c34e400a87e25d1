//! Who eats what: mouth boxes, the first eater of a piece of food, and the
//! fullness that eating brings.

use vstd::prelude::*;
use crate::bounding::{box_around, overlaps, Aabb2d};
use crate::config::SimConfig;
use crate::hunger::Hunger;
use crate::unit::{Unit, UnitType};
use crate::vector::{scaled, sum, Vec2};

verus! {

/// The mouth of a unit: a box whose centre lies `mouth_offset` ahead of the
/// unit's centre, in the direction it faces.
pub open spec fn mouth_box(u: Unit, cfg: SimConfig) -> Aabb2d {
    box_around(
        sum(u.translation, scaled(u.rotation.0, cfg.mouth_offset(u.kind) as int, 1_000_000)),
        cfg.mouth_half_width(u.kind) as int,
        cfg.mouth_half_height(u.kind) as int,
    )
}

/// Whether `u` is an eater of the given kind whose mouth reaches the food.
pub open spec fn bites(u: Unit, kind: UnitType, food: Aabb2d, cfg: SimConfig) -> bool {
    u.kind == kind && overlaps(food, mouth_box(u, cfg))
}

/// The first of the first `n` units that bites the food, if any does.
pub open spec fn first_eater(
    units: Seq<Unit>,
    n: int,
    kind: UnitType,
    food: Aabb2d,
    cfg: SimConfig,
) -> Option<int>
    decreases n,
{
    if n <= 0 {
        None
    } else {
        match first_eater(units, n - 1, kind, food, cfg) {
            Some(i) => Some(i),
            None => if bites(units[n - 1], kind, food, cfg) {
                Some(n - 1)
            } else {
                None
            },
        }
    }
}

/// The unit that gets a piece of food: the first eater among all the units.
/// What is no food (`None`) goes to nobody.
pub open spec fn claimed_by(units: Seq<Unit>, kind: UnitType, food: Option<Aabb2d>, cfg: SimConfig)
    -> Option<int> {
    match food {
        Some(b) => first_eater(units, units.len() as int, kind, b, cfg),
        None => None,
    }
}

/// How many of the first `m` pieces of food go to unit `i`.
pub open spec fn meals(
    units: Seq<Unit>,
    kind: UnitType,
    foods: Seq<Option<Aabb2d>>,
    m: int,
    i: int,
    cfg: SimConfig,
) -> nat
    decreases m,
{
    if m <= 0 {
        0
    } else {
        let before = meals(units, kind, foods, m - 1, i, cfg);
        if claimed_by(units, kind, foods[m - 1], cfg) == Some(i) {
            before + 1
        } else {
            before
        }
    }
}

/// The fullness after `count` meals of `gain` each: every meal adds `gain`,
/// and the sum is capped at `max_fullness`.
pub open spec fn fullness_after(h: Hunger, count: nat, gain: u32) -> u32 {
    if count == 0 {
        h.curr_fullness
    } else if h.curr_fullness + count * gain > h.max_fullness {
        h.max_fullness
    } else {
        (h.curr_fullness + count * gain) as u32
    }
}

/// The unit after `count` meals of `gain` each.
pub open spec fn fed(u: Unit, count: nat, gain: u32) -> Unit {
    Unit {
        hunger: Hunger { curr_fullness: fullness_after(u.hunger, count, gain), ..u.hunger },
        ..u
    }
}

/// `first_eater` names the lowest index that bites, and `None` only if no
/// unit bites.
pub proof fn lemma_first_eater(
    units: Seq<Unit>,
    n: int,
    kind: UnitType,
    food: Aabb2d,
    cfg: SimConfig,
)
    requires
        0 <= n <= units.len(),
    ensures
        match first_eater(units, n, kind, food, cfg) {
            Some(i) => 0 <= i < n && bites(units[i], kind, food, cfg) && forall|j: int|
                0 <= j < i ==> !bites(units[j], kind, food, cfg),
            None => forall|j: int| 0 <= j < n ==> !bites(units[j], kind, food, cfg),
        },
    decreases n,
{
    if n > 0 {
        lemma_first_eater(units, n - 1, kind, food, cfg);
    }
}

/// An eater found among the first `m` units is the eater among any more.
pub proof fn lemma_first_eater_stays(
    units: Seq<Unit>,
    m: int,
    n: int,
    kind: UnitType,
    food: Aabb2d,
    cfg: SimConfig,
)
    requires
        0 <= m <= n,
        first_eater(units, m, kind, food, cfg).is_some(),
    ensures
        first_eater(units, n, kind, food, cfg) == first_eater(units, m, kind, food, cfg),
    decreases n - m,
{
    if m < n {
        lemma_first_eater_stays(units, m, n - 1, kind, food, cfg);
    }
}

/// The first eater depends only on kind, place and facing of the units.
pub proof fn lemma_first_eater_same(
    a: Seq<Unit>,
    b: Seq<Unit>,
    n: int,
    kind: UnitType,
    food: Aabb2d,
    cfg: SimConfig,
)
    requires
        0 <= n <= a.len(),
        a.len() == b.len(),
        forall|k: int|
            0 <= k < a.len() ==> a[k].kind == b[k].kind && a[k].translation == b[k].translation
                && a[k].rotation == b[k].rotation,
    ensures
        first_eater(a, n, kind, food, cfg) == first_eater(b, n, kind, food, cfg),
    decreases n,
{
    if n > 0 {
        lemma_first_eater_same(a, b, n - 1, kind, food, cfg);
    }
}

/// One more meal adds `gain` to the fullness and caps it.
pub proof fn lemma_one_more_meal(h: Hunger, count: nat, gain: u32)
    ensures
        fullness_after(h, count + 1, gain) == if fullness_after(h, count, gain) + gain
            > h.max_fullness {
            h.max_fullness
        } else {
            (fullness_after(h, count, gain) + gain) as u32
        },
{
    assert((count + 1) * gain == count * gain + gain) by (nonlinear_arith);
    assert(count * gain >= 0) by (nonlinear_arith);
    assert(count == 0 ==> count * gain == 0) by (nonlinear_arith);
}

impl Unit {
    /// The mouth box of this unit.
    pub fn mouth(&self, cfg: &SimConfig) -> (b: Aabb2d)
        ensures
            b == mouth_box(*self, *cfg),
    {
        let ahead: Vec2 = self.rotation.0.scale(cfg.mouth_offset(self.kind) as i64, 1_000_000);
        Aabb2d::new(
            self.translation.plus(ahead),
            cfg.mouth_half_width(self.kind),
            cfg.mouth_half_height(self.kind),
        )
    }

    /// This unit after one meal of `gain`: its fullness is raised by `gain`
    /// and capped at `max_fullness`.
    pub fn eat(self, gain: u32) -> (u: Unit)
        ensures
            u == fed(self, 1, gain),
            u.hunger.wf(),
    {
        let raised: u64 = self.hunger.curr_fullness as u64 + gain as u64;
        let fullness: u32 = if raised > self.hunger.max_fullness as u64 {
            self.hunger.max_fullness
        } else {
            raised as u32
        };
        assert(1 * gain == gain) by (nonlinear_arith);
        Unit { hunger: Hunger { curr_fullness: fullness, ..self.hunger }, ..self }
    }
}

/// Finds the unit that gets the food: the first unit of the given kind whose
/// mouth overlaps it.
pub fn find_eater(units: &Vec<Unit>, kind: UnitType, food: &Aabb2d, cfg: &SimConfig) -> (r: Option<
    usize,
>)
    ensures
        match r {
            Some(i) => claimed_by(units@, kind, Some(*food), *cfg) == Some(i as int) && i
                < units@.len() && bites(units@[i as int], kind, *food, *cfg) && forall|j: int|
                0 <= j < i ==> !bites(units@[j], kind, *food, *cfg),
            None => claimed_by(units@, kind, Some(*food), *cfg).is_none() && forall|j: int|
                0 <= j < units@.len() ==> !bites(units@[j], kind, *food, *cfg),
        },
{
    let n: usize = units.len();
    let mut i: usize = 0;
    while i < n
        invariant
            i <= n,
            n == units@.len(),
            first_eater(units@, i as int, kind, *food, *cfg).is_none(),
        decreases n - i,
    {
        let u: Unit = units[i];
        if u.kind == kind && food.intersects(&u.mouth(cfg)) {
            proof {
                lemma_first_eater_stays(units@, i + 1, n as int, kind, *food, *cfg);
                lemma_first_eater(units@, n as int, kind, *food, *cfg);
            }
            return Some(i);
        }
        i += 1;
    }
    proof {
        lemma_first_eater(units@, n as int, kind, *food, *cfg);
    }
    None
}

/// Offers each piece of food, in order, to the eaters of the given kind. A
/// piece goes to the first eater whose mouth overlaps it, and to no other;
/// that eater gains `gain`, capped at its `max_fullness`. The result says of
/// each piece whether it was eaten.
pub fn resolve_meals(
    units: &mut Vec<Unit>,
    kind: UnitType,
    foods: &Vec<Option<Aabb2d>>,
    gain: u32,
    cfg: &SimConfig,
) -> (eaten: Vec<bool>)
    ensures
        final(units)@.len() == old(units)@.len(),
        forall|i: int|
            0 <= i < old(units)@.len() ==> final(units)@[i] == fed(
                old(units)@[i],
                meals(old(units)@, kind, foods@, foods@.len() as int, i, *cfg),
                gain,
            ),
        eaten@.len() == foods@.len(),
        forall|j: int|
            0 <= j < foods@.len() ==> eaten@[j] == claimed_by(
                old(units)@,
                kind,
                foods@[j],
                *cfg,
            ).is_some(),
{
    let ghost before = units@;
    let n: usize = units.len();
    let m: usize = foods.len();
    let mut eaten: Vec<bool> = Vec::new();
    let mut j: usize = 0;
    while j < m
        invariant
            j <= m,
            m == foods@.len(),
            units@.len() == n,
            before.len() == n,
            eaten@.len() == j,
            forall|i: int|
                0 <= i < n ==> units@[i] == fed(
                    before[i],
                    meals(before, kind, foods@, j as int, i, *cfg),
                    gain,
                ),
            forall|k: int|
                0 <= k < j ==> eaten@[k] == claimed_by(before, kind, foods@[k], *cfg).is_some(),
        decreases m - j,
    {
        let mut taken: bool = false;
        match foods[j] {
            Some(food) => {
                proof {
                    lemma_first_eater_same(units@, before, n as int, kind, food, *cfg);
                }
                match find_eater(units, kind, &food, cfg) {
                    Some(e) => {
                        let eater: Unit = units[e];
                        proof {
                            lemma_one_more_meal(
                                before[e as int].hunger,
                                meals(before, kind, foods@, j as int, e as int, *cfg),
                                gain,
                            );
                            lemma_one_more_meal(eater.hunger, 0, gain);
                        }
                        units.set(e, eater.eat(gain));
                        taken = true;
                    },
                    None => {},
                }
            },
            None => {},
        }
        eaten.push(taken);
        j += 1;
    }
    eaten
}

} // verus!
