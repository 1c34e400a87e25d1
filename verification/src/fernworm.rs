//! Fernworms: prey that looks for berries and eats them.

use vstd::prelude::*;
use crate::berry::{berry_box, Berry, GameData};
use crate::bounding::Aabb2d;
use crate::brain::{decided, think};
use crate::config::SimConfig;
use crate::interaction::{claimed_by, fed, meals, resolve_meals};
use crate::unit::{Unit, UnitType};
use crate::vector::Vec2;

verus! {

/// Where the berries lie, in their order.
pub open spec fn berry_positions(berries: Seq<Berry>) -> Seq<Vec2> {
    berries.map_values(|b: Berry| b.translation)
}

/// The boxes that the berries offer to mouths, in their order.
pub open spec fn berry_boxes(berries: Seq<Berry>, cfg: SimConfig) -> Seq<Option<Aabb2d>> {
    berries.map_values(|b: Berry| Some(berry_box(b, cfg)))
}

/// Whether some fernworm gets the berry.
pub open spec fn berry_eaten(b: Berry, units: Seq<Unit>, cfg: SimConfig) -> bool {
    claimed_by(units, UnitType::Fernworm, Some(berry_box(b, cfg)), cfg).is_some()
}

/// Those of the first `n` berries that no fernworm gets, in their order.
pub open spec fn uneaten(berries: Seq<Berry>, n: int, units: Seq<Unit>, cfg: SimConfig) -> Seq<
    Berry,
>
    decreases n,
{
    if n <= 0 {
        Seq::empty()
    } else if berry_eaten(berries[n - 1], units, cfg) {
        uneaten(berries, n - 1, units, cfg)
    } else {
        uneaten(berries, n - 1, units, cfg).push(berries[n - 1])
    }
}

/// No more berries are left than there were, and nobody gets any of those
/// that are left.
pub proof fn lemma_uneaten(berries: Seq<Berry>, n: int, units: Seq<Unit>, cfg: SimConfig)
    requires
        0 <= n <= berries.len(),
    ensures
        uneaten(berries, n, units, cfg).len() <= n,
        forall|k: int|
            0 <= k < uneaten(berries, n, units, cfg).len() ==> !berry_eaten(
                #[trigger] uneaten(berries, n, units, cfg)[k],
                units,
                cfg,
            ),
    decreases n,
{
    if n > 0 {
        lemma_uneaten(berries, n - 1, units, cfg);
    }
}

/// Each fernworm aims for the berry nearest to it, or for nothing if there
/// is no berry.
pub fn use_brain(units: &mut Vec<Unit>, berries: &Vec<Berry>, cfg: &SimConfig)
    ensures
        final(units)@.len() == old(units)@.len(),
        forall|i: int|
            0 <= i < old(units)@.len() ==> final(units)@[i] == decided(
                old(units)@[i],
                UnitType::Fernworm,
                berry_positions(berries@),
                *cfg,
            ),
{
    let m: usize = berries.len();
    let mut candidates: Vec<Vec2> = Vec::new();
    let mut j: usize = 0;
    while j < m
        invariant
            j <= m,
            m == berries@.len(),
            candidates@.len() == j,
            forall|k: int| 0 <= k < j ==> candidates@[k] == berries@[k].translation,
        decreases m - j,
    {
        candidates.push(berries[j].translation);
        j += 1;
    }
    assert(candidates@ =~= berry_positions(berries@));
    think(units, UnitType::Fernworm, &candidates, cfg);
}

/// Lets the fernworms eat. Each berry, in order, goes to the first fernworm
/// whose mouth overlaps it and to no other; the berry is removed, the count
/// of berries drops by one, and the fernworm gains `berry_fullness_gain`,
/// capped at its `max_fullness`. The count must not be below the number of
/// berries there are.
pub fn eat_berries(
    game_data: &mut GameData,
    berries: &mut Vec<Berry>,
    units: &mut Vec<Unit>,
    cfg: &SimConfig,
)
    requires
        old(game_data).num_berries >= old(berries)@.len(),
    ensures
        final(units)@.len() == old(units)@.len(),
        forall|i: int|
            0 <= i < old(units)@.len() ==> final(units)@[i] == fed(
                old(units)@[i],
                meals(
                    old(units)@,
                    UnitType::Fernworm,
                    berry_boxes(old(berries)@, *cfg),
                    old(berries)@.len() as int,
                    i,
                    *cfg,
                ),
                cfg.berry_fullness_gain,
            ),
        final(berries)@ == uneaten(old(berries)@, old(berries)@.len() as int, old(units)@, *cfg),
        final(berries)@.len() <= old(berries)@.len(),
        forall|k: int|
            0 <= k < final(berries)@.len() ==> !berry_eaten(
                #[trigger] final(berries)@[k],
                old(units)@,
                *cfg,
            ),
        final(game_data).num_berries == old(game_data).num_berries - (old(berries)@.len()
            - final(berries)@.len()),
        final(game_data).max_berries == old(game_data).max_berries,
{
    let ghost old_units = units@;
    let ghost old_berries = berries@;
    let m: usize = berries.len();
    let mut foods: Vec<Option<Aabb2d>> = Vec::new();
    let mut j: usize = 0;
    while j < m
        invariant
            j <= m,
            m == berries@.len(),
            berries@ == old_berries,
            foods@.len() == j,
            forall|k: int| 0 <= k < j ==> foods@[k] == Some(berry_box(berries@[k], *cfg)),
        decreases m - j,
    {
        foods.push(Some(berries[j].bounds(cfg)));
        j += 1;
    }
    assert(foods@ =~= berry_boxes(old_berries, *cfg));
    let eaten: Vec<bool> = resolve_meals(
        units,
        UnitType::Fernworm,
        &foods,
        cfg.berry_fullness_gain,
        cfg,
    );
    let mut kept: Vec<Berry> = Vec::new();
    let mut removed: u64 = 0;
    j = 0;
    while j < m
        invariant
            j <= m,
            m == berries@.len(),
            berries@ == old_berries,
            eaten@.len() == m,
            foods@ == berry_boxes(old_berries, *cfg),
            forall|k: int|
                0 <= k < m ==> eaten@[k] == claimed_by(
                    old_units,
                    UnitType::Fernworm,
                    foods@[k],
                    *cfg,
                ).is_some(),
            kept@ == uneaten(old_berries, j as int, old_units, *cfg),
            kept@.len() + removed == j,
        decreases m - j,
    {
        if eaten[j] {
            removed += 1;
        } else {
            kept.push(berries[j]);
        }
        j += 1;
    }
    proof {
        lemma_uneaten(old_berries, m as int, old_units, *cfg);
    }
    *berries = kept;
    game_data.num_berries = game_data.num_berries - removed;
}

} // verus!
