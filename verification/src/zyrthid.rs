//! Zyrthids: predators that chase fernworms and eat them.

use vstd::prelude::*;
use crate::bounding::{box_around, Aabb2d};
use crate::brain::{decided, think};
use crate::config::SimConfig;
use crate::interaction::{claimed_by, fed, meals, resolve_meals};
use crate::unit::{lemma_names_concat, names, CorpseData, DeathEvent, Entity, Unit, UnitType};
use crate::vector::Vec2;

verus! {

/// Where the units of one kind among the first `n` are, in their order.
pub open spec fn positions_of(units: Seq<Unit>, n: int, kind: UnitType) -> Seq<Vec2>
    decreases n,
{
    if n <= 0 {
        Seq::empty()
    } else if units[n - 1].kind == kind {
        positions_of(units, n - 1, kind).push(units[n - 1].translation)
    } else {
        positions_of(units, n - 1, kind)
    }
}

/// The box that a unit offers to the mouths of zyrthids: a square of half
/// the fernworm's width to each side, if the unit is a fernworm, else none.
pub open spec fn prey_box(u: Unit, cfg: SimConfig) -> Option<Aabb2d> {
    if u.kind == UnitType::Fernworm {
        Some(
            box_around(
                u.translation,
                (cfg.fernworm_render_width / 2) as int,
                (cfg.fernworm_render_width / 2) as int,
            ),
        )
    } else {
        None
    }
}

/// The boxes that the units offer to the mouths of zyrthids, in their order.
pub open spec fn prey_boxes(units: Seq<Unit>, cfg: SimConfig) -> Seq<Option<Aabb2d>> {
    units.map_values(|u: Unit| prey_box(u, cfg))
}

/// Whether some zyrthid gets the unit.
pub open spec fn caught(u: Unit, units: Seq<Unit>, cfg: SimConfig) -> bool {
    claimed_by(units, UnitType::Zyrthid, prey_box(u, cfg), cfg).is_some()
}

/// The death of a unit that was eaten. Whether it leaves a corpse is a
/// matter of configuration.
pub open spec fn predation_event(u: Unit, cfg: SimConfig) -> DeathEvent {
    DeathEvent {
        entity: u.entity,
        corpse: if cfg.predation_leaves_corpse {
            Some(CorpseData { unit: u.kind, translation: u.translation, rotation: u.rotation })
        } else {
            None
        },
    }
}

/// The deaths among the first `n` units that a zyrthid causes, in the order
/// of the units.
pub open spec fn predation_events(units: Seq<Unit>, n: int, cfg: SimConfig) -> Seq<DeathEvent>
    decreases n,
{
    if n <= 0 {
        Seq::empty()
    } else if caught(units[n - 1], units, cfg) {
        predation_events(units, n - 1, cfg).push(predation_event(units[n - 1], cfg))
    } else {
        predation_events(units, n - 1, cfg)
    }
}

/// Each zyrthid aims for the fernworm nearest to it, or for nothing if there
/// is no fernworm.
pub fn use_brain(units: &mut Vec<Unit>, cfg: &SimConfig)
    ensures
        final(units)@.len() == old(units)@.len(),
        forall|i: int|
            0 <= i < old(units)@.len() ==> final(units)@[i] == decided(
                old(units)@[i],
                UnitType::Zyrthid,
                positions_of(old(units)@, old(units)@.len() as int, UnitType::Fernworm),
                *cfg,
            ),
{
    let n: usize = units.len();
    let mut candidates: Vec<Vec2> = Vec::new();
    let mut j: usize = 0;
    while j < n
        invariant
            j <= n,
            n == units@.len(),
            units@ == old(units)@,
            candidates@ == positions_of(units@, j as int, UnitType::Fernworm),
        decreases n - j,
    {
        let u: Unit = units[j];
        if u.kind == UnitType::Fernworm {
            candidates.push(u.translation);
        }
        j += 1;
    }
    think(units, UnitType::Zyrthid, &candidates, cfg);
}

/// Lets the zyrthids eat. Each fernworm, in order, goes to the first zyrthid
/// whose mouth overlaps it and to no other; the fernworm's death is queued,
/// and the zyrthid gains `fernworm_fullness_gain`, capped at its
/// `max_fullness`. The fernworm itself stays until the deaths are applied.
pub fn eat_fernworms(units: &mut Vec<Unit>, events: &mut Vec<DeathEvent>, cfg: &SimConfig)
    ensures
        final(units)@.len() == old(units)@.len(),
        forall|i: int|
            0 <= i < old(units)@.len() ==> final(units)@[i] == fed(
                old(units)@[i],
                meals(
                    old(units)@,
                    UnitType::Zyrthid,
                    prey_boxes(old(units)@, *cfg),
                    old(units)@.len() as int,
                    i,
                    *cfg,
                ),
                cfg.fernworm_fullness_gain,
            ),
        final(events)@ == old(events)@ + predation_events(
            old(units)@,
            old(units)@.len() as int,
            *cfg,
        ),
{
    let ghost old_units = units@;
    let ghost old_events = events@;
    let n: usize = units.len();
    let half: u32 = cfg.fernworm_render_width / 2;
    let mut foods: Vec<Option<Aabb2d>> = Vec::new();
    let mut j: usize = 0;
    while j < n
        invariant
            j <= n,
            n == units@.len(),
            units@ == old_units,
            half == cfg.fernworm_render_width / 2,
            foods@.len() == j,
            forall|k: int| 0 <= k < j ==> foods@[k] == prey_box(units@[k], *cfg),
        decreases n - j,
    {
        let u: Unit = units[j];
        if u.kind == UnitType::Fernworm {
            foods.push(Some(Aabb2d::new(u.translation, half, half)));
        } else {
            foods.push(None);
        }
        j += 1;
    }
    assert(foods@ =~= prey_boxes(old_units, *cfg));
    let eaten: Vec<bool> = resolve_meals(
        units,
        UnitType::Zyrthid,
        &foods,
        cfg.fernworm_fullness_gain,
        cfg,
    );
    j = 0;
    while j < n
        invariant
            j <= n,
            n == units@.len(),
            n == old_units.len(),
            eaten@.len() == n,
            foods@ == prey_boxes(old_units, *cfg),
            forall|k: int|
                0 <= k < n ==> eaten@[k] == claimed_by(
                    old_units,
                    UnitType::Zyrthid,
                    foods@[k],
                    *cfg,
                ).is_some(),
            forall|k: int|
                0 <= k < n ==> units@[k].entity == old_units[k].entity && units@[k].kind
                    == old_units[k].kind && units@[k].translation == old_units[k].translation
                    && units@[k].rotation == old_units[k].rotation,
            events@ == old_events + predation_events(old_units, j as int, *cfg),
        decreases n - j,
    {
        if eaten[j] {
            let u: Unit = units[j];
            let corpse: Option<CorpseData> = if cfg.predation_leaves_corpse {
                Some(CorpseData { unit: u.kind, translation: u.translation, rotation: u.rotation })
            } else {
                None
            };
            events.push(DeathEvent { entity: u.entity, corpse });
        }
        j += 1;
    }
}

/// The death events of predation name the units that were caught and no
/// others.
pub proof fn lemma_predation_names(units: Seq<Unit>, n: int, entity: Entity, cfg: SimConfig)
    requires
        0 <= n <= units.len(),
    ensures
        names(predation_events(units, n, cfg), entity) <==> exists|i: int|
            0 <= i < n && caught(#[trigger] units[i], units, cfg) && units[i].entity == entity,
    decreases n,
{
    if n > 0 {
        lemma_predation_names(units, n - 1, entity, cfg);
        let earlier = predation_events(units, n - 1, cfg);
        if caught(units[n - 1], units, cfg) {
            let last = seq![predation_event(units[n - 1], cfg)];
            assert(predation_events(units, n, cfg) == earlier + last);
            lemma_names_concat(earlier, last, entity);
            assert(names(last, entity) <==> units[n - 1].entity == entity) by {
                if units[n - 1].entity == entity {
                    assert(last[0].entity == entity);
                }
            }
        }
        if exists|i: int|
            0 <= i < n && caught(#[trigger] units[i], units, cfg) && units[i].entity == entity {
            let i = choose|i: int|
                0 <= i < n && caught(#[trigger] units[i], units, cfg) && units[i].entity == entity;
            if i < n - 1 {
                assert(names(earlier, entity));
            }
        }
    }
}

} // verus!
