//! Units, their handles, and the events that remove them.

use vstd::prelude::*;
use crate::config::SimConfig;
use crate::hunger::Hunger;
use crate::motion::{MovingBody, Rotation, TargetPoint};
use crate::vector::Vec2;

verus! {

/// The kind of an animate unit.
#[derive(Clone, Copy, PartialEq, Eq, Debug, Hash, Structural)]
pub enum UnitType {
    /// Prey: forages for berries.
    Fernworm,
    /// Predator: hunts fernworms.
    Zyrthid,
}

/// The handle of a unit. A session hands out each handle once.
#[derive(Clone, Copy, PartialEq, Eq, Debug, Hash, Structural)]
pub struct Entity(pub u64);

/// One animate unit with all that is attached to it.
#[derive(Clone, Copy, PartialEq, Eq, Debug)]
pub struct Unit {
    pub entity: Entity,
    pub kind: UnitType,
    /// Where the unit is.
    pub translation: Vec2,
    pub rotation: Rotation,
    pub body: MovingBody,
    pub hunger: Hunger,
    pub target: TargetPoint,
}

/// What a dead unit leaves behind.
#[derive(Clone, Copy, PartialEq, Eq, Debug)]
pub struct CorpseData {
    pub unit: UnitType,
    pub translation: Vec2,
    pub rotation: Rotation,
}

/// The request to remove a unit, and the corpse to put in its place if any.
#[derive(Clone, Copy, PartialEq, Eq, Debug)]
pub struct DeathEvent {
    pub entity: Entity,
    pub corpse: Option<CorpseData>,
}

/// Whether some unit has the handle.
pub open spec fn has_entity(units: Seq<Unit>, entity: Entity) -> bool {
    exists|i: int| 0 <= i < units.len() && (#[trigger] units[i]).entity == entity
}

/// Whether some event asks for the death of the unit with the handle.
pub open spec fn names(events: Seq<DeathEvent>, entity: Entity) -> bool {
    exists|k: int| 0 <= k < events.len() && (#[trigger] events[k]).entity == entity
}

/// The handles rise along the sequence, so no two units share one.
pub open spec fn ascending(units: Seq<Unit>) -> bool {
    forall|i: int, j: int| 0 <= i < j < units.len() ==> units[i].entity.0 < units[j].entity.0
}

/// The index of the first of the first `n` units that has the handle.
pub open spec fn index_of(units: Seq<Unit>, n: int, entity: Entity) -> Option<int>
    decreases n,
{
    if n <= 0 {
        None
    } else {
        match index_of(units, n - 1, entity) {
            Some(i) => Some(i),
            None => if units[n - 1].entity == entity {
                Some(n - 1)
            } else {
                None
            },
        }
    }
}

/// The living and the dead.
pub struct Population {
    pub units: Seq<Unit>,
    pub corpses: Seq<CorpseData>,
}

/// The units without the one that has the handle. If no unit has it, which
/// is so when an earlier event removed the unit, nothing changes.
pub open spec fn without(units: Seq<Unit>, entity: Entity) -> Seq<Unit> {
    match index_of(units, units.len() as int, entity) {
        Some(i) => units.remove(i),
        None => units,
    }
}

/// Whether an event before event `k` carries a corpse for the same unit.
pub open spec fn corpse_laid_before(events: Seq<DeathEvent>, k: int) -> bool {
    exists|j: int|
        0 <= j < k && (#[trigger] events[j]).entity == events[k].entity
            && events[j].corpse.is_some()
}

/// Whether event `k` lays its corpse: it carries one, and none was laid for
/// the same unit before. Whether the unit is still there does not matter, so
/// a unit that was eaten and has starved in one tick leaves the corpse of its
/// starvation, and no unit leaves two corpses.
pub open spec fn lays_corpse(events: Seq<DeathEvent>, k: int) -> bool {
    events[k].corpse.is_some() && !corpse_laid_before(events, k)
}

/// The population after event `k` of the queue is applied: the unit that it
/// names is removed if it is there, and its corpse is added if it lays one.
pub open spec fn after_death(p: Population, events: Seq<DeathEvent>, k: int) -> Population {
    Population {
        units: without(p.units, events[k].entity),
        corpses: if lays_corpse(events, k) {
            p.corpses.push(events[k].corpse.unwrap())
        } else {
            p.corpses
        },
    }
}

/// The population after the first `n` events are applied in their order.
pub open spec fn after_deaths(p: Population, events: Seq<DeathEvent>, n: int) -> Population
    decreases n,
{
    if n <= 0 {
        p
    } else {
        after_death(after_deaths(p, events, n - 1), events, n - 1)
    }
}

/// One corpse for each unit: every event that carries a corpse has it laid
/// by itself or finds one laid for the same unit before, and of two events
/// for one unit at most one lays a corpse.
pub proof fn lemma_one_corpse_per_unit(events: Seq<DeathEvent>, k: int)
    requires
        0 <= k < events.len(),
    ensures
        events[k].corpse.is_some() ==> exists|j: int|
            0 <= j <= k && (#[trigger] events[j]).entity == events[k].entity && lays_corpse(
                events,
                j,
            ),
        forall|j: int|
            0 <= j < k && (#[trigger] events[j]).entity == events[k].entity ==> !(lays_corpse(
                events,
                j,
            ) && lays_corpse(events, k)),
    decreases k,
{
    if events[k].corpse.is_some() {
        if corpse_laid_before(events, k) {
            let i = choose|i: int|
                0 <= i < k && (#[trigger] events[i]).entity == events[k].entity
                    && events[i].corpse.is_some();
            lemma_one_corpse_per_unit(events, i);
            let j = choose|j: int|
                0 <= j <= i && (#[trigger] events[j]).entity == events[i].entity && lays_corpse(
                    events,
                    j,
                );
            assert(events[j].entity == events[k].entity && lays_corpse(events, j));
        } else {
            assert(events[k].entity == events[k].entity && lays_corpse(events, k));
        }
    }
}

/// The events of two queues put together name what either queue names.
pub proof fn lemma_names_concat(a: Seq<DeathEvent>, b: Seq<DeathEvent>, entity: Entity)
    ensures
        names(a + b, entity) <==> names(a, entity) || names(b, entity),
{
    let both = a + b;
    if names(a, entity) {
        let k = choose|k: int| 0 <= k < a.len() && (#[trigger] a[k]).entity == entity;
        assert(both[k].entity == entity);
    }
    if names(b, entity) {
        let k = choose|k: int| 0 <= k < b.len() && (#[trigger] b[k]).entity == entity;
        assert(both[a.len() + k].entity == entity);
    }
    if names(both, entity) {
        let k = choose|k: int| 0 <= k < both.len() && (#[trigger] both[k]).entity == entity;
        if k < a.len() {
            assert(a[k].entity == entity);
        } else {
            assert(b[k - a.len()].entity == entity);
        }
    }
}

/// `index_of` names the lowest index with the handle, and `None` only if no
/// unit has it.
pub proof fn lemma_index_of(units: Seq<Unit>, n: int, entity: Entity)
    requires
        0 <= n <= units.len(),
    ensures
        match index_of(units, n, entity) {
            Some(i) => 0 <= i < n && units[i].entity == entity && forall|j: int|
                0 <= j < i ==> units[j].entity != entity,
            None => forall|j: int| 0 <= j < n ==> units[j].entity != entity,
        },
    decreases n,
{
    if n > 0 {
        lemma_index_of(units, n - 1, entity);
    }
}

/// A handle found among the first `m` units is found among any more.
pub proof fn lemma_index_of_stays(units: Seq<Unit>, m: int, n: int, entity: Entity)
    requires
        0 <= m <= n,
        index_of(units, m, entity).is_some(),
    ensures
        index_of(units, n, entity) == index_of(units, m, entity),
    decreases n - m,
{
    if m < n {
        lemma_index_of_stays(units, m, n - 1, entity);
    }
}

/// Removing by handle removes the unit with that handle and no other, and
/// keeps the order.
pub proof fn lemma_without(units: Seq<Unit>, entity: Entity)
    requires
        ascending(units),
    ensures
        ascending(without(units, entity)),
        without(units, entity).len() <= units.len(),
        !has_entity(without(units, entity), entity),
        forall|e: Entity|
            e != entity ==> (#[trigger] has_entity(without(units, entity), e)
                <==> has_entity(units, e)),
        forall|i: int|
            0 <= i < without(units, entity).len() ==> units.contains(
                #[trigger] without(units, entity)[i],
            ),
{
    let n = units.len() as int;
    let left = without(units, entity);
    lemma_index_of(units, n, entity);
    match index_of(units, n, entity) {
        Some(at) => {
            assert(left == units.remove(at));
            assert(left.len() == n - 1);
            assert forall|i: int| 0 <= i < left.len() implies units.contains(
                #[trigger] left[i],
            ) by {
                if i < at {
                    assert(units[i] == left[i]);
                } else {
                    assert(units[i + 1] == left[i]);
                }
            }
            assert forall|e: Entity| e != entity implies (#[trigger] has_entity(left, e)
                <==> has_entity(units, e)) by {
                if has_entity(units, e) {
                    let i = choose|i: int|
                        0 <= i < units.len() && (#[trigger] units[i]).entity == e;
                    if i < at {
                        assert(left[i].entity == e);
                    } else {
                        assert(left[i - 1].entity == e);
                    }
                }
                if has_entity(left, e) {
                    let i = choose|i: int|
                        0 <= i < left.len() && (#[trigger] left[i]).entity == e;
                    if i < at {
                        assert(units[i].entity == e);
                    } else {
                        assert(units[i + 1].entity == e);
                    }
                }
            }
            if has_entity(left, entity) {
                let i = choose|i: int|
                    0 <= i < left.len() && (#[trigger] left[i]).entity == entity;
                if i < at {
                    assert(units[i].entity.0 < units[at].entity.0);
                } else {
                    assert(units[at].entity.0 < units[i + 1].entity.0);
                }
            }
            assert forall|i: int, j: int| 0 <= i < j < left.len() implies left[i].entity.0
                < left[j].entity.0 by {
                let a = if i < at { i } else { i + 1 };
                let b = if j < at { j } else { j + 1 };
                assert(units[a].entity.0 < units[b].entity.0);
            }
        },
        None => {
            assert(left == units);
            assert forall|i: int| 0 <= i < left.len() implies units.contains(
                #[trigger] left[i],
            ) by {
                assert(units[i] == left[i]);
            }
        },
    }
}

/// After the events are applied, the units left are those of before that no
/// event names, in their order.
pub proof fn lemma_after_deaths(p: Population, events: Seq<DeathEvent>, n: int)
    requires
        ascending(p.units),
        0 <= n <= events.len(),
    ensures
        ascending(after_deaths(p, events, n).units),
        after_deaths(p, events, n).units.len() <= p.units.len(),
        forall|e: Entity|
            #[trigger] has_entity(after_deaths(p, events, n).units, e) <==> (has_entity(p.units, e)
                && !names(events.subrange(0, n), e)),
        forall|i: int|
            0 <= i < after_deaths(p, events, n).units.len() ==> p.units.contains(
                #[trigger] after_deaths(p, events, n).units[i],
            ),
    decreases n,
{
    if n > 0 {
        lemma_after_deaths(p, events, n - 1);
        let mid = after_deaths(p, events, n - 1);
        let event = events[n - 1];
        lemma_without(mid.units, event.entity);
        let last = after_death(mid, events, n - 1);
        let shorter = events.subrange(0, n - 1);
        let longer = events.subrange(0, n);
        assert forall|e: Entity| #[trigger]
            has_entity(last.units, e) <==> (has_entity(p.units, e) && !names(longer, e)) by {
            assert(has_entity(mid.units, e) <==> (has_entity(p.units, e) && !names(shorter, e)));
            if names(longer, e) {
                let k = choose|k: int| 0 <= k < longer.len() && (#[trigger] longer[k]).entity == e;
                if k < n - 1 {
                    assert(shorter[k].entity == e);
                    assert(names(shorter, e));
                } else {
                    assert(e == event.entity);
                }
            }
            if names(shorter, e) {
                let k = choose|k: int|
                    0 <= k < shorter.len() && (#[trigger] shorter[k]).entity == e;
                assert(longer[k].entity == e);
                assert(names(longer, e));
            }
            if e == event.entity {
                assert(longer[n - 1].entity == e);
                assert(names(longer, e));
            }
            assert(names(longer, e) <==> (names(shorter, e) || e == event.entity));
        }
        assert forall|i: int| 0 <= i < last.units.len() implies p.units.contains(
            #[trigger] last.units[i],
        ) by {
            assert(mid.units.contains(last.units[i]));
        }
    } else {
        assert forall|e: Entity| !names(events.subrange(0, 0), e) by {}
    }
}

impl Unit {
    /// A new unit of the given kind at `pos`: at rest, facing up, full, and
    /// with no target. Its limits are those that the configuration gives its
    /// kind.
    pub fn spawn(entity: Entity, kind: UnitType, pos: Vec2, cfg: &SimConfig) -> (u: Unit)
        ensures
            u == spawned(entity, kind, pos, *cfg),
            u.hunger.wf(),
    {
        match kind {
            UnitType::Fernworm => Unit {
                entity,
                kind,
                translation: pos,
                rotation: Rotation(Vec2 { x: 0, y: 1_000_000 }),
                body: MovingBody::new(cfg.fernworm_max_speed, cfg.fernworm_max_acceleration),
                hunger: Hunger::full(
                    cfg.fernworm_max_fullness,
                    cfg.fernworm_drain_per_unit_traveled,
                    pos,
                ),
                target: TargetPoint(None),
            },
            UnitType::Zyrthid => Unit {
                entity,
                kind,
                translation: pos,
                rotation: Rotation(Vec2 { x: 0, y: 1_000_000 }),
                body: MovingBody::new(cfg.zyrthid_max_speed, cfg.zyrthid_max_acceleration),
                hunger: Hunger::full(
                    cfg.zyrthid_max_fullness,
                    cfg.zyrthid_drain_per_unit_traveled,
                    pos,
                ),
                target: TargetPoint(None),
            },
        }
    }
}

/// The unit that `Unit::spawn` makes.
pub open spec fn spawned(entity: Entity, kind: UnitType, pos: Vec2, cfg: SimConfig) -> Unit {
    Unit {
        entity,
        kind,
        translation: pos,
        rotation: Rotation(Vec2 { x: 0, y: 1_000_000 }),
        body: MovingBody {
            curr_velocity: Vec2 { x: 0, y: 0 },
            max_speed: match kind {
                UnitType::Fernworm => cfg.fernworm_max_speed,
                UnitType::Zyrthid => cfg.zyrthid_max_speed,
            },
            curr_acceleration: Vec2 { x: 0, y: 0 },
            max_acceleration: match kind {
                UnitType::Fernworm => cfg.fernworm_max_acceleration,
                UnitType::Zyrthid => cfg.zyrthid_max_acceleration,
            },
        },
        hunger: Hunger {
            curr_fullness: match kind {
                UnitType::Fernworm => cfg.fernworm_max_fullness,
                UnitType::Zyrthid => cfg.zyrthid_max_fullness,
            },
            max_fullness: match kind {
                UnitType::Fernworm => cfg.fernworm_max_fullness,
                UnitType::Zyrthid => cfg.zyrthid_max_fullness,
            },
            drain_per_unit_traveled: match kind {
                UnitType::Fernworm => cfg.fernworm_drain_per_unit_traveled,
                UnitType::Zyrthid => cfg.zyrthid_drain_per_unit_traveled,
            },
            last_sampled_pos: pos,
        },
        target: TargetPoint(None),
    }
}

/// Finds the unit with the handle.
pub fn find_unit(units: &Vec<Unit>, entity: Entity) -> (r: Option<usize>)
    ensures
        match r {
            Some(i) => index_of(units@, units@.len() as int, entity) == Some(i as int) && i
                < units@.len() && units@[i as int].entity == entity,
            None => index_of(units@, units@.len() as int, entity).is_none() && !has_entity(
                units@,
                entity,
            ),
        },
{
    let n: usize = units.len();
    let mut i: usize = 0;
    while i < n
        invariant
            i <= n,
            n == units@.len(),
            index_of(units@, i as int, entity).is_none(),
        decreases n - i,
    {
        if units[i].entity.0 == entity.0 {
            proof {
                lemma_index_of_stays(units@, i + 1, n as int, entity);
            }
            return Some(i);
        }
        i += 1;
    }
    proof {
        lemma_index_of(units@, n as int, entity);
    }
    None
}

/// Whether an event before event `k` carries a corpse for the same unit.
pub fn laid_before(events: &Vec<DeathEvent>, k: usize) -> (r: bool)
    requires
        k < events@.len(),
    ensures
        r == corpse_laid_before(events@, k as int),
{
    let entity: Entity = events[k].entity;
    let mut j: usize = 0;
    while j < k
        invariant
            j <= k,
            k < events@.len(),
            entity == events@[k as int].entity,
            forall|i: int|
                0 <= i < j ==> !((#[trigger] events@[i]).entity == entity
                    && events@[i].corpse.is_some()),
        decreases k - j,
    {
        let earlier: DeathEvent = events[j];
        if earlier.entity.0 == entity.0 && earlier.corpse.is_some() {
            return true;
        }
        j += 1;
    }
    false
}

/// Applies the queued deaths, in their order, and empties the queue. A unit
/// that an event names is removed; an event that names a unit which is no
/// longer there removes nothing, so no unit dies twice. The corpse that an
/// event carries is laid down whether or not the unit is still there, unless
/// a corpse was already laid for the same unit: each unit leaves at most one
/// corpse. If the handles of the units rise along the sequence, no named
/// unit is left and no other unit is missing.
pub fn kill_units(
    units: &mut Vec<Unit>,
    corpses: &mut Vec<CorpseData>,
    events: &mut Vec<DeathEvent>,
)
    ensures
        (Population { units: final(units)@, corpses: final(corpses)@ }) == after_deaths(
            Population { units: old(units)@, corpses: old(corpses)@ },
            old(events)@,
            old(events)@.len() as int,
        ),
        final(events)@.len() == 0,
        final(units)@.len() <= old(units)@.len(),
        ascending(old(units)@) ==> {
            &&& ascending(final(units)@)
            &&& forall|e: Entity|
                #[trigger] has_entity(final(units)@, e) <==> (has_entity(old(units)@, e) && !names(
                    old(events)@,
                    e,
                ))
            &&& forall|i: int|
                0 <= i < final(units)@.len() ==> old(units)@.contains(#[trigger] final(units)@[i])
        },
{
    let ghost start = Population { units: units@, corpses: corpses@ };
    let ghost queue = events@;
    let m: usize = events.len();
    let mut k: usize = 0;
    while k < m
        invariant
            k <= m,
            m == events@.len(),
            events@ == queue,
            (Population { units: units@, corpses: corpses@ }) == after_deaths(
                start,
                queue,
                k as int,
            ),
            units@.len() <= start.units.len(),
        decreases m - k,
    {
        let event: DeathEvent = events[k];
        match find_unit(units, event.entity) {
            Some(at) => {
                units.remove(at);
            },
            None => {},
        }
        match event.corpse {
            Some(c) => {
                if !laid_before(events, k) {
                    corpses.push(c);
                }
            },
            None => {},
        }
        k += 1;
    }
    proof {
        if ascending(start.units) {
            lemma_after_deaths(start, queue, m as int);
            assert(queue.subrange(0, m as int) =~= queue);
        }
    }
    events.clear();
}

} // verus!
