//! Fullness, its drain by movement, and death by starvation.

use vstd::prelude::*;
use crate::fixed::{clamp_u32, saturate_u32};
use crate::unit::{lemma_names_concat, names, CorpseData, DeathEvent, Entity, Unit};
use crate::vector::{dist, lemma_product_bound, Vec2};

verus! {

/// How full a unit is, and how movement empties it.
#[derive(Clone, Copy, PartialEq, Eq, Debug)]
pub struct Hunger {
    pub curr_fullness: u32,
    pub max_fullness: u32,
    /// Fullness lost per unit of distance.
    pub drain_per_unit_traveled: u32,
    /// Where the unit was when the drain was last charged.
    pub last_sampled_pos: Vec2,
}

impl Hunger {
    /// Fullness never exceeds its maximum.
    pub open spec fn wf(self) -> bool {
        self.curr_fullness <= self.max_fullness
    }

    /// A full stomach, with the drain charged from `pos` on.
    pub fn full(max_fullness: u32, drain_per_unit_traveled: u32, pos: Vec2) -> (h: Hunger)
        ensures
            h == (Hunger {
                curr_fullness: max_fullness,
                max_fullness,
                drain_per_unit_traveled,
                last_sampled_pos: pos,
            }),
            h.wf(),
    {
        Hunger {
            curr_fullness: max_fullness,
            max_fullness,
            drain_per_unit_traveled,
            last_sampled_pos: pos,
        }
    }

    /// Charges the way from the last sampled position to `pos`.
    pub fn drain(self, pos: Vec2) -> (h: Hunger)
        ensures
            h == drained(self, pos),
            h.curr_fullness <= self.curr_fullness,
            self.wf() ==> h.wf(),
    {
        let way: u64 = self.last_sampled_pos.distance(pos);
        proof {
            lemma_product_bound(
                way as int,
                self.drain_per_unit_traveled as int,
                0x2_0000_0000,
                0xFFFF_FFFF,
            );
        }
        let cost: i128 = (way as i128 * self.drain_per_unit_traveled as i128) / 1000;
        Hunger {
            curr_fullness: saturate_u32(self.curr_fullness as i128 - cost),
            last_sampled_pos: pos,
            ..self
        }
    }

    /// Whether the unit has starved.
    pub fn is_starved(&self) -> (r: bool)
        ensures
            r == starved(*self),
    {
        self.curr_fullness == 0
    }
}

/// What moving from the last sampled position to `pos` costs: the distance
/// times the drain rate.
pub open spec fn drain_cost(h: Hunger, pos: Vec2) -> int {
    (dist(h.last_sampled_pos, pos) * h.drain_per_unit_traveled) / 1000
}

/// The hunger after the way to `pos` is charged. Fullness stops at zero.
pub open spec fn drained(h: Hunger, pos: Vec2) -> Hunger {
    Hunger {
        curr_fullness: clamp_u32(h.curr_fullness - drain_cost(h, pos)) as u32,
        last_sampled_pos: pos,
        ..h
    }
}

/// A unit starves when its fullness reaches zero.
pub open spec fn starved(h: Hunger) -> bool {
    h.curr_fullness == 0
}

/// The unit with the way it went since the last tick charged.
pub open spec fn hungrier(u: Unit) -> Unit {
    Unit { hunger: drained(u.hunger, u.translation), ..u }
}

/// The death of a starved unit: it leaves a corpse where it stood.
pub open spec fn starvation_event(u: Unit) -> DeathEvent {
    DeathEvent {
        entity: u.entity,
        corpse: Some(CorpseData { unit: u.kind, translation: u.translation, rotation: u.rotation }),
    }
}

/// The deaths by starvation among the first `n` units, in their order.
pub open spec fn starvation_events(units: Seq<Unit>, n: int) -> Seq<DeathEvent>
    decreases n,
{
    if n <= 0 {
        Seq::empty()
    } else if starved(units[n - 1].hunger) {
        starvation_events(units, n - 1).push(starvation_event(units[n - 1]))
    } else {
        starvation_events(units, n - 1)
    }
}

/// Charges every unit for the way it went since the last tick.
pub fn hunger_drain(units: &mut Vec<Unit>)
    ensures
        final(units)@.len() == old(units)@.len(),
        forall|i: int| 0 <= i < old(units)@.len() ==> final(units)@[i] == hungrier(old(units)@[i]),
{
    let n: usize = units.len();
    let ghost before = units@;
    let mut i: usize = 0;
    while i < n
        invariant
            i <= n,
            units@.len() == n,
            before.len() == n,
            forall|j: int| 0 <= j < i ==> units@[j] == hungrier(before[j]),
            forall|j: int| i <= j < n ==> units@[j] == before[j],
        decreases n - i,
    {
        let u: Unit = units[i];
        units.set(i, Unit { hunger: u.hunger.drain(u.translation), ..u });
        i += 1;
    }
}

/// Queues the death of every starved unit, each with its corpse.
pub fn kill_starved_units(units: &Vec<Unit>, events: &mut Vec<DeathEvent>)
    ensures
        final(events)@ == old(events)@ + starvation_events(units@, units@.len() as int),
{
    let n: usize = units.len();
    let ghost before = events@;
    let mut i: usize = 0;
    while i < n
        invariant
            i <= n,
            n == units@.len(),
            events@ == before + starvation_events(units@, i as int),
        decreases n - i,
    {
        let u: Unit = units[i];
        if u.hunger.is_starved() {
            events.push(
                DeathEvent {
                    entity: u.entity,
                    corpse: Some(
                        CorpseData {
                            unit: u.kind,
                            translation: u.translation,
                            rotation: u.rotation,
                        },
                    ),
                },
            );
        }
        i += 1;
    }
}

/// The death events of starvation name the starved units and no others.
pub proof fn lemma_starvation_names(units: Seq<Unit>, n: int, entity: Entity)
    requires
        0 <= n <= units.len(),
    ensures
        names(starvation_events(units, n), entity) <==> exists|i: int|
            0 <= i < n && starved((#[trigger] units[i]).hunger) && units[i].entity == entity,
    decreases n,
{
    if n > 0 {
        lemma_starvation_names(units, n - 1, entity);
        let earlier = starvation_events(units, n - 1);
        let events = starvation_events(units, n);
        if starved(units[n - 1].hunger) {
            assert(events == earlier + seq![starvation_event(units[n - 1])]);
            lemma_names_concat(earlier, seq![starvation_event(units[n - 1])], entity);
            let last = seq![starvation_event(units[n - 1])];
            assert(names(last, entity) <==> units[n - 1].entity == entity) by {
                if units[n - 1].entity == entity {
                    assert(last[0].entity == entity);
                }
            }
        }
        if exists|i: int|
            0 <= i < n && starved((#[trigger] units[i]).hunger) && units[i].entity == entity {
            let i = choose|i: int|
                0 <= i < n && starved((#[trigger] units[i]).hunger) && units[i].entity == entity;
            if i < n - 1 {
                assert(names(earlier, entity));
            }
        }
    }
}

/// Every death event of starvation carries a corpse.
pub proof fn lemma_starvation_carries_corpse(units: Seq<Unit>, n: int)
    requires
        0 <= n <= units.len(),
    ensures
        forall|i: int|
            0 <= i < starvation_events(units, n).len() ==> (#[trigger] starvation_events(
                units,
                n,
            )[i]).corpse.is_some(),
    decreases n,
{
    if n > 0 {
        lemma_starvation_carries_corpse(units, n - 1);
    }
}

} // verus!
