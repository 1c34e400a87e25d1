//! The world of a session and the fixed order of one tick.

use vstd::prelude::*;
use crate::berry::{
    deficit, in_playable_area, random_position, spawn_berries, Berry, GameData,
};
use crate::bounding::Aabb2d;
use crate::brain::decided;
use crate::config::SimConfig;
use crate::fernworm::{berry_boxes, berry_positions, eat_berries, uneaten};
use crate::hunger::{
    hunger_drain, hungrier, kill_starved_units, lemma_starvation_carries_corpse,
    lemma_starvation_names, starvation_events, starved,
};
use crate::interaction::{fed, meals};
use crate::motion::{
    accelerated, apply_rotation, apply_velocity, lemma_separation_keeps_far_bodies, moved,
    repel_bodies, repelled_velocity, turned, update_velocity, with_velocity, Rotation,
};
use crate::state::{handle_input, AppState};
use crate::unit::{
    after_deaths, ascending, has_entity, kill_units, lays_corpse, lemma_after_deaths,
    lemma_names_concat, lemma_one_corpse_per_unit, names, spawned,
    CorpseData, DeathEvent, Entity, Population, Unit, UnitType,
};
use crate::vector::{dist_sq, Vec2};
use crate::zyrthid::{
    caught, eat_fernworms, lemma_predation_names, positions_of, predation_events, prey_boxes,
};

verus! {

/// All that a session owns.
pub struct World {
    /// The living units, in the order in which they were spawned.
    pub units: Vec<Unit>,
    pub berries: Vec<Berry>,
    pub corpses: Vec<CorpseData>,
    /// The deaths that wait to be applied; empty between two ticks.
    pub events: Vec<DeathEvent>,
    pub game_data: GameData,
    /// The handle that the next unit gets. Handles are never handed out twice.
    pub next_entity: u64,
}

/// A world as sequences of plain values.
pub struct WorldView {
    pub units: Seq<Unit>,
    pub berries: Seq<Berry>,
    pub corpses: Seq<CorpseData>,
    pub events: Seq<DeathEvent>,
    pub game_data: GameData,
    pub next_entity: u64,
}

impl View for World {
    type V = WorldView;

    open spec fn view(&self) -> WorldView {
        WorldView {
            units: self.units@,
            berries: self.berries@,
            corpses: self.corpses@,
            events: self.events@,
            game_data: self.game_data,
            next_entity: self.next_entity,
        }
    }
}

impl WorldView {
    /// The handles of the units rise and are below the next handle, the
    /// count of berries is the number of berries and not above the maximum,
    /// and no death waits.
    pub open spec fn wf(self) -> bool {
        &&& ascending(self.units)
        &&& forall|i: int| 0 <= i < self.units.len() ==> self.units[i].entity.0 < self.next_entity
        &&& self.game_data.num_berries == self.berries.len()
        &&& self.game_data.num_berries <= self.game_data.max_berries
        &&& self.events.len() == 0
    }
}

/// Every unit moved by its velocity.
pub open spec fn moved_all(units: Seq<Unit>, dt: u32) -> Seq<Unit> {
    units.map_values(|u: Unit| moved(u, dt))
}

/// Every unit turned to face the way it moves.
pub open spec fn turned_all(units: Seq<Unit>) -> Seq<Unit> {
    units.map_values(|u: Unit| turned(u))
}

/// Every unit charged for its way.
pub open spec fn hungrier_all(units: Seq<Unit>) -> Seq<Unit> {
    units.map_values(|u: Unit| hungrier(u))
}

/// Every unit of the given kind with the target it decides on.
pub open spec fn decided_all(
    units: Seq<Unit>,
    kind: UnitType,
    candidates: Seq<Vec2>,
    cfg: SimConfig,
) -> Seq<Unit> {
    units.map_values(|u: Unit| decided(u, kind, candidates, cfg))
}

/// Every unit with its velocity stepped.
pub open spec fn accelerated_all(units: Seq<Unit>, dt: u32) -> Seq<Unit> {
    units.map_values(|u: Unit| accelerated(u, dt))
}

/// Every unit after the meals that the food brings it.
pub open spec fn fed_all(
    units: Seq<Unit>,
    kind: UnitType,
    foods: Seq<Option<Aabb2d>>,
    gain: u32,
    cfg: SimConfig,
) -> Seq<Unit> {
    Seq::new(
        units.len(),
        |i: int| fed(units[i], meals(units, kind, foods, foods.len() as int, i, cfg), gain),
    )
}

/// Every unit pushed away from those that are too close.
pub open spec fn repelled_all(units: Seq<Unit>, cfg: SimConfig, dt: u32) -> Seq<Unit> {
    Seq::new(
        units.len(),
        |i: int| with_velocity(units[i], repelled_velocity(units, i, units.len() as int, cfg, dt)),
    )
}

/// The first part of a tick: every unit moves, turns, and pays for its way.
pub open spec fn begun(w: WorldView, dt: u32) -> WorldView {
    WorldView { units: hungrier_all(turned_all(moved_all(w.units, dt))), ..w }
}

/// The world with the berries `fresh` added and the count at the maximum.
pub open spec fn replenished(w: WorldView, fresh: Seq<Berry>) -> WorldView {
    WorldView {
        berries: w.berries + fresh,
        game_data: GameData { num_berries: w.game_data.max_berries, ..w.game_data },
        ..w
    }
}

/// The units once both kinds have chosen a target and every velocity is
/// stepped.
pub open spec fn steered(w: WorldView, cfg: SimConfig, dt: u32) -> Seq<Unit> {
    let foraging = decided_all(w.units, UnitType::Fernworm, berry_positions(w.berries), cfg);
    let hunting = decided_all(
        foraging,
        UnitType::Zyrthid,
        positions_of(foraging, foraging.len() as int, UnitType::Fernworm),
        cfg,
    );
    accelerated_all(hunting, dt)
}

/// The units of `steered` once the fernworms have eaten.
pub open spec fn grazed(w: WorldView, cfg: SimConfig, dt: u32) -> Seq<Unit> {
    fed_all(
        steered(w, cfg, dt),
        UnitType::Fernworm,
        berry_boxes(w.berries, cfg),
        cfg.berry_fullness_gain,
        cfg,
    )
}

/// The units of `grazed` once the zyrthids have eaten.
pub open spec fn preyed(w: WorldView, cfg: SimConfig, dt: u32) -> Seq<Unit> {
    let units = grazed(w, cfg, dt);
    fed_all(units, UnitType::Zyrthid, prey_boxes(units, cfg), cfg.fernworm_fullness_gain, cfg)
}

/// The deaths of a tick: first those by predation, then those by starvation.
pub open spec fn deaths(w: WorldView, cfg: SimConfig, dt: u32) -> Seq<DeathEvent> {
    let grazed_units = grazed(w, cfg, dt);
    let preyed_units = preyed(w, cfg, dt);
    w.events + predation_events(grazed_units, grazed_units.len() as int, cfg) + starvation_events(
        preyed_units,
        preyed_units.len() as int,
    )
}

/// The second part of a tick, after the berries are filled up: the brains of
/// the fernworms and of the zyrthids, the step of the velocities, the meals
/// of the fernworms and of the zyrthids, the deaths by starvation, the
/// separation, and last the deaths applied.
pub open spec fn resolved(w: WorldView, cfg: SimConfig, dt: u32) -> WorldView {
    let berries = uneaten(w.berries, w.berries.len() as int, steered(w, cfg, dt), cfg);
    let events = deaths(w, cfg, dt);
    let population = after_deaths(
        Population { units: repelled_all(preyed(w, cfg, dt), cfg, dt), corpses: w.corpses },
        events,
        events.len() as int,
    );
    WorldView {
        units: population.units,
        berries,
        corpses: population.corpses,
        events: Seq::empty(),
        game_data: GameData {
            num_berries: (w.game_data.num_berries - (w.berries.len() - berries.len())) as u64,
            ..w.game_data
        },
        next_entity: w.next_entity,
    }
}

impl World {
    /// Whether the world is well-formed.
    pub open spec fn wf(&self) -> bool {
        self@.wf()
    }

    /// A world with nothing in it.
    pub fn empty(max_berries: u64) -> (w: World)
        ensures
            w@ == vacant(max_berries),
            w.wf(),
    {
        let w = World {
            units: Vec::new(),
            berries: Vec::new(),
            corpses: Vec::new(),
            events: Vec::new(),
            game_data: GameData { num_berries: 0, max_berries },
            next_entity: 0,
        };
        assert(w@.units =~= Seq::empty());
        assert(w@.berries =~= Seq::empty());
        assert(w@.corpses =~= Seq::empty());
        assert(w@.events =~= Seq::empty());
        w
    }

    /// Whether the world is well-formed.
    pub fn is_valid(&self) -> (r: bool)
        ensures
            r == self.wf(),
    {
        if self.events.len() != 0 {
            return false;
        }
        if self.game_data.num_berries > self.game_data.max_berries {
            return false;
        }
        if self.berries.len() as u64 != self.game_data.num_berries {
            return false;
        }
        let n: usize = self.units.len();
        if n > 0 && self.units[n - 1].entity.0 >= self.next_entity {
            return false;
        }
        let mut i: usize = 1;
        while i < n
            invariant
                1 <= i,
                n == self.units@.len(),
                forall|a: int, b: int|
                    0 <= a < b < i && b < n ==> self.units@[a].entity.0 < self.units@[b].entity.0,
            decreases n - i,
        {
            if self.units[i - 1].entity.0 >= self.units[i].entity.0 {
                return false;
            }
            i += 1;
        }
        true
    }

    /// Spawns a unit of the given kind at `pos` and hands out its handle:
    /// the unit is at rest, faces up, is full and has no target. Nothing is
    /// spawned if the handles have run out.
    pub fn spawn_unit(&mut self, kind: UnitType, pos: Vec2, cfg: &SimConfig) -> (handle: Option<
        Entity,
    >)
        ensures
            match handle {
                Some(e) => {
                    &&& e == Entity(old(self)@.next_entity)
                    &&& old(self)@.next_entity < u64::MAX
                    &&& final(self)@ == with_unit(old(self)@, spawned(e, kind, pos, *cfg))
                },
                None => old(self)@.next_entity == u64::MAX && final(self)@ == old(self)@,
            },
            old(self).wf() ==> final(self).wf(),
    {
        if self.next_entity == u64::MAX {
            return None;
        }
        let e: Entity = Entity(self.next_entity);
        self.units.push(Unit::spawn(e, kind, pos, cfg));
        self.next_entity = self.next_entity + 1;
        Some(e)
    }

    /// The first part of a tick of `dt` microseconds: every unit moves by
    /// its velocity, turns to face its way, and pays for the way with
    /// fullness.
    pub fn begin_tick(&mut self, dt: u32)
        ensures
            final(self)@ == begun(old(self)@, dt),
            old(self).wf() ==> final(self).wf(),
    {
        let ghost start = self.units@;
        apply_velocity(&mut self.units, dt);
        assert(self.units@ =~= moved_all(start, dt));
        let ghost after_move = self.units@;
        apply_rotation(&mut self.units);
        assert(self.units@ =~= turned_all(after_move));
        let ghost after_turn = self.units@;
        hunger_drain(&mut self.units);
        assert(self.units@ =~= hungrier_all(after_turn));
    }

    /// Fills the berries up to the maximum, each new one at a random cell of
    /// the playable area.
    pub fn replenish(&mut self, cfg: &SimConfig)
        requires
            cfg.wf(),
        ensures
            exists|fresh: Seq<Berry>| #[trigger]
                arrivals(fresh, old(self)@, *cfg) && final(self)@ == replenished(old(self)@, fresh),
            old(self).wf() ==> final(self).wf(),
            final(self)@.game_data.num_berries == old(self)@.game_data.max_berries,
    {
        let ghost before = self.berries@;
        spawn_berries(&mut self.game_data, &mut self.berries, cfg);
        proof {
            let fresh = self.berries@.subrange(before.len() as int, self.berries@.len() as int);
            assert(self.berries@ =~= before + fresh);
            assert(arrivals(fresh, old(self)@, *cfg));
        }
    }

    /// The second part of a tick of `dt` microseconds, in this order: the
    /// fernworms choose their targets, the zyrthids choose theirs, every
    /// velocity is stepped, the fernworms eat, the zyrthids eat, the starved
    /// are marked, the bodies push each other apart, and the deaths are
    /// applied. The count of berries must not be below their number.
    pub fn resolve_tick(&mut self, cfg: &SimConfig, dt: u32)
        requires
            old(self)@.game_data.num_berries >= old(self)@.berries.len(),
        ensures
            final(self)@ == resolved(old(self)@, *cfg, dt),
            final(self)@.events.len() == 0,
            final(self)@.units.len() <= old(self)@.units.len(),
            final(self)@.berries.len() <= old(self)@.berries.len(),
            final(self)@.game_data.max_berries == old(self)@.game_data.max_berries,
            final(self)@.next_entity == old(self)@.next_entity,
            ascending(old(self)@.units) ==> ascending(final(self)@.units),
            ascending(old(self)@.units) ==> forall|i: int|
                0 <= i < final(self)@.units.len() ==> has_entity(
                    old(self)@.units,
                    (#[trigger] final(self)@.units[i]).entity,
                ),
            old(self)@.game_data.num_berries == old(self)@.berries.len() ==> final(self)@.game_data
                .num_berries == final(self)@.berries.len(),
    {
        let ghost w = self@;
        let ghost u0 = self.units@;
        crate::fernworm::use_brain(&mut self.units, &self.berries, cfg);
        let ghost u1 = self.units@;
        assert(u1 =~= decided_all(u0, UnitType::Fernworm, berry_positions(w.berries), *cfg));
        crate::zyrthid::use_brain(&mut self.units, cfg);
        let ghost u2 = self.units@;
        assert(u2 =~= decided_all(
            u1,
            UnitType::Zyrthid,
            positions_of(u1, u1.len() as int, UnitType::Fernworm),
            *cfg,
        ));
        update_velocity(&mut self.units, dt);
        let ghost u3 = self.units@;
        assert(u3 =~= accelerated_all(u2, dt));
        assert(u3 == steered(w, *cfg, dt));
        eat_berries(&mut self.game_data, &mut self.berries, &mut self.units, cfg);
        let ghost u4 = self.units@;
        assert(u4 =~= grazed(w, *cfg, dt));
        eat_fernworms(&mut self.units, &mut self.events, cfg);
        let ghost u5 = self.units@;
        assert(u5 =~= preyed(w, *cfg, dt));
        kill_starved_units(&self.units, &mut self.events);
        assert(self.events@ == deaths(w, *cfg, dt));
        repel_bodies(&mut self.units, cfg, dt);
        let ghost u6 = self.units@;
        assert(u6 =~= repelled_all(u5, *cfg, dt));
        proof {
            if ascending(u0) {
                assert(ascending(u1));
                assert(ascending(u2));
                assert(ascending(u3));
                assert(ascending(u4));
                assert(ascending(u5));
                assert(ascending(u6));
            }
        }
        kill_units(&mut self.units, &mut self.corpses, &mut self.events);
        assert(self.events@ =~= Seq::empty());
        proof {
            if ascending(u0) {
                assert forall|i: int| 0 <= i < self.units@.len() implies has_entity(
                    u0,
                    (#[trigger] self.units@[i]).entity,
                ) by {
                    assert(u6.contains(self.units@[i]));
                    let k = choose|k: int| 0 <= k < u6.len() && u6[k] == self.units@[i];
                    assert(u5[k].entity == u4[k].entity);
                    assert(u4[k].entity == u3[k].entity);
                    assert(u3[k].entity == u2[k].entity);
                    assert(u2[k].entity == u1[k].entity);
                    assert(u1[k].entity == u0[k].entity);
                    assert(u0[k].entity == self.units@[i].entity);
                }
            }
        }
    }

    /// One tick of `dt` microseconds: `begin_tick`, then `replenish`, then
    /// `resolve_tick`. Where the new berries lie is a matter of chance; all
    /// the rest follows from the world before and from those berries.
    pub fn tick(&mut self, cfg: &SimConfig, dt: u32)
        requires
            cfg.wf(),
            old(self).wf(),
        ensures
            final(self).wf(),
            exists|fresh: Seq<Berry>| #[trigger]
                arrivals(fresh, old(self)@, *cfg) && final(self)@ == resolved(
                    replenished(begun(old(self)@, dt), fresh),
                    *cfg,
                    dt,
                ),
    {
        self.begin_tick(dt);
        let ghost mid = self@;
        self.replenish(cfg);
        proof {
            let fresh = choose|fresh: Seq<Berry>| #[trigger]
                arrivals(fresh, mid, *cfg) && self@ == replenished(mid, fresh);
            assert(arrivals(fresh, old(self)@, *cfg));
        }
        self.resolve_tick(cfg, dt);
    }
}

/// Whether `fresh` can be what the spawner adds to the world `w`: as many
/// berries as are missing, each at a cell of the playable area.
pub open spec fn arrivals(fresh: Seq<Berry>, w: WorldView, cfg: SimConfig) -> bool {
    &&& fresh.len() == deficit(w.game_data)
    &&& forall|j: int| 0 <= j < fresh.len() ==> in_playable_area(fresh[j].translation, cfg)
}

/// The kind of a unit that a session starts with, by its place in the order
/// of spawning: the fernworms come first.
pub open spec fn initial_kind(i: int, cfg: SimConfig) -> UnitType {
    if i < cfg.num_fernworms {
        UnitType::Fernworm
    } else {
        UnitType::Zyrthid
    }
}

/// Whether `w` can be the world at the start of a session: the fernworms and
/// then the zyrthids, as many as configured, each freshly spawned at a cell
/// of the playable area with its place in the order as its handle; no
/// berries, no corpses, and the count of berries at zero.
pub open spec fn initial(w: WorldView, cfg: SimConfig) -> bool {
    &&& w.units.len() == cfg.num_fernworms + cfg.num_zyrthids
    &&& forall|i: int|
        0 <= i < w.units.len() ==> in_playable_area(w.units[i].translation, cfg) && w.units[i]
            == spawned(Entity(i as u64), initial_kind(i, cfg), w.units[i].translation, cfg)
    &&& w.berries.len() == 0
    &&& w.corpses.len() == 0
    &&& w.events.len() == 0
    &&& w.game_data == (GameData { num_berries: 0, max_berries: cfg.max_berries })
    &&& w.next_entity == cfg.num_fernworms + cfg.num_zyrthids
}

/// The world with one more unit, which takes the next handle.
pub open spec fn with_unit(w: WorldView, u: Unit) -> WorldView {
    WorldView { units: w.units.push(u), next_entity: (w.next_entity + 1) as u64, ..w }
}

/// The world with nothing in it.
pub open spec fn vacant(max_berries: u64) -> WorldView {
    WorldView {
        units: Seq::empty(),
        berries: Seq::empty(),
        corpses: Seq::empty(),
        events: Seq::empty(),
        game_data: GameData { num_berries: 0, max_berries },
        next_entity: 0,
    }
}

/// The world with everything removed, the count of berries at zero, and the
/// handles starting anew.
pub open spec fn cleared(w: WorldView) -> WorldView {
    WorldView {
        units: Seq::empty(),
        berries: Seq::empty(),
        corpses: Seq::empty(),
        events: Seq::empty(),
        game_data: GameData { num_berries: 0, ..w.game_data },
        next_entity: 0,
    }
}

/// Builds the world that a session starts with: the configured numbers of
/// fernworms and zyrthids at random cells of the playable area.
pub fn setup_game(cfg: &SimConfig) -> (w: World)
    requires
        cfg.wf(),
    ensures
        initial(w@, *cfg),
        w.wf(),
{
    let mut units: Vec<Unit> = Vec::new();
    let mut i: u32 = 0;
    while i < cfg.num_fernworms
        invariant
            cfg.wf(),
            i <= cfg.num_fernworms,
            units@.len() == i,
            forall|k: int|
                0 <= k < i ==> in_playable_area(units@[k].translation, *cfg) && units@[k]
                    == spawned(
                    Entity(k as u64),
                    UnitType::Fernworm,
                    units@[k].translation,
                    *cfg,
                ),
        decreases cfg.num_fernworms - i,
    {
        let pos: Vec2 = random_position(cfg);
        units.push(Unit::spawn(Entity(i as u64), UnitType::Fernworm, pos, cfg));
        i += 1;
    }
    let mut j: u32 = 0;
    while j < cfg.num_zyrthids
        invariant
            cfg.wf(),
            j <= cfg.num_zyrthids,
            units@.len() == cfg.num_fernworms + j,
            forall|k: int|
                0 <= k < units@.len() ==> in_playable_area(units@[k].translation, *cfg) && units@[k]
                    == spawned(
                    Entity(k as u64),
                    initial_kind(k, *cfg),
                    units@[k].translation,
                    *cfg,
                ),
        decreases cfg.num_zyrthids - j,
    {
        let pos: Vec2 = random_position(cfg);
        let id: u64 = cfg.num_fernworms as u64 + j as u64;
        units.push(Unit::spawn(Entity(id), UnitType::Zyrthid, pos, cfg));
        j += 1;
    }
    World {
        units,
        berries: Vec::new(),
        corpses: Vec::new(),
        events: Vec::new(),
        game_data: GameData { num_berries: 0, max_berries: cfg.max_berries },
        next_entity: cfg.num_fernworms as u64 + cfg.num_zyrthids as u64,
    }
}

/// Removes everything that the session owns.
pub fn cleanup_game(world: &mut World)
    ensures
        final(world)@ == cleared(old(world)@),
        final(world).wf(),
{
    world.units.clear();
    world.berries.clear();
    world.corpses.clear();
    world.events.clear();
    world.game_data.num_berries = 0;
    world.next_entity = 0;
    assert(world@.units =~= Seq::empty());
    assert(world@.berries =~= Seq::empty());
    assert(world@.corpses =~= Seq::empty());
    assert(world@.events =~= Seq::empty());
}

/// What an entity is, for whoever draws it.
#[derive(Clone, Copy, PartialEq, Eq, Debug, Hash, Structural)]
pub enum RenderKind {
    Fernworm,
    Zyrthid,
    Berry,
}

/// One line of the snapshot of a world.
#[derive(Clone, Copy, PartialEq, Eq, Debug)]
pub struct RenderItem {
    pub kind: RenderKind,
    pub translation: Vec2,
    pub rotation: Rotation,
    /// `false` for a corpse.
    pub alive: bool,
}

/// The kind under which a unit is drawn.
pub open spec fn render_kind(kind: UnitType) -> RenderKind {
    match kind {
        UnitType::Fernworm => RenderKind::Fernworm,
        UnitType::Zyrthid => RenderKind::Zyrthid,
    }
}

/// The line of a living unit.
pub open spec fn unit_item(u: Unit) -> RenderItem {
    RenderItem {
        kind: render_kind(u.kind),
        translation: u.translation,
        rotation: u.rotation,
        alive: true,
    }
}

/// The line of a berry; a berry faces up.
pub open spec fn berry_item(b: Berry) -> RenderItem {
    RenderItem {
        kind: RenderKind::Berry,
        translation: b.translation,
        rotation: Rotation(Vec2 { x: 0, y: 1_000_000 }),
        alive: true,
    }
}

/// The line of a corpse.
pub open spec fn corpse_item(c: CorpseData) -> RenderItem {
    RenderItem {
        kind: render_kind(c.unit),
        translation: c.translation,
        rotation: c.rotation,
        alive: false,
    }
}

/// The snapshot of a world: its units, then its berries, then its corpses.
pub open spec fn snapshot_of(w: WorldView) -> Seq<RenderItem> {
    w.units.map_values(|u: Unit| unit_item(u)) + w.berries.map_values(|b: Berry| berry_item(b))
        + w.corpses.map_values(|c: CorpseData| corpse_item(c))
}

fn kind_for_render(kind: UnitType) -> (r: RenderKind)
    ensures
        r == render_kind(kind),
{
    match kind {
        UnitType::Fernworm => RenderKind::Fernworm,
        UnitType::Zyrthid => RenderKind::Zyrthid,
    }
}

impl World {
    /// What there is to draw: every unit, every berry and every corpse, with
    /// kind, place, facing, and whether it lives.
    pub fn snapshot(&self) -> (items: Vec<RenderItem>)
        ensures
            items@ == snapshot_of(self@),
    {
        let mut items: Vec<RenderItem> = Vec::new();
        let n: usize = self.units.len();
        let mut i: usize = 0;
        while i < n
            invariant
                i <= n,
                n == self.units@.len(),
                items@ == self.units@.subrange(0, i as int).map_values(|u: Unit| unit_item(u)),
            decreases n - i,
        {
            let u: Unit = self.units[i];
            items.push(
                RenderItem {
                    kind: kind_for_render(u.kind),
                    translation: u.translation,
                    rotation: u.rotation,
                    alive: true,
                },
            );
            i += 1;
            assert(items@ =~= self.units@.subrange(0, i as int).map_values(|u: Unit| unit_item(u)));
        }
        assert(self.units@.subrange(0, n as int) =~= self.units@);
        let ghost drawn_units = items@;
        let m: usize = self.berries.len();
        i = 0;
        while i < m
            invariant
                i <= m,
                m == self.berries@.len(),
                items@ == drawn_units + self.berries@.subrange(0, i as int).map_values(
                    |b: Berry| berry_item(b),
                ),
            decreases m - i,
        {
            let b: Berry = self.berries[i];
            items.push(
                RenderItem {
                    kind: RenderKind::Berry,
                    translation: b.translation,
                    rotation: Rotation(Vec2 { x: 0, y: 1_000_000 }),
                    alive: true,
                },
            );
            i += 1;
            assert(items@ =~= drawn_units + self.berries@.subrange(0, i as int).map_values(
                |b: Berry| berry_item(b),
            ));
        }
        assert(self.berries@.subrange(0, m as int) =~= self.berries@);
        let ghost drawn_food = items@;
        let k: usize = self.corpses.len();
        i = 0;
        while i < k
            invariant
                i <= k,
                k == self.corpses@.len(),
                items@ == drawn_food + self.corpses@.subrange(0, i as int).map_values(
                    |c: CorpseData| corpse_item(c),
                ),
            decreases k - i,
        {
            let c: CorpseData = self.corpses[i];
            items.push(
                RenderItem {
                    kind: kind_for_render(c.unit),
                    translation: c.translation,
                    rotation: c.rotation,
                    alive: false,
                },
            );
            i += 1;
            assert(items@ =~= drawn_food + self.corpses@.subrange(0, i as int).map_values(
                |c: CorpseData| corpse_item(c),
            ));
        }
        assert(self.corpses@.subrange(0, k as int) =~= self.corpses@);
        items
    }
}

/// A session: the state of the application, the world, and the constants.
pub struct Simulation {
    pub state: AppState,
    pub world: World,
    pub config: SimConfig,
}

impl Simulation {
    /// A session that shows the menu and owns nothing yet.
    pub fn new(config: SimConfig) -> (s: Simulation)
        ensures
            s.state == AppState::Menu,
            s.config == config,
            s.world@ == vacant(config.max_berries),
            s.world.wf(),
    {
        Simulation { state: AppState::Menu, world: World::empty(config.max_berries), config }
    }

    /// Enters the simulation from the menu: the world is built anew. In a
    /// running simulation nothing happens.
    pub fn enter_simulation(&mut self)
        requires
            old(self).config.wf(),
        ensures
            final(self).config == old(self).config,
            final(self).state == AppState::Simulation,
            old(self).state == AppState::Simulation ==> final(self).world@ == old(self).world@,
            old(self).state == AppState::Menu ==> initial(final(self).world@, old(self).config)
                && final(self).world.wf(),
    {
        match self.state {
            AppState::Menu => {
                self.world = setup_game(&self.config);
                self.state = AppState::Simulation;
            },
            AppState::Simulation => {},
        }
    }

    /// Leaves the simulation for the menu; nothing of the session is left.
    pub fn exit_simulation(&mut self)
        ensures
            final(self).config == old(self).config,
            final(self).state == AppState::Menu,
            final(self).world@ == cleared(old(self).world@),
            final(self).world.wf(),
    {
        cleanup_game(&mut self.world);
        self.state = AppState::Menu;
    }

    /// Drives the session by `dt` microseconds. In the menu nothing happens.
    /// In a simulation, a request to exit leads to the menu and skips the
    /// tick; else the world ticks once.
    pub fn advance(&mut self, dt: u32, exit_requested: bool)
        requires
            old(self).config.wf(),
            old(self).world.wf(),
        ensures
            final(self).config == old(self).config,
            final(self).world.wf(),
            old(self).state == AppState::Menu ==> final(self).state == AppState::Menu
                && final(self).world@ == old(self).world@,
            old(self).state == AppState::Simulation && exit_requested ==> final(self).state
                == AppState::Menu && final(self).world@ == cleared(old(self).world@),
            old(self).state == AppState::Simulation && !exit_requested ==> final(self).state
                == AppState::Simulation && exists|fresh: Seq<Berry>| #[trigger]
                arrivals(fresh, old(self).world@, old(self).config) && final(self).world@
                    == resolved(
                    replenished(begun(old(self).world@, dt), fresh),
                    old(self).config,
                    dt,
                ),
    {
        match self.state {
            AppState::Menu => {},
            AppState::Simulation => {
                match handle_input(exit_requested) {
                    Some(_) => {
                        self.exit_simulation();
                    },
                    None => {
                        self.world.tick(&self.config, dt);
                    },
                }
            },
        }
    }
}

/// Separation does nothing beyond the collision radius: where every two
/// bodies are at or beyond it from each other, the whole pass changes no
/// unit.
pub proof fn lemma_separation_beyond_radius(units: Seq<Unit>, cfg: SimConfig, dt: u32)
    requires
        forall|i: int, j: int|
            0 <= i < units.len() && 0 <= j < units.len() && i != j ==> dist_sq(
                units[i].translation,
                units[j].translation,
            ) >= cfg.collision_radius * cfg.collision_radius,
    ensures
        repelled_all(units, cfg, dt) == units,
{
    assert forall|i: int| 0 <= i < units.len() implies repelled_all(units, cfg, dt)[i]
        == units[i] by {
        lemma_separation_keeps_far_bodies(units, i, units.len() as int, cfg, dt);
    }
    assert(repelled_all(units, cfg, dt) =~= units);
}

/// Steering is a function of the state: two units of the kind that thinks, at
/// the same place and with the same velocity, decide on the same target
/// among the same candidates.
pub proof fn lemma_steering_deterministic(
    a: Unit,
    b: Unit,
    kind: UnitType,
    candidates: Seq<Vec2>,
    cfg: SimConfig,
)
    requires
        a.kind == kind,
        b.kind == kind,
        a.translation == b.translation,
        a.body.curr_velocity == b.body.curr_velocity,
    ensures
        decided(a, kind, candidates, cfg).target == decided(b, kind, candidates, cfg).target,
{
}

/// Whenever the berries are filled up, their count is at the maximum, and it
/// is the number of berries if the world was well-formed.
pub proof fn lemma_replenished_is_full(w: WorldView, fresh: Seq<Berry>, cfg: SimConfig)
    requires
        arrivals(fresh, w, cfg),
    ensures
        replenished(w, fresh).game_data.num_berries == w.game_data.max_berries,
        w.wf() ==> replenished(w, fresh).berries.len() == w.game_data.max_berries && replenished(
            w,
            fresh,
        ).wf(),
{
}

/// Through the second part of a tick, until the deaths are applied, every
/// unit keeps its place in the order, its handle and its kind.
pub proof fn lemma_tick_keeps_handles(w: WorldView, cfg: SimConfig, dt: u32)
    ensures
        ({
            let fed_units = preyed(w, cfg, dt);
            let pushed = repelled_all(fed_units, cfg, dt);
            &&& fed_units.len() == w.units.len()
            &&& pushed.len() == w.units.len()
            &&& forall|i: int|
                0 <= i < w.units.len() ==> (#[trigger] pushed[i]).entity == w.units[i].entity
                    && pushed[i].kind == w.units[i].kind && pushed[i].hunger == fed_units[i].hunger
                    && fed_units[i].entity == w.units[i].entity
            &&& ascending(w.units) ==> ascending(pushed)
        }),
{
    let foraging = decided_all(w.units, UnitType::Fernworm, berry_positions(w.berries), cfg);
    let hunting = decided_all(
        foraging,
        UnitType::Zyrthid,
        positions_of(foraging, foraging.len() as int, UnitType::Fernworm),
        cfg,
    );
    let stepped = steered(w, cfg, dt);
    let grazing = grazed(w, cfg, dt);
    let fed_units = preyed(w, cfg, dt);
    let pushed = repelled_all(fed_units, cfg, dt);
    assert forall|i: int| 0 <= i < w.units.len() implies (#[trigger] pushed[i]).entity
        == w.units[i].entity && pushed[i].kind == w.units[i].kind && pushed[i].hunger
        == fed_units[i].hunger && fed_units[i].entity == w.units[i].entity by {
        assert(foraging[i].entity == w.units[i].entity && foraging[i].kind == w.units[i].kind);
        assert(hunting[i].entity == w.units[i].entity && hunting[i].kind == w.units[i].kind);
        assert(stepped[i].entity == w.units[i].entity && stepped[i].kind == w.units[i].kind);
        assert(grazing[i].entity == w.units[i].entity && grazing[i].kind == w.units[i].kind);
        assert(fed_units[i].entity == w.units[i].entity && fed_units[i].kind == w.units[i].kind);
    }
    if ascending(w.units) {
        assert forall|i: int, j: int| 0 <= i < j < pushed.len() implies pushed[i].entity.0
            < pushed[j].entity.0 by {
            assert(pushed[i].entity == w.units[i].entity);
            assert(pushed[j].entity == w.units[j].entity);
        }
    }
}

/// Who is left after a tick: a unit survives if and only if it has not
/// starved and no zyrthid has caught it, and no unit appears that was not
/// there before.
pub proof fn lemma_survivors(w: WorldView, cfg: SimConfig, dt: u32)
    requires
        ascending(w.units),
        w.events.len() == 0,
    ensures
        ascending(resolved(w, cfg, dt).units),
        forall|e: Entity| #[trigger]
            has_entity(resolved(w, cfg, dt).units, e) ==> has_entity(w.units, e),
        forall|k: int|
            0 <= k < w.units.len() ==> (has_entity(
                resolved(w, cfg, dt).units,
                (#[trigger] w.units[k]).entity,
            ) <==> !starved(preyed(w, cfg, dt)[k].hunger) && !caught(
                grazed(w, cfg, dt)[k],
                grazed(w, cfg, dt),
                cfg,
            )),
{
    lemma_tick_keeps_handles(w, cfg, dt);
    let grazing = grazed(w, cfg, dt);
    let fed_units = preyed(w, cfg, dt);
    let pushed = repelled_all(fed_units, cfg, dt);
    let eaten = predation_events(grazing, grazing.len() as int, cfg);
    let hungry = starvation_events(fed_units, fed_units.len() as int);
    let events = deaths(w, cfg, dt);
    let start = Population { units: pushed, corpses: w.corpses };
    lemma_after_deaths(start, events, events.len() as int);
    assert(events.subrange(0, events.len() as int) =~= events);
    let applied = after_deaths(start, events, events.len() as int);
    let after = resolved(w, cfg, dt).units;
    assert(after == applied.units);
    assert(w.events + eaten =~= eaten);
    assert(events == eaten + hungry);
    assert forall|e: Entity| #[trigger] has_entity(after, e) implies has_entity(w.units, e) by {
        assert(has_entity(applied.units, e));
        let k = choose|k: int| 0 <= k < pushed.len() && (#[trigger] pushed[k]).entity == e;
        assert(w.units[k].entity == e);
    }
    assert forall|k: int| 0 <= k < w.units.len() implies (has_entity(
        after,
        (#[trigger] w.units[k]).entity,
    ) <==> !starved(fed_units[k].hunger) && !caught(grazing[k], grazing, cfg)) by {
        let e = w.units[k].entity;
        assert(pushed[k].entity == e);
        assert(has_entity(pushed, e));
        assert(has_entity(applied.units, e) <==> !names(events, e));
        lemma_names_concat(eaten, hungry, e);
        lemma_starvation_names(fed_units, fed_units.len() as int, e);
        lemma_predation_names(grazing, grazing.len() as int, e, cfg);
        assert(grazing.len() == w.units.len());
        assert(grazing[k].entity == e) by {
            assert(fed_units[k].entity == e);
        }
        if names(hungry, e) {
            let i = choose|i: int|
                0 <= i < fed_units.len() && starved((#[trigger] fed_units[i]).hunger)
                    && fed_units[i].entity == e;
            assert(w.units[i].entity == e);
            assert(i == k);
        }
        if names(eaten, e) {
            let i = choose|i: int|
                0 <= i < grazing.len() && caught(#[trigger] grazing[i], grazing, cfg)
                    && grazing[i].entity == e;
            assert(fed_units[i].entity == w.units[i].entity);
            assert(grazing[i].entity == fed_units[i].entity);
            assert(i == k);
        }
    }
}

/// A unit that starves always leaves a corpse: among the deaths of the
/// tick there is one for its handle that lays a corpse, also if a zyrthid
/// has caught the unit in the same tick.
pub proof fn lemma_starved_leave_corpse(w: WorldView, cfg: SimConfig, dt: u32, k: int)
    requires
        0 <= k < w.units.len(),
        starved(preyed(w, cfg, dt)[k].hunger),
    ensures
        exists|j: int|
            0 <= j < deaths(w, cfg, dt).len() && (#[trigger] deaths(w, cfg, dt)[j]).entity
                == w.units[k].entity && lays_corpse(deaths(w, cfg, dt), j),
{
    lemma_tick_keeps_handles(w, cfg, dt);
    let grazing = grazed(w, cfg, dt);
    let fed_units = preyed(w, cfg, dt);
    let e = w.units[k].entity;
    let first = w.events + predation_events(grazing, grazing.len() as int, cfg);
    let hungry = starvation_events(fed_units, fed_units.len() as int);
    let events = deaths(w, cfg, dt);
    assert(events == first + hungry);
    lemma_starvation_names(fed_units, fed_units.len() as int, e);
    lemma_starvation_carries_corpse(fed_units, fed_units.len() as int);
    assert(starved(fed_units[k].hunger) && fed_units[k].entity == e);
    let i = choose|i: int| 0 <= i < hungry.len() && (#[trigger] hungry[i]).entity == e;
    let at = first.len() + i;
    assert(events[at] == hungry[i]);
    lemma_one_corpse_per_unit(events, at);
    let j = choose|j: int|
        0 <= j <= at && (#[trigger] events[j]).entity == events[at].entity && lays_corpse(
            events,
            j,
        );
    assert(events[j].entity == e && lays_corpse(events, j));
}

} // verus!
