use ecosim::config::SimConfig;
use ecosim::motion::Rotation;
use ecosim::unit::{
    find_unit, kill_units, laid_before, CorpseData, DeathEvent, Entity, Unit, UnitType,
};
use ecosim::vector::Vec2;

fn unit(id: u64, kind: UnitType, x: i32, y: i32) -> Unit {
    Unit::spawn(Entity(id), kind, Vec2::new(x, y), &SimConfig::default())
}

fn corpse_of(u: &Unit) -> CorpseData {
    CorpseData { unit: u.kind, translation: u.translation, rotation: u.rotation }
}

#[test]
fn units_are_found_by_their_handle() {
    let units = vec![
        unit(2, UnitType::Fernworm, 0, 0),
        unit(5, UnitType::Zyrthid, 0, 0),
        unit(9, UnitType::Fernworm, 0, 0),
    ];
    assert_eq!(find_unit(&units, Entity(2)), Some(0));
    assert_eq!(find_unit(&units, Entity(5)), Some(1));
    assert_eq!(find_unit(&units, Entity(9)), Some(2));
    assert_eq!(find_unit(&units, Entity(3)), None);
    assert_eq!(find_unit(&Vec::new(), Entity(2)), None);
}

#[test]
fn a_death_removes_the_unit_and_lays_down_its_corpse() {
    let mut units = vec![
        unit(0, UnitType::Fernworm, 1, 1),
        unit(1, UnitType::Zyrthid, 2, 2),
        unit(2, UnitType::Fernworm, 3, 3),
    ];
    let survivors = vec![units[0], units[2]];
    let corpse = corpse_of(&units[1]);
    let mut corpses: Vec<CorpseData> = Vec::new();
    let mut events = vec![DeathEvent { entity: Entity(1), corpse: Some(corpse) }];
    kill_units(&mut units, &mut corpses, &mut events);
    assert_eq!(units, survivors);
    assert_eq!(corpses, vec![corpse]);
    assert!(events.is_empty());
}

#[test]
fn a_death_without_corpse_leaves_nothing() {
    let mut units = vec![unit(0, UnitType::Fernworm, 1, 1), unit(1, UnitType::Fernworm, 2, 2)];
    let survivor = units[1];
    let old = CorpseData {
        unit: UnitType::Zyrthid,
        translation: Vec2::new(9, 9),
        rotation: Rotation(Vec2::new(0, 1_000_000)),
    };
    let mut corpses = vec![old];
    let mut events = vec![DeathEvent { entity: Entity(0), corpse: None }];
    kill_units(&mut units, &mut corpses, &mut events);
    assert_eq!(units, vec![survivor]);
    assert_eq!(corpses, vec![old]);
    assert!(events.is_empty());
}

#[test]
fn a_unit_eaten_and_starved_in_one_tick_leaves_its_corpse() {
    let mut units = vec![unit(0, UnitType::Zyrthid, 1, 1), unit(1, UnitType::Fernworm, 2, 2)];
    let survivor = units[0];
    let corpse = corpse_of(&units[1]);
    let mut corpses: Vec<CorpseData> = Vec::new();
    let mut events = vec![
        DeathEvent { entity: Entity(1), corpse: None },
        DeathEvent { entity: Entity(1), corpse: Some(corpse) },
    ];
    assert!(!laid_before(&events, 0));
    assert!(!laid_before(&events, 1));
    kill_units(&mut units, &mut corpses, &mut events);
    assert_eq!(units, vec![survivor]);
    assert_eq!(corpses, vec![corpse]);
    assert!(events.is_empty());
}

#[test]
fn no_unit_leaves_two_corpses() {
    let mut units = vec![unit(0, UnitType::Fernworm, 1, 1), unit(1, UnitType::Fernworm, 2, 2)];
    let first = corpse_of(&units[0]);
    let second = CorpseData { translation: Vec2::new(9, 9), ..first };
    let other = corpse_of(&units[1]);
    let mut corpses: Vec<CorpseData> = Vec::new();
    let mut events = vec![
        DeathEvent { entity: Entity(0), corpse: Some(first) },
        DeathEvent { entity: Entity(1), corpse: Some(other) },
        DeathEvent { entity: Entity(0), corpse: Some(second) },
    ];
    assert!(!laid_before(&events, 1));
    assert!(laid_before(&events, 2));
    kill_units(&mut units, &mut corpses, &mut events);
    assert!(units.is_empty());
    assert_eq!(corpses, vec![first, other]);
}

#[test]
fn no_unit_dies_twice() {
    let mut units = vec![unit(0, UnitType::Fernworm, 1, 1), unit(1, UnitType::Fernworm, 2, 2)];
    let survivor = units[1];
    let corpse = corpse_of(&units[0]);
    let mut corpses: Vec<CorpseData> = Vec::new();
    let mut events = vec![
        DeathEvent { entity: Entity(0), corpse: None },
        DeathEvent { entity: Entity(0), corpse: Some(corpse) },
        DeathEvent { entity: Entity(0), corpse: Some(corpse) },
    ];
    kill_units(&mut units, &mut corpses, &mut events);
    assert_eq!(units, vec![survivor]);
    assert_eq!(corpses, vec![corpse]);
    assert!(events.is_empty());
}

#[test]
fn a_death_of_a_unit_that_is_gone_removes_nothing_and_lays_its_corpse() {
    let mut units = vec![unit(0, UnitType::Fernworm, 1, 1)];
    let before = units.clone();
    let mut corpses: Vec<CorpseData> = Vec::new();
    let ghost = CorpseData {
        unit: UnitType::Fernworm,
        translation: Vec2::new(0, 0),
        rotation: Rotation(Vec2::new(0, 1_000_000)),
    };
    let mut events = vec![DeathEvent { entity: Entity(77), corpse: Some(ghost) }];
    kill_units(&mut units, &mut corpses, &mut events);
    assert_eq!(units, before);
    assert_eq!(corpses, vec![ghost]);
    assert!(events.is_empty());
    kill_units(&mut units, &mut corpses, &mut events);
    assert_eq!(units, before);
    assert_eq!(corpses, vec![ghost]);
}

#[test]
fn deaths_are_applied_in_their_order() {
    let mut units = vec![
        unit(0, UnitType::Fernworm, 1, 1),
        unit(1, UnitType::Zyrthid, 2, 2),
        unit(2, UnitType::Fernworm, 3, 3),
        unit(3, UnitType::Zyrthid, 4, 4),
    ];
    let survivor = units[1];
    let first = corpse_of(&units[3]);
    let second = corpse_of(&units[0]);
    let mut corpses: Vec<CorpseData> = Vec::new();
    let mut events = vec![
        DeathEvent { entity: Entity(3), corpse: Some(first) },
        DeathEvent { entity: Entity(2), corpse: None },
        DeathEvent { entity: Entity(0), corpse: Some(second) },
    ];
    kill_units(&mut units, &mut corpses, &mut events);
    assert_eq!(units, vec![survivor]);
    assert_eq!(corpses, vec![first, second]);
}
