use ecosim::berry::{Berry, GameData};
use ecosim::bounding::Aabb2d;
use ecosim::config::SimConfig;
use ecosim::fernworm::eat_berries;
use ecosim::interaction::{find_eater, resolve_meals};
use ecosim::motion::Rotation;
use ecosim::unit::{CorpseData, DeathEvent, Entity, Unit, UnitType};
use ecosim::vector::Vec2;
use ecosim::zyrthid::eat_fernworms;

fn unit(id: u64, kind: UnitType, x: i32, y: i32) -> Unit {
    Unit::spawn(Entity(id), kind, Vec2::new(x, y), &SimConfig::default())
}

fn hungry(id: u64, kind: UnitType, x: i32, y: i32, fullness: u32) -> Unit {
    let mut u = unit(id, kind, x, y);
    u.hunger.curr_fullness = fullness;
    u
}

#[test]
fn the_mouth_lies_ahead_of_the_unit() {
    let cfg = SimConfig::default();
    let mut f = unit(0, UnitType::Fernworm, 1000, 2000);
    assert_eq!(f.mouth(&cfg), Aabb2d::new(Vec2::new(1000, 2000 + 10_666), 10_666, 4000));
    f.rotation = Rotation(Vec2::new(600_000, -800_000));
    assert_eq!(f.mouth(&cfg), Aabb2d::new(Vec2::new(1000 + 6399, 2000 - 8532), 10_666, 4000));
    let z = unit(1, UnitType::Zyrthid, 0, 0);
    assert_eq!(z.mouth(&cfg), Aabb2d::new(Vec2::new(0, 16_000), 3000, 3000));
    assert_eq!(Berry::new(Vec2::new(5, 6)).bounds(&cfg), Aabb2d::new(Vec2::new(5, 6), 8000, 8000));
}

#[test]
fn kind_specific_constants() {
    let cfg = SimConfig::default();
    assert!(cfg.is_valid());
    assert_eq!(cfg.render_width(UnitType::Fernworm), 16_000);
    assert_eq!(cfg.render_height(UnitType::Fernworm), 32_000);
    assert_eq!(cfg.render_width(UnitType::Zyrthid), 24_000);
    assert_eq!(cfg.render_height(UnitType::Zyrthid), 48_000);
    assert_eq!(cfg.mouth_offset(UnitType::Fernworm), 10_666);
    assert_eq!(cfg.mouth_offset(UnitType::Zyrthid), 16_000);
    assert_eq!(cfg.mouth_half_width(UnitType::Fernworm), 10_666);
    assert_eq!(cfg.mouth_half_height(UnitType::Fernworm), 4000);
    assert_eq!(cfg.mouth_half_width(UnitType::Zyrthid), 3000);
    assert_eq!(cfg.mouth_half_height(UnitType::Zyrthid), 3000);
    let wide = SimConfig { fernworm_render_width: u32::MAX, ..cfg };
    assert_eq!(wide.mouth_half_width(UnitType::Fernworm), 2_863_311_530);
    let empty = SimConfig { playable_area_x1: -600, ..cfg };
    assert!(!empty.is_valid());
    let flat = SimConfig { playable_area_y0: 320, ..cfg };
    assert!(!flat.is_valid());
}

#[test]
fn one_berry_feeds_one_of_two_eaters() {
    let cfg = SimConfig::default();
    let mut units = vec![
        hungry(0, UnitType::Fernworm, 0, 0, 50_000),
        hungry(1, UnitType::Fernworm, 5000, 0, 50_000),
    ];
    let berry = Berry::new(Vec2::new(0, 12_000));
    assert!(units[0].mouth(&cfg).intersects(&berry.bounds(&cfg)));
    assert!(units[1].mouth(&cfg).intersects(&berry.bounds(&cfg)));
    let mut berries = vec![berry];
    let mut game_data = GameData { num_berries: 1, max_berries: 8 };
    eat_berries(&mut game_data, &mut berries, &mut units, &cfg);
    assert!(berries.is_empty());
    assert_eq!(game_data, GameData { num_berries: 0, max_berries: 8 });
    assert_eq!(units[0].hunger.curr_fullness, 70_000);
    assert_eq!(units[1].hunger.curr_fullness, 50_000);
}

#[test]
fn the_first_eater_in_order_gets_the_food() {
    let cfg = SimConfig::default();
    let units = vec![
        unit(0, UnitType::Zyrthid, 0, -4000),
        unit(1, UnitType::Fernworm, 100_000, 0),
        unit(2, UnitType::Fernworm, 5000, 0),
        unit(3, UnitType::Fernworm, 0, 0),
    ];
    let food = Berry::new(Vec2::new(0, 12_000)).bounds(&cfg);
    assert_eq!(find_eater(&units, UnitType::Fernworm, &food, &cfg), Some(2));
    assert_eq!(find_eater(&units, UnitType::Zyrthid, &food, &cfg), Some(0));
    let far = Berry::new(Vec2::new(0, -500_000)).bounds(&cfg);
    assert_eq!(find_eater(&units, UnitType::Fernworm, &far, &cfg), None);
    let nobody: Vec<Unit> = Vec::new();
    assert_eq!(find_eater(&nobody, UnitType::Fernworm, &food, &cfg), None);
}

#[test]
fn an_eater_can_have_several_meals_and_stops_at_full() {
    let cfg = SimConfig::default();
    let mut units = vec![hungry(0, UnitType::Fernworm, 0, 0, 30_000)];
    let mut berries = vec![
        Berry::new(Vec2::new(0, 12_000)),
        Berry::new(Vec2::new(300_000, 0)),
        Berry::new(Vec2::new(1000, 11_000)),
        Berry::new(Vec2::new(-1000, 10_000)),
        Berry::new(Vec2::new(0, 9000)),
    ];
    let mut game_data = GameData { num_berries: 5, max_berries: 8 };
    eat_berries(&mut game_data, &mut berries, &mut units, &cfg);
    assert_eq!(berries, vec![Berry::new(Vec2::new(300_000, 0))]);
    assert_eq!(game_data.num_berries, 1);
    assert_eq!(units[0].hunger.curr_fullness, 100_000);
    assert_eq!(units[0].hunger.max_fullness, 100_000);
}

#[test]
fn eating_adds_the_gain_and_caps_it() {
    let f = hungry(0, UnitType::Fernworm, 0, 0, 50_000);
    assert_eq!(f.eat(20_000).hunger.curr_fullness, 70_000);
    assert_eq!(f.eat(50_000).hunger.curr_fullness, 100_000);
    assert_eq!(f.eat(50_001).hunger.curr_fullness, 100_000);
    assert_eq!(f.eat(u32::MAX).hunger.curr_fullness, 100_000);
    assert_eq!(f.eat(0).hunger.curr_fullness, 50_000);
    assert_eq!(f.eat(20_000).translation, f.translation);
    assert_eq!(f.eat(20_000).hunger.last_sampled_pos, f.hunger.last_sampled_pos);
}

#[test]
fn zyrthids_do_not_eat_berries_and_berries_out_of_reach_stay() {
    let cfg = SimConfig::default();
    let mut units = vec![
        hungry(0, UnitType::Zyrthid, 0, 0, 10_000),
        hungry(1, UnitType::Fernworm, 200_000, 200_000, 10_000),
    ];
    let before = units.clone();
    let mut berries = vec![Berry::new(Vec2::new(0, 16_000)), Berry::new(Vec2::new(0, 0))];
    let mut game_data = GameData { num_berries: 2, max_berries: 2 };
    eat_berries(&mut game_data, &mut berries, &mut units, &cfg);
    assert_eq!(berries.len(), 2);
    assert_eq!(game_data.num_berries, 2);
    assert_eq!(units, before);
}

#[test]
fn resolve_meals_reports_what_was_eaten() {
    let cfg = SimConfig::default();
    let mut units = vec![
        hungry(0, UnitType::Fernworm, 0, 0, 0),
        hungry(1, UnitType::Fernworm, 0, 0, 0),
    ];
    let foods = vec![
        Some(Aabb2d::new(Vec2::new(0, 10_000), 10, 10)),
        None,
        Some(Aabb2d::new(Vec2::new(0, -10_000), 10, 10)),
        Some(Aabb2d::new(Vec2::new(10_666, 14_666), 0, 0)),
        Some(Aabb2d::new(Vec2::new(10_667, 14_666), 0, 0)),
    ];
    let eaten = resolve_meals(&mut units, UnitType::Fernworm, &foods, 1000, &cfg);
    assert_eq!(eaten, vec![true, false, false, true, false]);
    assert_eq!(units[0].hunger.curr_fullness, 2000);
    assert_eq!(units[1].hunger.curr_fullness, 0);
}

#[test]
fn a_zyrthid_eats_the_fernworm_in_its_mouth() {
    let cfg = SimConfig::default();
    let mut units = vec![
        hungry(0, UnitType::Fernworm, 0, 20_000, 90_000),
        hungry(1, UnitType::Zyrthid, 0, 0, 150_000),
        hungry(2, UnitType::Zyrthid, 2000, 0, 150_000),
        hungry(3, UnitType::Fernworm, 300_000, 0, 90_000),
    ];
    let before = units.clone();
    let mut events: Vec<DeathEvent> = Vec::new();
    eat_fernworms(&mut units, &mut events, &cfg);
    assert_eq!(events, vec![DeathEvent { entity: Entity(0), corpse: None }]);
    assert_eq!(units.len(), 4);
    assert_eq!(units[0], before[0]);
    assert_eq!(units[1].hunger.curr_fullness, 200_000);
    assert_eq!(units[2].hunger.curr_fullness, 150_000);
    assert_eq!(units[3], before[3]);
}

#[test]
fn the_gain_of_a_zyrthid_is_added_below_the_cap() {
    let cfg = SimConfig::default();
    let mut units = vec![
        hungry(0, UnitType::Zyrthid, 0, 0, 40_000),
        hungry(1, UnitType::Fernworm, 0, 20_000, 90_000),
    ];
    let mut events: Vec<DeathEvent> = Vec::new();
    eat_fernworms(&mut units, &mut events, &cfg);
    assert_eq!(units[0].hunger.curr_fullness, 140_000);
    assert_eq!(events.len(), 1);
}

#[test]
fn a_fernworm_does_not_eat_a_fernworm() {
    let cfg = SimConfig::default();
    let mut units = vec![
        hungry(0, UnitType::Fernworm, 0, 0, 10_000),
        hungry(1, UnitType::Fernworm, 0, 10_000, 10_000),
        hungry(2, UnitType::Zyrthid, 500_000, 0, 10_000),
    ];
    let before = units.clone();
    let mut events: Vec<DeathEvent> = Vec::new();
    eat_fernworms(&mut units, &mut events, &cfg);
    assert!(events.is_empty());
    assert_eq!(units, before);
}

#[test]
fn predation_can_be_set_to_leave_a_corpse() {
    let cfg = SimConfig { predation_leaves_corpse: true, ..SimConfig::default() };
    let mut units = vec![
        unit(3, UnitType::Zyrthid, 0, 0),
        unit(8, UnitType::Fernworm, 1000, 21_000),
    ];
    units[1].rotation = Rotation(Vec2::new(-1_000_000, 0));
    let mut events = vec![DeathEvent { entity: Entity(99), corpse: None }];
    eat_fernworms(&mut units, &mut events, &cfg);
    assert_eq!(events.len(), 2);
    assert_eq!(events[0], DeathEvent { entity: Entity(99), corpse: None });
    assert_eq!(
        events[1],
        DeathEvent {
            entity: Entity(8),
            corpse: Some(CorpseData {
                unit: UnitType::Fernworm,
                translation: Vec2::new(1000, 21_000),
                rotation: Rotation(Vec2::new(-1_000_000, 0)),
            }),
        }
    );
}
