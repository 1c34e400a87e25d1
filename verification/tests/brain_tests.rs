use ecosim::berry::Berry;
use ecosim::brain::{find_nearest, steer, think};
use ecosim::config::SimConfig;
use ecosim::motion::TargetPoint;
use ecosim::unit::{Entity, Unit, UnitType};
use ecosim::vector::Vec2;

fn unit(id: u64, kind: UnitType, x: i32, y: i32) -> Unit {
    Unit::spawn(Entity(id), kind, Vec2::new(x, y), &SimConfig::default())
}

#[test]
fn the_nearest_candidate_wins() {
    let candidates = vec![Vec2::new(5000, 0), Vec2::new(0, 3000), Vec2::new(-4000, 0)];
    assert_eq!(find_nearest(Vec2::new(0, 0), &candidates), Some(1));
    assert_eq!(find_nearest(Vec2::new(-3000, 0), &candidates), Some(2));
    assert_eq!(find_nearest(Vec2::new(i32::MAX, i32::MAX), &candidates), Some(0));
}

#[test]
fn of_equally_near_candidates_the_first_wins() {
    let candidates = vec![
        Vec2::new(9000, 0),
        Vec2::new(0, 5000),
        Vec2::new(5000, 0),
        Vec2::new(-3000, 4000),
    ];
    assert_eq!(find_nearest(Vec2::new(0, 0), &candidates), Some(1));
    let same = vec![Vec2::new(1, 1), Vec2::new(1, 1)];
    assert_eq!(find_nearest(Vec2::new(1, 1), &same), Some(0));
}

#[test]
fn without_candidates_there_is_no_target() {
    let none: Vec<Vec2> = Vec::new();
    assert_eq!(find_nearest(Vec2::new(0, 0), &none), None);
    let cfg = SimConfig::default();
    let mut units = vec![unit(0, UnitType::Fernworm, 0, 0)];
    units[0].target = TargetPoint(Some(Vec2::new(1, 2)));
    think(&mut units, UnitType::Fernworm, &none, &cfg);
    assert_eq!(units[0].target, TargetPoint(None));
    ecosim::zyrthid::use_brain(&mut units, &cfg);
    assert_eq!(units[0].target, TargetPoint(None));
}

#[test]
fn steering_leads_against_the_own_velocity() {
    assert_eq!(
        steer(Vec2::new(0, 0), Vec2::new(0, 0), Vec2::new(10_000, 0), 800),
        Vec2::new(10_000, 0),
    );
    assert_eq!(
        steer(Vec2::new(0, 0), Vec2::new(100_000, 0), Vec2::new(10_000, 5000), 800),
        Vec2::new(1056, 5000)
    );
    assert_eq!(
        steer(Vec2::new(1000, 2000), Vec2::new(-3000, 4000), Vec2::new(-5000, 7000), 800),
        Vec2::new(-2252, 2)
    );
    assert_eq!(
        steer(Vec2::new(0, 0), Vec2::new(30_000, 40_000), Vec2::new(-10_000, 20_000), 800),
        Vec2::new(-20_732, 5690)
    );
    assert_eq!(steer(Vec2::new(7, 7), Vec2::new(99, -99), Vec2::new(7, 7), 800), Vec2::new(0, 0));
}

#[test]
fn steering_at_low_speed_is_exact() {
    assert_eq!(
        steer(Vec2::new(0, 0), Vec2::new(1000, 0), Vec2::new(10_000, 0), 800),
        Vec2::new(2000, 0)
    );
    assert_eq!(steer(Vec2::new(0, 0), Vec2::new(1, 0), Vec2::new(10, 0), 800), Vec2::new(2, 0));
    assert_eq!(
        steer(Vec2::new(0, 0), Vec2::new(0, -1), Vec2::new(0, -10_000), 1000),
        Vec2::new(0, 0)
    );
    assert_eq!(
        steer(Vec2::new(0, 0), Vec2::new(-1000, 0), Vec2::new(10_000, 0), 800),
        Vec2::new(18_000, 0)
    );
}

#[test]
fn steering_is_a_function_of_the_state() {
    let pos = Vec2::new(12_345, -6789);
    let vel = Vec2::new(-150_000, 42_000);
    let target = Vec2::new(-300_000, 250_000);
    let first = steer(pos, vel, target, 800);
    for _ in 0..10 {
        assert_eq!(steer(pos, vel, target, 800), first);
    }
    let cfg = SimConfig::default();
    let berries = vec![Berry::new(Vec2::new(50_000, 0)), Berry::new(target)];
    let mut a = vec![unit(0, UnitType::Fernworm, pos.x, pos.y)];
    let mut b = vec![unit(5, UnitType::Fernworm, pos.x, pos.y)];
    a[0].body.curr_velocity = vel;
    b[0].body.curr_velocity = vel;
    b[0].hunger.curr_fullness = 3;
    ecosim::fernworm::use_brain(&mut a, &berries, &cfg);
    ecosim::fernworm::use_brain(&mut b, &berries, &cfg);
    assert!(a[0].target.0.is_some());
    assert_eq!(a[0].target, b[0].target);
}

#[test]
fn steering_survives_the_edges_of_the_numbers() {
    let offset = steer(
        Vec2::new(i32::MIN, i32::MIN),
        Vec2::new(i32::MIN, i32::MAX),
        Vec2::new(i32::MAX, i32::MAX),
        u32::MAX,
    );
    assert_eq!(offset, Vec2::new(i32::MAX, i32::MIN));
}

#[test]
fn fernworms_aim_for_the_nearest_berry() {
    let cfg = SimConfig::default();
    let berries = vec![Berry::new(Vec2::new(50_000, 0)), Berry::new(Vec2::new(0, 30_000))];
    let mut units = vec![
        unit(0, UnitType::Fernworm, 0, 0),
        unit(1, UnitType::Zyrthid, 0, 0),
        unit(2, UnitType::Fernworm, 45_000, 1000),
    ];
    let before = units.clone();
    ecosim::fernworm::use_brain(&mut units, &berries, &cfg);
    assert_eq!(units[0].target, TargetPoint(Some(Vec2::new(0, 30_000))));
    assert_eq!(units[1], before[1]);
    assert_eq!(units[2].target, TargetPoint(Some(Vec2::new(5000, -1000))));
    assert_eq!(units[0].body, before[0].body);
    assert_eq!(units[0].translation, before[0].translation);
}

#[test]
fn zyrthids_aim_for_the_nearest_fernworm() {
    let cfg = SimConfig::default();
    let mut units = vec![
        unit(0, UnitType::Zyrthid, 0, 0),
        unit(1, UnitType::Fernworm, 90_000, 0),
        unit(2, UnitType::Zyrthid, 10_000, 10_000),
        unit(3, UnitType::Fernworm, 0, -20_000),
    ];
    let before = units.clone();
    ecosim::zyrthid::use_brain(&mut units, &cfg);
    assert_eq!(units[0].target, TargetPoint(Some(Vec2::new(0, -20_000))));
    assert_eq!(units[2].target, TargetPoint(Some(Vec2::new(-10_000, -30_000))));
    assert_eq!(units[1], before[1]);
    assert_eq!(units[3], before[3]);
}
