use ecosim::config::SimConfig;
use ecosim::motion::{
    apply_rotation, apply_velocity, push_apart, repel_bodies, update_velocity, MovingBody, Rotation,
    TargetPoint,
};
use ecosim::unit::{Entity, Unit, UnitType};
use ecosim::vector::Vec2;

fn fernworm_at(id: u64, x: i32, y: i32) -> Unit {
    Unit::spawn(Entity(id), UnitType::Fernworm, Vec2::new(x, y), &SimConfig::default())
}

fn moving(id: u64, x: i32, y: i32, vx: i32, vy: i32) -> Unit {
    let mut u = fernworm_at(id, x, y);
    u.body.curr_velocity = Vec2::new(vx, vy);
    u
}

#[test]
fn a_new_body_rests() {
    let b = MovingBody::new(200_000, 1_000_000);
    assert_eq!(b.curr_velocity, Vec2::new(0, 0));
    assert_eq!(b.curr_acceleration, Vec2::new(0, 0));
    assert_eq!(b.max_speed, 200_000);
    assert_eq!(b.max_acceleration, 1_000_000);
}

#[test]
fn apply_velocity_moves_by_velocity_times_time() {
    let mut units = vec![moving(0, 1000, -2000, 200_000, -100_000), moving(1, 5, 5, 0, 0)];
    let before = units.clone();
    apply_velocity(&mut units, 30_000);
    assert_eq!(units[0].translation, Vec2::new(7000, -5000));
    assert_eq!(units[1].translation, Vec2::new(5, 5));
    assert_eq!(units[0].body, before[0].body);
    assert_eq!(units[0].rotation, before[0].rotation);
    assert_eq!(units[0].hunger, before[0].hunger);
    assert_eq!(units[0].target, before[0].target);
    assert_eq!(units[1], before[1]);
}

#[test]
fn apply_velocity_stops_at_the_edge_of_the_numbers() {
    let mut units = vec![moving(0, i32::MAX - 10, i32::MIN + 10, 200_000, -200_000)];
    apply_velocity(&mut units, 1_000_000);
    assert_eq!(units[0].translation, Vec2::new(i32::MAX, i32::MIN));
}

#[test]
fn apply_rotation_follows_the_velocity() {
    let mut units = vec![
        moving(0, 0, 0, 3000, 4000),
        moving(1, 0, 0, -50_000, 0),
        moving(2, 0, 0, 0, -8),
    ];
    apply_rotation(&mut units);
    assert_eq!(units[0].rotation, Rotation(Vec2::new(600_000, 800_000)));
    assert_eq!(units[1].rotation, Rotation(Vec2::new(-1_000_000, 0)));
    assert_eq!(units[2].rotation, Rotation(Vec2::new(0, -1_000_000)));
}

#[test]
fn apply_rotation_keeps_the_facing_of_a_body_at_rest() {
    let mut units = vec![moving(0, 0, 0, 0, 0), moving(1, 0, 0, 1, 0), moving(2, 0, 0, 0, -1)];
    units[1].rotation = Rotation(Vec2::new(-600_000, 800_000));
    apply_rotation(&mut units);
    assert_eq!(units[0].rotation, Rotation(Vec2::new(0, 1_000_000)));
    assert_eq!(units[1].rotation, Rotation(Vec2::new(-600_000, 800_000)));
    assert_eq!(units[2].rotation, Rotation(Vec2::new(0, 1_000_000)));
    let mut barely = vec![moving(3, 0, 0, 1, 1)];
    apply_rotation(&mut barely);
    assert_eq!(barely[0].rotation, Rotation(Vec2::new(707_107, 707_107)));
}

#[test]
fn update_velocity_accelerates_toward_the_target() {
    let mut units = vec![fernworm_at(0, 0, 0)];
    units[0].target = TargetPoint(Some(Vec2::new(3000, 4000)));
    update_velocity(&mut units, 30_000);
    assert_eq!(units[0].body.curr_acceleration, Vec2::new(18_000, 24_000));
    assert_eq!(units[0].body.curr_velocity, Vec2::new(18_000, 24_000));
    assert_eq!(units[0].translation, Vec2::new(0, 0));
}

#[test]
fn update_velocity_caps_the_acceleration_by_the_tick() {
    let mut body = MovingBody::new(150_000, 1_000_000);
    body = body.step(TargetPoint(Some(Vec2::new(-5000, -5000))), 30_000);
    assert_eq!(body.curr_acceleration, Vec2::new(-21_213, -21_213));
    assert!(body.curr_acceleration.length_squared() <= 30_000 * 30_000);
    let target = TargetPoint(Some(Vec2::new(0, 7)));
    let long = MovingBody::new(200_000, 1_000_000).step(target, 5_000_000);
    assert_eq!(long.curr_acceleration, Vec2::new(0, 1_000_000));
    assert_eq!(long.curr_velocity, Vec2::new(0, 200_000));
}

#[test]
fn update_velocity_never_exceeds_max_speed() {
    let mut units = vec![moving(0, 0, 0, 199_000, 0)];
    units[0].target = TargetPoint(Some(Vec2::new(1000, 0)));
    update_velocity(&mut units, 30_000);
    assert_eq!(units[0].body.curr_acceleration, Vec2::new(30_000, 0));
    assert_eq!(units[0].body.curr_velocity, Vec2::new(200_000, 0));

    let velocities = [
        (0, 0),
        (150_000, 150_000),
        (-1_000_000, 3),
        (i32::MAX, i32::MIN),
        (i32::MIN, i32::MIN),
        (199_999, -1),
    ];
    let targets = [
        None,
        Some((1, 0)),
        Some((-3000, 4000)),
        Some((i32::MIN, i32::MAX)),
        Some((0, 0)),
    ];
    for (vx, vy) in velocities {
        for target in targets {
            for dt in [0u32, 1, 30_000, 1_000_000, u32::MAX] {
                let mut units = vec![moving(0, 0, 0, vx, vy)];
                units[0].target = TargetPoint(target.map(|(x, y)| Vec2::new(x, y)));
                update_velocity(&mut units, dt);
                let speed_squared = units[0].body.curr_velocity.length_squared();
                assert!(speed_squared <= 200_000u128 * 200_000u128);
            }
        }
    }
}

#[test]
fn a_body_without_target_brakes_to_rest() {
    let mut units = vec![moving(0, 0, 0, 150_000, -80_000)];
    update_velocity(&mut units, 30_000);
    assert_eq!(units[0].body.curr_acceleration, Vec2::new(-150_000, 80_000));
    assert_eq!(units[0].body.curr_velocity, Vec2::new(0, 0));
    update_velocity(&mut units, 30_000);
    assert_eq!(units[0].body.curr_velocity, Vec2::new(0, 0));
    assert_eq!(units[0].body.curr_acceleration, Vec2::new(0, 0));
}

#[test]
fn braking_never_turns_the_velocity_around() {
    let mut units = vec![moving(0, 0, 0, i32::MIN, i32::MAX)];
    units[0].body.max_speed = u32::MAX;
    update_velocity(&mut units, 30_000);
    assert_eq!(units[0].body.curr_velocity, Vec2::new(-1, 0));
    update_velocity(&mut units, 30_000);
    assert_eq!(units[0].body.curr_velocity, Vec2::new(0, 0));
}

#[test]
fn bodies_beyond_the_radius_are_not_pushed() {
    let cfg = SimConfig::default();
    assert_eq!(push_apart(Vec2::new(0, 0), Vec2::new(40_000, 0), &cfg, 30_000), Vec2::new(0, 0));
    assert_eq!(push_apart(Vec2::new(0, 0), Vec2::new(0, -900_000), &cfg, 30_000), Vec2::new(0, 0));
    let mut units = vec![
        moving(0, 0, 0, 5000, -7000),
        moving(1, 40_000, 0, 0, 0),
        moving(2, 0, 40_000, -1, 1),
        moving(3, -100_000, -100_000, 200_000, 0),
    ];
    let before = units.clone();
    repel_bodies(&mut units, &cfg, 30_000);
    assert_eq!(units, before);
}

#[test]
fn bodies_inside_the_radius_push_each_other_apart() {
    let cfg = SimConfig::default();
    assert_eq!(
        push_apart(Vec2::new(0, 0), Vec2::new(10_000, 0), &cfg, 30_000),
        Vec2::new(-149_999, 0)
    );
    assert_eq!(
        push_apart(Vec2::new(0, 0), Vec2::new(3000, 4000), &cfg, 30_000),
        Vec2::new(-359_999, -479_999)
    );
    assert_eq!(push_apart(Vec2::new(5, 5), Vec2::new(5, 5), &cfg, 30_000), Vec2::new(0, 0));
    let mut units = vec![moving(0, 0, 0, 0, 0), moving(1, 10_000, 0, 1000, 0)];
    let before = units.clone();
    repel_bodies(&mut units, &cfg, 30_000);
    assert_eq!(units[0].body.curr_velocity, Vec2::new(-149_999, 0));
    assert_eq!(units[1].body.curr_velocity, Vec2::new(150_999, 0));
    assert_eq!(units[0].translation, before[0].translation);
    assert_eq!(units[1].translation, before[1].translation);
    assert_eq!(units[0].hunger, before[0].hunger);
}

#[test]
fn every_pair_is_pushed_once() {
    let cfg = SimConfig::default();
    let mut units = vec![
        moving(0, 0, 0, 0, 0),
        moving(1, 10_000, 0, 1000, 0),
        moving(2, 0, 20_000, 0, 0),
    ];
    repel_bodies(&mut units, &cfg, 30_000);
    assert_eq!(units[0].body.curr_velocity, Vec2::new(-149_999, -37_499));
    assert_eq!(units[1].body.curr_velocity, Vec2::new(164_415, -26_832));
    assert_eq!(units[2].body.curr_velocity, Vec2::new(-13_416, 64_331));
}

#[test]
fn systems_accept_an_empty_world() {
    let cfg = SimConfig::default();
    let mut units: Vec<Unit> = Vec::new();
    apply_velocity(&mut units, 30_000);
    apply_rotation(&mut units);
    update_velocity(&mut units, 30_000);
    repel_bodies(&mut units, &cfg, 30_000);
    assert!(units.is_empty());
}

#[test]
fn a_tick_can_be_a_fraction_of_a_millisecond() {
    let body = MovingBody::new(1_000_000_000, 1_024_000);
    let stepped = body.step(TargetPoint(Some(Vec2::new(1, 0))), 31_250);
    assert_eq!(stepped.curr_acceleration, Vec2::new(32_000, 0));
    assert_eq!(stepped.curr_velocity, Vec2::new(32_000, 0));
    let mut units = vec![moving(0, 0, 0, 1000, -1000)];
    apply_velocity(&mut units, 31_250);
    assert_eq!(units[0].translation, Vec2::new(31, -31));
}
