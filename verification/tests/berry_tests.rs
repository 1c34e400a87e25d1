use ecosim::berry::{position_of_cell, random_position, spawn_berries, Berry, GameData};
use ecosim::config::SimConfig;
use ecosim::vector::Vec2;

fn in_area(pos: Vec2, cfg: &SimConfig) -> bool {
    pos.x % 1000 == 0
        && pos.y % 1000 == 0
        && cfg.playable_area_x0 <= pos.x / 1000
        && pos.x / 1000 < cfg.playable_area_x1
        && cfg.playable_area_y0 <= pos.y / 1000
        && pos.y / 1000 < cfg.playable_area_y1
}

#[test]
fn cells_are_whole_units() {
    assert_eq!(position_of_cell(3, -4), Vec2::new(3000, -4000));
    assert_eq!(position_of_cell(0, 0), Vec2::new(0, 0));
    assert_eq!(position_of_cell(i32::MAX, i32::MIN), Vec2::new(i32::MAX, i32::MIN));
    assert_eq!(position_of_cell(2_147_483, -2_147_483), Vec2::new(2_147_483_000, -2_147_483_000));
}

#[test]
fn spawn_berries_fills_up_to_the_maximum() {
    let cfg = SimConfig::default();
    let mut game_data = GameData { num_berries: 0, max_berries: 8 };
    let mut berries: Vec<Berry> = Vec::new();
    spawn_berries(&mut game_data, &mut berries, &cfg);
    assert_eq!(game_data, GameData { num_berries: 8, max_berries: 8 });
    assert_eq!(berries.len(), 8);
    for b in &berries {
        assert!(in_area(b.translation, &cfg));
    }
}

#[test]
fn spawn_berries_replaces_what_was_eaten() {
    let cfg = SimConfig::default();
    let kept = vec![
        Berry::new(Vec2::new(1, 2)),
        Berry::new(Vec2::new(3, 4)),
        Berry::new(Vec2::new(5, 6)),
    ];
    let mut berries = kept.clone();
    let mut game_data = GameData { num_berries: 3, max_berries: 8 };
    spawn_berries(&mut game_data, &mut berries, &cfg);
    assert_eq!(game_data.num_berries, 8);
    assert_eq!(berries.len(), 8);
    assert_eq!(&berries[..3], &kept[..]);
    for b in &berries[3..] {
        assert!(in_area(b.translation, &cfg));
    }
    let full = berries.clone();
    spawn_berries(&mut game_data, &mut berries, &cfg);
    assert_eq!(berries, full);
    assert_eq!(game_data.num_berries, 8);
}

#[test]
fn spawn_berries_sets_the_count_even_above_the_maximum() {
    let cfg = SimConfig::default();
    let mut berries = vec![Berry::new(Vec2::new(0, 0)); 5];
    let mut game_data = GameData { num_berries: 5, max_berries: 2 };
    spawn_berries(&mut game_data, &mut berries, &cfg);
    assert_eq!(game_data, GameData { num_berries: 2, max_berries: 2 });
    assert_eq!(berries.len(), 5);
}

#[test]
fn random_positions_stay_inside_the_area() {
    let cfg = SimConfig {
        playable_area_x0: -3,
        playable_area_x1: 2,
        playable_area_y0: 10,
        playable_area_y1: 11,
        ..SimConfig::default()
    };
    let mut seen_x = [false; 5];
    for _ in 0..400 {
        let pos = random_position(&cfg);
        assert!(in_area(pos, &cfg));
        assert_eq!(pos.y, 10_000);
        seen_x[(pos.x / 1000 + 3) as usize] = true;
    }
    assert!(seen_x.iter().all(|&seen| seen));
}

#[test]
fn a_single_cell_is_always_drawn() {
    let cfg = SimConfig {
        playable_area_x0: 7,
        playable_area_x1: 8,
        playable_area_y0: -9,
        playable_area_y1: -8,
        ..SimConfig::default()
    };
    for _ in 0..20 {
        assert_eq!(random_position(&cfg), Vec2::new(7000, -9000));
    }
}
