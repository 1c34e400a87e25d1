//! Berries and the spawner that keeps their number up.

use vstd::prelude::*;
use crate::bounding::{box_around, Aabb2d};
use crate::config::SimConfig;
use crate::fixed::{clamp_i32, saturate_i32};
use crate::random::random_in_range;
use crate::vector::Vec2;

verus! {

/// A berry: food that lies still.
#[derive(Clone, Copy, PartialEq, Eq, Debug)]
pub struct Berry {
    pub translation: Vec2,
}

/// The food counters of a session.
#[derive(Clone, Copy, PartialEq, Eq, Debug)]
pub struct GameData {
    /// How many berries are in play.
    pub num_berries: u64,
    /// How many the spawner fills up to.
    pub max_berries: u64,
}

/// The position, in thousandths, of the whole-unit cell `(x, y)`.
pub open spec fn cell_position(x: int, y: int) -> Vec2 {
    Vec2 { x: clamp_i32(x * 1000) as i32, y: clamp_i32(y * 1000) as i32 }
}

/// Whether `pos` is the position of a cell of the playable area.
pub open spec fn in_playable_area(pos: Vec2, cfg: SimConfig) -> bool {
    exists|x: int, y: int|
        {
            &&& cfg.playable_area_x0 <= x < cfg.playable_area_x1
            &&& cfg.playable_area_y0 <= y < cfg.playable_area_y1
            &&& pos == #[trigger] cell_position(x, y)
        }
}

/// How many berries are missing.
pub open spec fn deficit(data: GameData) -> nat {
    if data.num_berries < data.max_berries {
        (data.max_berries - data.num_berries) as nat
    } else {
        0
    }
}

/// The box that a berry offers to mouths: it reaches the berry's rendered
/// width to either side and its rendered height up and down.
pub open spec fn berry_box(b: Berry, cfg: SimConfig) -> Aabb2d {
    box_around(b.translation, cfg.berry_render_width as int, cfg.berry_render_height as int)
}

/// The position of the whole-unit cell `(x, y)`.
pub fn position_of_cell(x: i32, y: i32) -> (pos: Vec2)
    ensures
        pos == cell_position(x as int, y as int),
{
    Vec2 { x: saturate_i32(x as i128 * 1000), y: saturate_i32(y as i128 * 1000) }
}

/// Draws a position from the cells of the playable area.
pub fn random_position(cfg: &SimConfig) -> (pos: Vec2)
    requires
        cfg.wf(),
    ensures
        in_playable_area(pos, *cfg),
{
    let x: i32 = random_in_range(cfg.playable_area_x0, cfg.playable_area_x1);
    let y: i32 = random_in_range(cfg.playable_area_y0, cfg.playable_area_y1);
    position_of_cell(x, y)
}

impl Berry {
    /// A berry at the given position.
    pub fn new(translation: Vec2) -> (b: Berry)
        ensures
            b.translation == translation,
    {
        Berry { translation }
    }

    /// The box that this berry offers to mouths.
    pub fn bounds(&self, cfg: &SimConfig) -> (b: Aabb2d)
        ensures
            b == berry_box(*self, *cfg),
    {
        Aabb2d::new(self.translation, cfg.berry_render_width, cfg.berry_render_height)
    }
}

/// Fills the berries up: spawns every missing berry at once, each at a
/// random cell of the playable area, and sets the count to the maximum.
pub fn spawn_berries(game_data: &mut GameData, berries: &mut Vec<Berry>, cfg: &SimConfig)
    requires
        cfg.wf(),
    ensures
        final(game_data).num_berries == old(game_data).max_berries,
        final(game_data).max_berries == old(game_data).max_berries,
        final(berries)@.len() == old(berries)@.len() + deficit(*old(game_data)),
        forall|j: int| 0 <= j < old(berries)@.len() ==> final(berries)@[j] == old(berries)@[j],
        forall|j: int|
            old(berries)@.len() <= j < final(berries)@.len() ==> in_playable_area(
                final(berries)@[j].translation,
                *cfg,
            ),
{
    let ghost before = berries@;
    let max: u64 = game_data.max_berries;
    let mut count: u64 = game_data.num_berries;
    while count < max
        invariant
            cfg.wf(),
            deficit(*old(game_data)) > 0 ==> old(game_data).num_berries <= count <= max,
            deficit(*old(game_data)) == 0 ==> count == old(game_data).num_berries,
            max == old(game_data).max_berries,
            berries@.len() == before.len() + (count - old(game_data).num_berries),
            forall|j: int| 0 <= j < before.len() ==> berries@[j] == before[j],
            forall|j: int|
                before.len() <= j < berries@.len() ==> in_playable_area(
                    berries@[j].translation,
                    *cfg,
                ),
        decreases max - count,
    {
        berries.push(Berry { translation: random_position(cfg) });
        count += 1;
    }
    game_data.num_berries = max;
}

} // verus!
