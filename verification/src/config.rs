//! The named constants of a simulation.

use vstd::prelude::*;
use crate::unit::UnitType;

verus! {

/// Every tunable of the engine. Lengths, speeds, fullness and rates count
/// thousandths; the playable area is given in whole units, and random
/// positions fall on whole units inside it.
#[derive(Clone, Copy, PartialEq, Eq, Debug, Structural)]
pub struct SimConfig {
    /// How many fernworms a session starts with.
    pub num_fernworms: u32,
    /// How many zyrthids a session starts with.
    pub num_zyrthids: u32,
    /// How many berries the spawner keeps in play.
    pub max_berries: u64,
    /// The playable area: `x0 <= x < x1` and `y0 <= y < y1`, in whole units.
    pub playable_area_x0: i32,
    pub playable_area_x1: i32,
    pub playable_area_y0: i32,
    pub playable_area_y1: i32,
    pub fernworm_render_width: u32,
    pub fernworm_render_height: u32,
    pub zyrthid_render_width: u32,
    pub zyrthid_render_height: u32,
    pub berry_render_width: u32,
    pub berry_render_height: u32,
    /// Half the side of a zyrthid's square mouth box.
    pub zyrthid_mouth_half_size: u32,
    /// What a fernworm gains from one berry.
    pub berry_fullness_gain: u32,
    /// What a zyrthid gains from one fernworm.
    pub fernworm_fullness_gain: u32,
    pub fernworm_max_speed: u32,
    pub fernworm_max_acceleration: u32,
    pub fernworm_max_fullness: u32,
    /// Fullness a fernworm loses per unit of distance.
    pub fernworm_drain_per_unit_traveled: u32,
    pub zyrthid_max_speed: u32,
    pub zyrthid_max_acceleration: u32,
    pub zyrthid_max_fullness: u32,
    /// Fullness a zyrthid loses per unit of distance.
    pub zyrthid_drain_per_unit_traveled: u32,
    /// Two bodies closer than this push each other apart.
    pub collision_radius: u32,
    /// The strength of that push.
    pub force_constant: u32,
    /// How much of the predicted lead a hunter steers by; 800 is eight tenths.
    pub stability_constant: u32,
    /// Whether being eaten leaves a corpse. Starving always does, also for a
    /// unit that was eaten in the same tick; no unit leaves two corpses.
    pub predation_leaves_corpse: bool,
}

impl SimConfig {
    /// The playable area is not empty, so a random position can be drawn.
    pub open spec fn wf(self) -> bool {
        &&& self.playable_area_x0 < self.playable_area_x1
        &&& self.playable_area_y0 < self.playable_area_y1
    }

    /// Whether the configuration is well-formed.
    pub fn is_valid(&self) -> (r: bool)
        ensures
            r == self.wf(),
    {
        self.playable_area_x0 < self.playable_area_x1 && self.playable_area_y0
            < self.playable_area_y1
    }

    /// The rendered width of a unit of the given kind.
    pub open spec fn spec_render_width(&self, kind: UnitType) -> u32 {
        match kind {
            UnitType::Fernworm => self.fernworm_render_width,
            UnitType::Zyrthid => self.zyrthid_render_width,
        }
    }

    /// The rendered height of a unit of the given kind.
    pub open spec fn spec_render_height(&self, kind: UnitType) -> u32 {
        match kind {
            UnitType::Fernworm => self.fernworm_render_height,
            UnitType::Zyrthid => self.zyrthid_render_height,
        }
    }

    /// How far ahead of its centre a unit's mouth lies: a third of its height.
    pub open spec fn spec_mouth_offset(&self, kind: UnitType) -> u32 {
        self.spec_render_height(kind) / 3
    }

    /// Half the width of the mouth box: two thirds of a fernworm's width.
    pub open spec fn spec_mouth_half_width(&self, kind: UnitType) -> u32 {
        match kind {
            UnitType::Fernworm => (2 * self.fernworm_render_width / 3) as u32,
            UnitType::Zyrthid => self.zyrthid_mouth_half_size,
        }
    }

    /// Half the height of the mouth box: an eighth of a fernworm's height.
    pub open spec fn spec_mouth_half_height(&self, kind: UnitType) -> u32 {
        match kind {
            UnitType::Fernworm => self.fernworm_render_height / 8,
            UnitType::Zyrthid => self.zyrthid_mouth_half_size,
        }
    }

    /// The rendered width of a unit of the given kind.
    #[verifier::when_used_as_spec(spec_render_width)]
    pub fn render_width(&self, kind: UnitType) -> (r: u32)
        ensures
            r == self.spec_render_width(kind),
    {
        match kind {
            UnitType::Fernworm => self.fernworm_render_width,
            UnitType::Zyrthid => self.zyrthid_render_width,
        }
    }

    /// The rendered height of a unit of the given kind.
    #[verifier::when_used_as_spec(spec_render_height)]
    pub fn render_height(&self, kind: UnitType) -> (r: u32)
        ensures
            r == self.spec_render_height(kind),
    {
        match kind {
            UnitType::Fernworm => self.fernworm_render_height,
            UnitType::Zyrthid => self.zyrthid_render_height,
        }
    }

    /// How far ahead of its centre a unit's mouth lies.
    #[verifier::when_used_as_spec(spec_mouth_offset)]
    pub fn mouth_offset(&self, kind: UnitType) -> (r: u32)
        ensures
            r == self.spec_mouth_offset(kind),
    {
        self.render_height(kind) / 3
    }

    /// Half the width of the mouth box of a unit of the given kind.
    #[verifier::when_used_as_spec(spec_mouth_half_width)]
    pub fn mouth_half_width(&self, kind: UnitType) -> (r: u32)
        ensures
            r == self.spec_mouth_half_width(kind),
    {
        match kind {
            UnitType::Fernworm => ((2 * (self.fernworm_render_width as u64)) / 3) as u32,
            UnitType::Zyrthid => self.zyrthid_mouth_half_size,
        }
    }

    /// Half the height of the mouth box of a unit of the given kind.
    #[verifier::when_used_as_spec(spec_mouth_half_height)]
    pub fn mouth_half_height(&self, kind: UnitType) -> (r: u32)
        ensures
            r == self.spec_mouth_half_height(kind),
    {
        match kind {
            UnitType::Fernworm => self.fernworm_render_height / 8,
            UnitType::Zyrthid => self.zyrthid_mouth_half_size,
        }
    }
}

impl Default for SimConfig {
    /// The standard session: ten fernworms, two zyrthids and eight berries on
    /// a field of 1200 by 640 units.
    fn default() -> (c: Self)
        ensures
            c.wf(),
            c == standard_config(),
    {
        SimConfig {
            num_fernworms: 10,
            num_zyrthids: 2,
            max_berries: 8,
            playable_area_x0: -600,
            playable_area_x1: 600,
            playable_area_y0: -320,
            playable_area_y1: 320,
            fernworm_render_width: 16_000,
            fernworm_render_height: 32_000,
            zyrthid_render_width: 24_000,
            zyrthid_render_height: 48_000,
            berry_render_width: 8_000,
            berry_render_height: 8_000,
            zyrthid_mouth_half_size: 3_000,
            berry_fullness_gain: 20_000,
            fernworm_fullness_gain: 100_000,
            fernworm_max_speed: 200_000,
            fernworm_max_acceleration: 1_000_000,
            fernworm_max_fullness: 100_000,
            fernworm_drain_per_unit_traveled: 125,
            zyrthid_max_speed: 150_000,
            zyrthid_max_acceleration: 1_000_000,
            zyrthid_max_fullness: 200_000,
            zyrthid_drain_per_unit_traveled: 100,
            collision_radius: 40_000,
            force_constant: 500_000_000,
            stability_constant: 800,
            predation_leaves_corpse: false,
        }
    }
}

/// The values of the standard session.
pub open spec fn standard_config() -> SimConfig {
    SimConfig {
        num_fernworms: 10,
        num_zyrthids: 2,
        max_berries: 8,
        playable_area_x0: -600i32,
        playable_area_x1: 600,
        playable_area_y0: -320i32,
        playable_area_y1: 320,
        fernworm_render_width: 16_000,
        fernworm_render_height: 32_000,
        zyrthid_render_width: 24_000,
        zyrthid_render_height: 48_000,
        berry_render_width: 8_000,
        berry_render_height: 8_000,
        zyrthid_mouth_half_size: 3_000,
        berry_fullness_gain: 20_000,
        fernworm_fullness_gain: 100_000,
        fernworm_max_speed: 200_000,
        fernworm_max_acceleration: 1_000_000,
        fernworm_max_fullness: 100_000,
        fernworm_drain_per_unit_traveled: 125,
        zyrthid_max_speed: 150_000,
        zyrthid_max_acceleration: 1_000_000,
        zyrthid_max_fullness: 200_000,
        zyrthid_drain_per_unit_traveled: 100,
        collision_radius: 40_000,
        force_constant: 500_000_000,
        stability_constant: 800,
        predation_leaves_corpse: false,
    }
}

} // verus!
