//! A deterministic fixed-point engine for a small two-dimensional ecosystem.
//!
//! Fernworms forage for berries, zyrthids hunt fernworms, and every unit
//! loses fullness as it moves and dies when none is left. The engine owns the
//! state of a session and advances it tick by tick; it draws nothing. Whoever
//! shows the world reads a snapshot of it after each tick.
//!
//! All quantities are integers that count thousandths: a position of
//! `12_500` is twelve and a half units, and a speed of `200_000` is two
//! hundred units per second. A direction, such as the facing of a unit, is a
//! vector of length one million. Time is given in microseconds. Results that
//! leave the range of their type stop at its ends, and quotients are rounded
//! toward zero unless it is said otherwise, so every step is a function of
//! the state before it. The one exception is the place of a new berry or
//! unit, which is drawn at random.
//!
//! One tick runs these steps in this order: every unit moves, turns to face
//! its way and pays for the way with fullness; the berries are filled up;
//! the fernworms and then the zyrthids choose their targets; every velocity
//! is stepped; the fernworms and then the zyrthids eat; the starved are
//! marked; bodies that are too close push each other apart; and the deaths
//! that were queued on the way are applied.

pub mod berry;
pub mod bounding;
pub mod brain;
pub mod clock;
pub mod config;
pub mod fernworm;
pub mod fixed;
pub mod hunger;
pub mod interaction;
pub mod motion;
pub(crate) mod random;
pub mod simulation;
pub mod state;
pub mod unit;
pub mod vector;
pub mod zyrthid;
