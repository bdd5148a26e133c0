//! Game rules of a wave-based zombie arena shooter: wave budgets, spawning,
//! scoring with a kill combo, powerups, and the bookkeeping of the zombie,
//! bullet and powerup collections. Positions, timers and rendering live with
//! the caller; this crate decides everything that is counted.

pub mod horde;
pub mod rules;
pub mod scoring;
pub mod session;
