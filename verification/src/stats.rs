//! Player-visible state that scripts mutate.
//!
//! Health and stamina are fixed-point values in micro-units (100 points is
//! `100 * FIXED_SCALE`); gold is a plain integer count.

use vstd::prelude::*;

verus! {

/// The player's stats, as the HUD shows them and scripts change them.
pub struct PlayerStats {
    /// Health in micro-units; nominally 0 to 100 points.  Scripts never
    /// clamp it.
    pub health: i64,
    /// Stamina in micro-units; scripts clamp additions at 100 points.
    pub stamina: i64,
    /// Gold count.
    pub gold: i64,
}

impl Default for PlayerStats {
    /// Full health, half stamina, no gold.
    fn default() -> (r: PlayerStats)
        ensures
            r.health == 100000000,
            r.stamina == 50000000,
            r.gold == 0,
    {
        PlayerStats { health: 100000000, stamina: 50000000, gold: 0 }
    }
}

/// An actor that combat scripts can damage.
pub struct Actor {
    /// What kind of actor this is, for feedback messages.
    pub actor_type: String,
    /// Health in micro-units.
    pub health: i64,
}

} // verus!
