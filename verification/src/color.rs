//! Strengths of colours and light.

use vstd::prelude::*;

verus! {

/// How many units make a full level.
pub const LEVEL_ONE: i64 = 4_294_967_296;

/// The strength of a colour or of the light, in units.
#[derive(Clone, Copy, Debug, PartialEq, Eq, Structural)]
pub struct Level {
    pub units: i64,
}

#[derive(Clone, Copy, Debug, PartialEq, Eq, Structural)]
pub struct Rgb {
    pub red: Level,
    pub green: Level,
    pub blue: Level,
}

#[derive(Clone, Copy, Debug, PartialEq, Eq, Structural)]
pub struct Rgba {
    pub red: Level,
    pub green: Level,
    pub blue: Level,
    pub alpha: Level,
}

/// `level` brought between nothing and the full level.
pub open spec fn clamped_level(level: Level) -> Level {
    if level.units < 0 {
        Level { units: 0 }
    } else if level.units > LEVEL_ONE {
        Level { units: LEVEL_ONE }
    } else {
        level
    }
}

/// Brings a level between nothing and the full level.
pub fn clamp_level(level: Level) -> (clamped: Level)
    ensures
        clamped == clamped_level(level),
{
    if level.units < 0 {
        Level { units: 0 }
    } else if level.units > LEVEL_ONE {
        Level { units: LEVEL_ONE }
    } else {
        level
    }
}

/// A level below nothing becomes nothing, one above the full level the full level, and any other
/// stays as it is.
pub proof fn law_clamped_level_stays_in_range(level: Level)
    ensures
        0 <= clamped_level(level).units <= 4_294_967_296,
        level.units <= 0 ==> clamped_level(level).units == 0,
        level.units >= 4_294_967_296 ==> clamped_level(level).units == 4_294_967_296,
        0 <= level.units <= 4_294_967_296 ==> clamped_level(level).units == level.units,
{
}

} // verus!
