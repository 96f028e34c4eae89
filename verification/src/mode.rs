//! Display-mode selection for an interactive viewer.
//!
//! The viewer cycles through the macroscopic fields it can render; the
//! solver core only fixes the order of the cycle.

use vstd::prelude::*;

verus! {

/// Which macroscopic field a viewer shows.
#[derive(Clone, Copy, PartialEq, Eq, Structural, Debug)]
pub enum DisplayMode {
    Density,
    Speed,
    Velocity,
    MomentumDensity,
}

/// The mode following `m` in the viewing cycle.
pub open spec fn spec_next_mode(m: DisplayMode) -> DisplayMode {
    match m {
        DisplayMode::Density => DisplayMode::Speed,
        DisplayMode::Speed => DisplayMode::Velocity,
        DisplayMode::Velocity => DisplayMode::MomentumDensity,
        DisplayMode::MomentumDensity => DisplayMode::Density,
    }
}

impl DisplayMode {
    /// Advance to the next mode of the cycle.
    pub fn next(&self) -> (r: DisplayMode)
        ensures
            r == spec_next_mode(*self),
    {
        match *self {
            DisplayMode::Density => DisplayMode::Speed,
            DisplayMode::Speed => DisplayMode::Velocity,
            DisplayMode::Velocity => DisplayMode::MomentumDensity,
            DisplayMode::MomentumDensity => DisplayMode::Density,
        }
    }
}

} // verus!
