//! Fixed parameters of the machine: display geometry, timer pacing and the
//! depth of the rewind history.

use vstd::prelude::*;

verus! {

/// Width of the frame buffer in pixels.
pub const DISPLAY_WIDTH: usize = 64;

/// Height of the frame buffer in pixels.
pub const DISPLAY_HEIGHT: usize = 32;

/// Number of CPU cycles that must elapse between two timer decrements.
pub const CPU_CYCLES_PER_TIMER_CYCLE: u8 = 8;

/// Maximum number of past machine states kept for rewinding.
pub const MAX_SAVED_STATES: usize = 250;

} // verus!
