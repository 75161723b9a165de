//! Window configuration and the fixed update step it implies.
use std::time::Duration;
use vstd::prelude::*;

use crate::pt::Pt;

verus! {

/// The `Duration` of `nanos` nanoseconds.
pub uninterp spec fn duration_from_nanos(nanos: u64) -> Duration;

/// A `Duration` of `nanos` nanoseconds.
///
/// Calls `Duration::from_nanos`; the contract claims only that the result is
/// the `Duration` that function gives for `nanos`.
#[verifier::external_body]
fn make_duration(nanos: u64) -> (d: Duration)
    ensures
        d == duration_from_nanos(nanos),
{
    Duration::from_nanos(nanos)
}

/// Nanoseconds in a second.
pub const NANOS_PER_SEC: u64 = 1_000_000_000;

/// One second divided by `hz`, rounded to the nearest nanosecond.
pub open spec fn fixed_step_nanos(hz: u32) -> int {
    (NANOS_PER_SEC + hz / 2) / (hz as int)
}

/// Configuration of the application window.
#[derive(Debug, Clone)]
pub struct WindowConfig {
    pub title: String,
    /// Logical width of the window.
    pub width: Pt,
    /// Logical height of the window.
    pub height: Pt,
    pub resizable: bool,
    pub fullscreen: bool,
    /// Whether the window background is transparent.
    pub transparent: bool,
    /// Fixed-frequency game logic updates per second; rendering follows the
    /// display on its own.
    pub update_hz: u32,
}

/// Bit pattern of the `f32` value 800.
pub const DEFAULT_WIDTH_BITS: u32 = 0x4448_0000;

/// Bit pattern of the `f32` value 600.
pub const DEFAULT_HEIGHT_BITS: u32 = 0x4416_0000;

impl Default for WindowConfig {
    /// An 800 x 600 resizable, windowed, opaque window titled "spot" that
    /// updates 60 times per second.
    fn default() -> (c: Self)
        ensures
            c.title@ == "spot"@,
            c.width.bits_of() == DEFAULT_WIDTH_BITS,
            c.height.bits_of() == DEFAULT_HEIGHT_BITS,
            c.resizable && !c.fullscreen && !c.transparent,
            c.update_hz == 60,
    {
        WindowConfig {
            title: "spot".to_owned(),
            width: Pt::from_bits(DEFAULT_WIDTH_BITS),
            height: Pt::from_bits(DEFAULT_HEIGHT_BITS),
            resizable: true,
            fullscreen: false,
            transparent: false,
            update_hz: 60,
        }
    }
}

impl WindowConfig {
    /// Length of one fixed update, in nanoseconds: one second divided by
    /// `update_hz`, rounded to the nearest nanosecond. A rate of 0, or one so
    /// high that the step would round to nothing, is a configuration error.
    pub fn fixed_update_step_nanos(&self) -> (n: u64)
        requires
            0 < self.update_hz < 2 * NANOS_PER_SEC,
        ensures
            n == fixed_step_nanos(self.update_hz),
            n >= 1,
    {
        let hz = self.update_hz as u64;
        let total = NANOS_PER_SEC + hz / 2;
        assert(total >= hz);
        assert(total / hz >= 1) by (nonlinear_arith)
            requires
                total >= hz,
                hz > 0,
        ;
        total / hz
    }

    /// Length of one fixed update (see `fixed_update_step_nanos`).
    pub fn fixed_update_step(&self) -> (d: Duration)
        requires
            0 < self.update_hz < 2 * NANOS_PER_SEC,
        ensures
            d == duration_from_nanos(fixed_step_nanos(self.update_hz) as u64),
    {
        make_duration(self.fixed_update_step_nanos())
    }
}

} // verus!
