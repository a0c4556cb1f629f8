//! HVX power sequencing: the hardware steps of powering the vector unit
//! on, and the state changes requested of it.

use vstd::prelude::*;
use crate::types::ops::ArchVersion;

verus! {

/// Power state of the vector unit.
#[derive(Clone, Copy, Debug, PartialEq, Eq, Structural)]
pub enum HvxState {
    Off,
    On,
}

impl Default for HvxState {
    fn default() -> (r: Self)
        ensures
            r == HvxState::Off,
    {
        HvxState::Off
    }
}

/// Hardware steps of powering the vector unit on.
#[derive(Clone, Copy, Debug, PartialEq, Eq)]
pub enum HvxPowerStep {
    /// Wait until the head switch reports off.
    WaitBhsOff,
    /// Enable the head switch and trigger its update.
    EnableBhs,
    /// Wait until the head switch reports on.
    WaitBhsOn,
    /// Unclamp the I/O and memories.
    UnclampIo,
    /// Power the vector TCM on.
    VtcmPowerOn,
    /// Wait until the vector TCM leaves non-retention sleep.
    WaitVtcmSnret,
    /// Wait until the vector TCM leaves retention sleep.
    WaitVtcmSret,
    /// Release the reset.
    DeassertReset,
    /// Enable the clock.
    EnableClock,
}

/// The power-on sequence, in order.
pub open spec fn spec_poweron_steps() -> Seq<HvxPowerStep> {
    seq![
        HvxPowerStep::WaitBhsOff,
        HvxPowerStep::EnableBhs,
        HvxPowerStep::WaitBhsOn,
        HvxPowerStep::UnclampIo,
        HvxPowerStep::VtcmPowerOn,
        HvxPowerStep::WaitVtcmSnret,
        HvxPowerStep::WaitVtcmSret,
        HvxPowerStep::DeassertReset,
        HvxPowerStep::EnableClock,
    ]
}

/// The power-on sequence for an architecture version (the same for every
/// supported version).
pub fn poweron_steps(arch: ArchVersion) -> (r: Vec<HvxPowerStep>)
    ensures
        r@ == spec_poweron_steps(),
{
    let r = vec![
        HvxPowerStep::WaitBhsOff,
        HvxPowerStep::EnableBhs,
        HvxPowerStep::WaitBhsOn,
        HvxPowerStep::UnclampIo,
        HvxPowerStep::VtcmPowerOn,
        HvxPowerStep::WaitVtcmSnret,
        HvxPowerStep::WaitVtcmSret,
        HvxPowerStep::DeassertReset,
        HvxPowerStep::EnableClock,
    ];
    proof {
        assert(r@ =~= spec_poweron_steps());
    }
    r
}

/// The state to move to from `current` when `target` is requested, or
/// none when already there.
pub fn transition(current: HvxState, target: HvxState) -> (r: Option<HvxState>)
    ensures
        r == (if current == target { None } else { Some(target) }),
{
    if current == target {
        None
    } else {
        Some(target)
    }
}

/// Polling bound for the hardware, in cycles.
pub const HVX_POLL_TIMEOUT: u32 = 1000;


} // verus!
