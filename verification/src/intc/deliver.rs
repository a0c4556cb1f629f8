//! What to do with a thread when an interrupt is delivered to it.

use vstd::prelude::*;
use crate::types::vm::ThreadStatus;

verus! {

/// Action the caller takes after trying to deliver an interrupt.
#[derive(Debug, PartialEq, Eq)]
pub enum DeliverAction {
    /// Thread woke from wait; enqueue it on the ready list.
    Enqueue,
    /// Thread is running; interrupt its hardware thread.
    SendIpi(u8),
    /// Thread was blocked; cancel the block and enqueue it.
    CancelBlockAndEnqueue,
    /// Nothing to do now.
    Nothing,
    /// Thread is dead; delivery failed.
    Dead,
}

/// Delivery action for a thread in state `status` running on `hthread`,
/// with guest interrupts enabled or not.
pub open spec fn spec_deliver_action(status: ThreadStatus, hthread: u8, ie_enabled: bool) -> DeliverAction {
    match status {
        ThreadStatus::VmWait => DeliverAction::Enqueue,
        ThreadStatus::Running => if ie_enabled {
            DeliverAction::SendIpi(hthread)
        } else {
            DeliverAction::Nothing
        },
        ThreadStatus::IntBlocked | ThreadStatus::Blocked => if ie_enabled {
            DeliverAction::CancelBlockAndEnqueue
        } else {
            DeliverAction::Nothing
        },
        ThreadStatus::Ready => DeliverAction::Nothing,
        ThreadStatus::Dead => DeliverAction::Dead,
    }
}

/// Decide how to deliver an interrupt to a thread.
pub fn deliver_action(status: ThreadStatus, hthread: u8, ie_enabled: bool) -> (r: DeliverAction)
    ensures
        r == spec_deliver_action(status, hthread, ie_enabled),
{
    match status {
        ThreadStatus::VmWait => DeliverAction::Enqueue,
        ThreadStatus::Running => {
            if ie_enabled {
                DeliverAction::SendIpi(hthread)
            } else {
                DeliverAction::Nothing
            }
        },
        ThreadStatus::IntBlocked => {
            if ie_enabled {
                DeliverAction::CancelBlockAndEnqueue
            } else {
                DeliverAction::Nothing
            }
        },
        ThreadStatus::Blocked => {
            if ie_enabled {
                DeliverAction::CancelBlockAndEnqueue
            } else {
                DeliverAction::Nothing
            }
        },
        ThreadStatus::Ready => DeliverAction::Nothing,
        ThreadStatus::Dead => DeliverAction::Dead,
    }
}

/// Delivering an interrupt wakes a waiting thread, interrupts a running
/// one and cancels the block of a blocked one (in an interrupt wait or
/// otherwise) when guest interrupts are enabled; a dead thread refuses
/// it; otherwise nothing happens.
pub proof fn law_deliver_action(status: ThreadStatus, hthread: u8, ie_enabled: bool)
    ensures
        status == ThreadStatus::VmWait ==> spec_deliver_action(status, hthread, ie_enabled) == DeliverAction::Enqueue,
        status == ThreadStatus::Dead ==> spec_deliver_action(status, hthread, ie_enabled) == DeliverAction::Dead,
        status == ThreadStatus::Running && ie_enabled ==> spec_deliver_action(status, hthread, ie_enabled)
            == DeliverAction::SendIpi(hthread),
        (status == ThreadStatus::IntBlocked || status == ThreadStatus::Blocked) && ie_enabled ==> spec_deliver_action(
            status,
            hthread,
            ie_enabled,
        ) == DeliverAction::CancelBlockAndEnqueue,
        status != ThreadStatus::VmWait && status != ThreadStatus::Dead && !ie_enabled ==> spec_deliver_action(
            status,
            hthread,
            ie_enabled,
        ) == DeliverAction::Nothing,
        status == ThreadStatus::Ready ==> spec_deliver_action(status, hthread, ie_enabled) == DeliverAction::Nothing,
{
}

/// Whether a thread has a deliverable per-CPU interrupt: guest interrupts
/// enabled and some interrupt both pending and enabled.
pub fn has_deliverable_interrupts(cpuint_pending: u16, cpuint_enabled: u16, ie_enabled: bool) -> (r: bool)
    ensures
        r == (ie_enabled && (cpuint_pending & cpuint_enabled) != 0),
{
    if !ie_enabled {
        return false;
    }
    (cpuint_pending & cpuint_enabled) != 0
}

} // verus!
