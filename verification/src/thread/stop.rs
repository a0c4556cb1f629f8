//! What follows the stop of a thread.

use vstd::prelude::*;

verus! {

/// What the caller does after a thread stopped.
#[derive(Clone, Copy, Debug, PartialEq, Eq)]
pub enum StopAction {
    /// Post the child interrupt to the parent VM.
    SignalParent,
    /// Nothing more.
    NoSignal,
    /// The VM has no CPU left and no parent: free it.
    DeallocateVm,
}

/// The action after a stop with exit `status`, `remaining_cpus` left in
/// the VM: a failing exit or the last CPU is reported to the parent; with
/// no parent, a VM without CPUs is freed.
pub open spec fn spec_stop_action(status: i32, remaining_cpus: u32, has_parent: bool) -> StopAction {
    if (status != 0 || remaining_cpus == 0) && has_parent {
        StopAction::SignalParent
    } else if remaining_cpus == 0 && !has_parent {
        StopAction::DeallocateVm
    } else {
        StopAction::NoSignal
    }
}

/// With a parent, the parent is signalled exactly when the exit failed or
/// the VM has no CPU left; without one, the VM is freed exactly when it
/// has no CPU left, whatever the exit status; otherwise nothing happens.
pub proof fn law_stop_action(status: i32, remaining_cpus: u32, has_parent: bool)
    ensures
        has_parent ==> (spec_stop_action(status, remaining_cpus, has_parent) == StopAction::SignalParent <==> (status != 0
            || remaining_cpus == 0)),
        !has_parent ==> (spec_stop_action(status, remaining_cpus, has_parent) == StopAction::DeallocateVm <==> remaining_cpus
            == 0),
        spec_stop_action(status, remaining_cpus, has_parent) == StopAction::SignalParent ==> has_parent,
        spec_stop_action(status, remaining_cpus, has_parent) == StopAction::DeallocateVm ==> !has_parent,
        spec_stop_action(status, remaining_cpus, has_parent) == StopAction::NoSignal <==> remaining_cpus != 0 && (status == 0
            || !has_parent),
{
}

pub fn stop_action(status: i32, remaining_cpus: u32, has_parent: bool) -> (r: StopAction)
    ensures
        r == spec_stop_action(status, remaining_cpus, has_parent),
{
    if status != 0 || remaining_cpus == 0 {
        if has_parent {
            StopAction::SignalParent
        } else if remaining_cpus == 0 {
            StopAction::DeallocateVm
        } else {
            StopAction::NoSignal
        }
    } else {
        StopAction::NoSignal
    }
}

} // verus!
