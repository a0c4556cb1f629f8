//! Checks on a query of another thread's saved state.

use vstd::prelude::*;
use crate::types::vm::VmId;

verus! {

/// Why a state query was refused.
#[derive(Clone, Copy, Debug, PartialEq, Eq)]
pub enum StateError {
    /// The target thread belongs to another VM.
    WrongVm,
    /// The 8-byte read would leave the context.
    BadOffset,
    /// The target CPU index does not exist.
    BadCpuIdx,
}

/// Verdict on a query of the 8 bytes at `offset` in the context of
/// `target`, checks taken in order: same VM, CPU index in range, read
/// inside the context.
pub open spec fn state_verdict(caller_vmidx: u8, target: VmId, offset: u32, context_size: u32, max_cpus: u16) -> Result<
    (),
    StateError,
> {
    if target.spec_vmidx() != caller_vmidx {
        Err(StateError::WrongVm)
    } else if target.spec_cpuidx() >= max_cpus {
        Err(StateError::BadCpuIdx)
    } else if offset > (if context_size >= 8 { context_size - 8 } else { 0 }) {
        Err(StateError::BadOffset)
    } else {
        Ok(())
    }
}

/// Check a query by a thread of VM `caller_vmidx`.
pub fn validate_state_query(caller_vmidx: u8, target_id: VmId, offset: u32, context_size: u32, max_cpus: u16) -> (r: Result<
    (),
    StateError,
>)
    ensures
        r == state_verdict(caller_vmidx, target_id, offset, context_size, max_cpus),
{
    if target_id.vmidx() != caller_vmidx {
        return Err(StateError::WrongVm);
    }
    if target_id.cpuidx() >= max_cpus {
        return Err(StateError::BadCpuIdx);
    }
    if offset > context_size.saturating_sub(8) {
        return Err(StateError::BadOffset);
    }
    Ok(())
}

/// A query that is let through reads 8 bytes inside the context, of a
/// CPU that exists in the caller's own VM.
pub proof fn law_query_in_bounds(caller_vmidx: u8, target: VmId, offset: u32, context_size: u32, max_cpus: u16)
    requires
        state_verdict(caller_vmidx, target, offset, context_size, max_cpus) is Ok,
        context_size >= 8,
    ensures
        offset + 8 <= context_size,
        target.spec_vmidx() == caller_vmidx,
        target.spec_cpuidx() < max_cpus,
{
}

} // verus!
