//! Thread creation: parameter checks and the initial register state of a
//! new thread.

use vstd::prelude::*;
use crate::types::consts::MAX_PRIO;
use crate::types::vm::{ThreadStatus, VmId};

verus! {

/// Parameters of a thread creation request.
pub struct CreateParams {
    /// Entry point; must be 4-byte aligned.
    pub pc: u32,
    /// Stack pointer; must be 8-byte aligned.
    pub sp: u32,
    /// First argument (r0).
    pub arg1: u32,
    /// Priority, 0 is best; at most `MAX_PRIO`.
    pub prio: u32,
}

/// Why a thread creation request was refused.
#[derive(Clone, Copy, Debug, PartialEq, Eq)]
pub enum CreateError {
    /// Priority exceeds `MAX_PRIO`.
    BadPriority,
    /// Priority is better than the VM may use.
    PriorityTooHigh,
    /// Stack pointer not 8-byte aligned.
    BadSp,
    /// Entry point not 4-byte aligned.
    BadPc,
    /// No free thread context.
    NoFreeThread,
}

/// The verdict on a creation request, checks taken in order: priority
/// range, priority floor of the VM, stack alignment, entry alignment.
pub open spec fn create_verdict(pc: u32, sp: u32, prio: u32, bestprio: u32) -> Result<(), CreateError> {
    if prio > MAX_PRIO {
        Err(CreateError::BadPriority)
    } else if prio < bestprio {
        Err(CreateError::PriorityTooHigh)
    } else if sp % 8 != 0 {
        Err(CreateError::BadSp)
    } else if pc % 4 != 0 {
        Err(CreateError::BadPc)
    } else {
        Ok(())
    }
}

/// Check a creation request against the VM's best allowed priority.
pub fn validate_create(params: &CreateParams, bestprio: u32) -> (r: Result<(), CreateError>)
    ensures
        r == create_verdict(params.pc, params.sp, params.prio, bestprio),
{
    if params.prio > MAX_PRIO {
        return Err(CreateError::BadPriority);
    }
    if params.prio < bestprio {
        return Err(CreateError::PriorityTooHigh);
    }
    let sp = params.sp;
    let pc = params.pc;
    proof {
        crate::bits::lemma_u32_facts(sp, 0, 0, 0);
        crate::bits::lemma_u32_facts(pc, 0, 0, 0);
    }
    if sp & 0x7 != 0 {
        return Err(CreateError::BadSp);
    }
    if pc & 0x3 != 0 {
        return Err(CreateError::BadPc);
    }
    Ok(())
}

/// Initial state of a new thread.
pub struct ThreadInit {
    pub prio: u8,
    pub base_prio: u8,
    pub elr: u32,
    pub sp: u32,
    pub arg: u32,
    pub status: ThreadStatus,
    pub vmstatus: u8,
}

impl ThreadInit {
    /// The initial state for a request: priority (truncated to a byte),
    /// entry, stack and argument taken over, ready to run, VM status clear.
    pub fn from_params(params: &CreateParams) -> (r: Self)
        ensures
            r.prio == params.prio as u8,
            r.base_prio == params.prio as u8,
            r.elr == params.pc,
            r.sp == params.sp,
            r.arg == params.arg1,
            r.status == ThreadStatus::Ready,
            r.vmstatus == 0,
    {
        Self {
            prio: params.prio as u8,
            base_prio: params.prio as u8,
            elr: params.pc,
            sp: params.sp,
            arg: params.arg1,
            status: ThreadStatus::Ready,
            vmstatus: 0,
        }
    }
}

/// Identity of a new thread of VM `vmidx` on virtual CPU `cpuidx`.
pub fn make_thread_id(vmidx: u8, cpuidx: u16) -> (r: VmId)
    ensures
        r.spec_vmidx() == vmidx,
        r.spec_cpuidx() == cpuidx,
        r.spec_vint() == 0,
{
    VmId::new(vmidx, cpuidx, 0)
}

/// A request that passes the checks keeps its priority whole in the new
/// thread: the byte it is stored in holds it.
pub proof fn law_accepted_priority_fits(pc: u32, sp: u32, prio: u32, bestprio: u32)
    requires
        create_verdict(pc, sp, prio, bestprio) is Ok,
    ensures
        prio as u8 == prio,
        bestprio <= prio <= MAX_PRIO,
        sp % 8 == 0,
        pc % 4 == 0,
{
}

} // verus!
