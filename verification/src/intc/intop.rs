//! Dispatch of virtual interrupt controller operations to the per-CPU or
//! the shared state, by interrupt number.

use vstd::prelude::*;
use crate::intc::percpu::CpuIntState;
use crate::intc::shared::SharedIntState;
use crate::types::consts::PERCPU_INTERRUPTS;
use crate::types::ops::IntOp;

verus! {

/// Result of an interrupt operation.
#[derive(Debug, PartialEq, Eq)]
pub enum IntOpResult {
    /// Value returned to the guest.
    Ret(i32),
    /// The operation failed.
    Fail,
    /// The interrupt must be delivered to this CPU.
    Deliver(u32),
}

/// Result for a per-CPU operation that may make an interrupt deliverable.
pub open spec fn local_result(deliver: bool, cpu: u32) -> IntOpResult {
    if deliver {
        IntOpResult::Deliver(cpu)
    } else {
        IntOpResult::Ret(0)
    }
}

/// Result for a shared operation that names a target CPU or -1.
pub open spec fn shared_result(target: i32) -> IntOpResult {
    if target >= 0 {
        IntOpResult::Deliver(target as u32)
    } else {
        IntOpResult::Ret(0)
    }
}

/// Shared interrupt number of a global interrupt number.
pub open spec fn shint(intno: u32) -> u32 {
    (intno - PERCPU_INTERRUPTS) as u32
}

/// What `intop_dispatch` does for each operation: per-CPU interrupts
/// (below `PERCPU_INTERRUPTS`) act on `c0`, the others on `s0` with the
/// number shifted down; GET and PEEK look at the per-CPU state first.
pub open spec fn dispatches(
    c0: CpuIntState,
    c1: CpuIntState,
    s0: SharedIntState,
    s1: SharedIntState,
    op: IntOp,
    intno: u32,
    cpu: u32,
    r: IntOpResult,
) -> bool {
    let low = intno < PERCPU_INTERRUPTS;
    match op {
        IntOp::Nop => c1 == c0 && s1 == s0 && r == IntOpResult::Ret(0),
        IntOp::GlobEn => if low {
            s1 == s0 && exists|b: bool| #[trigger] CpuIntState::enables(c0, c1, intno, b) && r == local_result(b, cpu)
        } else {
            c1 == c0 && exists|t: i32| #[trigger] SharedIntState::enables(s0, s1, shint(intno), t) && r == shared_result(t)
        },
        IntOp::GlobDis => r == IntOpResult::Ret(0) && if low {
            s1 == s0 && CpuIntState::disables(c0, c1, intno)
        } else {
            c1 == c0 && SharedIntState::disables(s0, s1, shint(intno))
        },
        IntOp::LocEn => if low {
            s1 == s0 && exists|b: bool| #[trigger] CpuIntState::local_enables(c0, c1, intno, b) && r == local_result(b, cpu)
        } else {
            c1 == c0 && exists|t: i32| #[trigger] SharedIntState::local_enables(s0, s1, shint(intno), cpu, t) && r == shared_result(t)
        },
        IntOp::LocDis => r == IntOpResult::Ret(0) && if low {
            s1 == s0 && CpuIntState::local_disables(c0, c1, intno)
        } else {
            c1 == c0 && SharedIntState::local_disables(s0, s1, shint(intno), cpu)
        },
        IntOp::Affinity => c1 == c0 && if low {
            s1 == s0 && r == IntOpResult::Ret(-1i32)
        } else {
            SharedIntState::sets_affinity(s0, s1, shint(intno), cpu) && r == IntOpResult::Ret(0)
        },
        IntOp::Get => if c0.deliverable() != 0 {
            s1 == s0 && exists|g: i32| #[trigger] CpuIntState::gets(c0, c1, g) && r == IntOpResult::Ret(g)
        } else {
            c1 == c0 && exists|g: i32|
                #[trigger] SharedIntState::gets(s0, s1, cpu, PERCPU_INTERRUPTS, g) && r == IntOpResult::Ret(
                    if g >= 0 { g } else { -1i32 },
                )
        },
        IntOp::Peek => c1 == c0 && s1 == s0 && if c0.visible() != 0 {
            exists|p: i32| #[trigger] CpuIntState::lowest_or_none(c0.visible(), p) && r == IntOpResult::Ret(p)
        } else {
            exists|p: i32| #[trigger] s0.peeks(cpu, PERCPU_INTERRUPTS, p) && r == IntOpResult::Ret(
                if p >= 0 { p } else { -1i32 },
            )
        },
        IntOp::Status => c1 == c0 && s1 == s0 && r == IntOpResult::Ret(
            if low {
                c0.spec_status(intno) as i32
            } else {
                s0.spec_status(shint(intno), cpu) as i32
            },
        ),
        IntOp::Post => if low {
            s1 == s0 && exists|b: bool| #[trigger] CpuIntState::posts(c0, c1, intno, b) && r == local_result(b, cpu)
        } else {
            c1 == c0 && exists|t: i32| #[trigger] SharedIntState::posts(s0, s1, shint(intno), t) && r == shared_result(t)
        },
        IntOp::Clear => if low {
            s1 == s0 && exists|b: bool| #[trigger] CpuIntState::clears(c0, c1, intno, b) && r == IntOpResult::Ret(
                if b { 1i32 } else { 0i32 },
            )
        } else {
            c1 == c0 && exists|b: bool| #[trigger] SharedIntState::clears(s0, s1, shint(intno), b) && r == IntOpResult::Ret(
                if b { 1i32 } else { 0i32 },
            )
        },
    }
}

/// Carry out interrupt operation `op` on interrupt `intno` for `cpu`.
pub fn intop_dispatch(
    cpu_state: &mut CpuIntState,
    shared: &mut SharedIntState,
    op: IntOp,
    intno: u32,
    cpu: u32,
) -> (r: IntOpResult)
    requires
        old(shared).wf(),
    ensures
        final(shared).wf(),
        dispatches(*old(cpu_state), *final(cpu_state), *old(shared), *final(shared), op, intno, cpu, r),
{
    match op {
        IntOp::Nop => IntOpResult::Ret(0),
        IntOp::GlobEn => {
            if intno < PERCPU_INTERRUPTS {
                let needs_deliver = cpu_state.enable(intno);
                if needs_deliver {
                    IntOpResult::Deliver(cpu)
                } else {
                    IntOpResult::Ret(0)
                }
            } else {
                let target = shared.enable(intno - PERCPU_INTERRUPTS);
                proof {
                    assert(SharedIntState::enables(*old(shared), *shared, shint(intno), target));
                }
                if target >= 0 {
                    IntOpResult::Deliver(target as u32)
                } else {
                    IntOpResult::Ret(0)
                }
            }
        },
        IntOp::GlobDis => {
            if intno < PERCPU_INTERRUPTS {
                cpu_state.disable(intno);
            } else {
                shared.disable(intno - PERCPU_INTERRUPTS);
            }
            IntOpResult::Ret(0)
        },
        IntOp::LocEn => {
            if intno < PERCPU_INTERRUPTS {
                let needs_deliver = cpu_state.local_enable(intno);
                if needs_deliver {
                    IntOpResult::Deliver(cpu)
                } else {
                    IntOpResult::Ret(0)
                }
            } else {
                let target = shared.local_enable(intno - PERCPU_INTERRUPTS, cpu);
                proof {
                    assert(SharedIntState::local_enables(*old(shared), *shared, shint(intno), cpu, target));
                }
                if target >= 0 {
                    IntOpResult::Deliver(target as u32)
                } else {
                    IntOpResult::Ret(0)
                }
            }
        },
        IntOp::LocDis => {
            if intno < PERCPU_INTERRUPTS {
                cpu_state.local_disable(intno);
            } else {
                shared.local_disable(intno - PERCPU_INTERRUPTS, cpu);
            }
            IntOpResult::Ret(0)
        },
        IntOp::Affinity => {
            if intno < PERCPU_INTERRUPTS {
                IntOpResult::Ret(-1i32)
            } else {
                shared.set_affinity(intno - PERCPU_INTERRUPTS, cpu);
                IntOpResult::Ret(0)
            }
        },
        IntOp::Get => {
            let cpuint = cpu_state.get();
            if cpuint >= 0 {
                return IntOpResult::Ret(cpuint);
            }
            let shint = shared.get(cpu, PERCPU_INTERRUPTS);
            if shint >= 0 {
                return IntOpResult::Ret(shint);
            }
            IntOpResult::Ret(-1i32)
        },
        IntOp::Peek => {
            let cpuint = cpu_state.peek();
            if cpuint >= 0 {
                return IntOpResult::Ret(cpuint);
            }
            let shint = shared.peek(cpu, PERCPU_INTERRUPTS);
            if shint >= 0 {
                return IntOpResult::Ret(shint);
            }
            IntOpResult::Ret(-1i32)
        },
        IntOp::Status => {
            if intno < PERCPU_INTERRUPTS {
                IntOpResult::Ret(cpu_state.status(intno) as i32)
            } else {
                IntOpResult::Ret(shared.status(intno - PERCPU_INTERRUPTS, cpu) as i32)
            }
        },
        IntOp::Post => {
            if intno < PERCPU_INTERRUPTS {
                let needs_deliver = cpu_state.post(intno);
                if needs_deliver {
                    IntOpResult::Deliver(cpu)
                } else {
                    IntOpResult::Ret(0)
                }
            } else {
                let target = shared.post(intno - PERCPU_INTERRUPTS);
                proof {
                    assert(SharedIntState::posts(*old(shared), *shared, shint(intno), target));
                }
                if target >= 0 {
                    IntOpResult::Deliver(target as u32)
                } else {
                    IntOpResult::Ret(0)
                }
            }
        },
        IntOp::Clear => {
            let was_pending = if intno < PERCPU_INTERRUPTS {
                cpu_state.clear(intno)
            } else {
                let b = shared.clear(intno - PERCPU_INTERRUPTS);
                proof {
                    assert(SharedIntState::clears(*old(shared), *shared, shint(intno), b));
                }
                b
            };
            IntOpResult::Ret(if was_pending { 1 } else { 0 })
        },
    }
}

} // verus!
