//! Kernel traps (trap0): the cause field of SSR selects the operation.

use vstd::prelude::*;

verus! {

/// Kernel trap operations, by trap number.
#[derive(Clone, Copy, Debug, PartialEq, Eq)]
pub enum KernelTrap {
    /// Semihosting (0)
    Semihosting,
    /// Thread identifier (1)
    ThreadId,
    /// Wait on a futex (2)
    FutexWait,
    /// Wake futex waiters (3)
    FutexResume,
    /// Create a thread (4)
    ThreadCreate,
    /// Stop the calling thread (5)
    ThreadStop,
    /// CPU time of the calling thread (6)
    CputimeGet,
    /// Thread identifier (second number) (7)
    ThreadId2,
    /// Register a fast interrupt handler (8)
    RegisterFastint,
    /// Set a priority (9)
    PrioSet,
    /// Read a priority (10)
    PrioGet,
    /// Wait for a popup interrupt (11)
    PopupWait,
    /// Yield to threads of the same priority (12)
    SchedYield,
    /// Configure an interrupt pool (14)
    IntpoolConfigure,
    /// Wait on an interrupt pool (15)
    IntpoolWait,
    /// Read the cycle counter (16)
    PcyclesGet,
    /// Thread identifier (third number) (17)
    ThreadId3,
    /// Set the TID register (18)
    TidSet,
    /// Read the TID register (19)
    TidGet,
    /// Priority-inheriting futex lock (20)
    FutexLockPi,
    /// Priority-inheriting futex unlock (21)
    FutexUnlockPi,
    /// Timer operation (22)
    Timer,
    /// Fatal crash (23)
    FatalCrash,
    /// TLB operation (24)
    TlbOp,
    /// Query the state of a thread (25)
    ThreadState,
    /// Query system information (26)
    TrapInfo,
    /// Cycles spent waiting (27)
    WaitcyclesGet,
    /// VM operation (28)
    VmOp,
    /// Performance monitor control (29)
    PmuCtrl,
    /// VM configuration (30)
    TrapConfig,
    /// Hardware configuration (31)
    HwConfig,
}

/// Trap numbers are below this bound (a 5-bit field).
pub const KERNEL_TRAP_MAX: u8 = 32;

impl KernelTrap {
    /// Trap number of the operation. Number 13 has none.
    pub open spec fn spec_code(self) -> u8 {
        match self {
            KernelTrap::Semihosting => 0,
            KernelTrap::ThreadId => 1,
            KernelTrap::FutexWait => 2,
            KernelTrap::FutexResume => 3,
            KernelTrap::ThreadCreate => 4,
            KernelTrap::ThreadStop => 5,
            KernelTrap::CputimeGet => 6,
            KernelTrap::ThreadId2 => 7,
            KernelTrap::RegisterFastint => 8,
            KernelTrap::PrioSet => 9,
            KernelTrap::PrioGet => 10,
            KernelTrap::PopupWait => 11,
            KernelTrap::SchedYield => 12,
            KernelTrap::IntpoolConfigure => 14,
            KernelTrap::IntpoolWait => 15,
            KernelTrap::PcyclesGet => 16,
            KernelTrap::ThreadId3 => 17,
            KernelTrap::TidSet => 18,
            KernelTrap::TidGet => 19,
            KernelTrap::FutexLockPi => 20,
            KernelTrap::FutexUnlockPi => 21,
            KernelTrap::Timer => 22,
            KernelTrap::FatalCrash => 23,
            KernelTrap::TlbOp => 24,
            KernelTrap::ThreadState => 25,
            KernelTrap::TrapInfo => 26,
            KernelTrap::WaitcyclesGet => 27,
            KernelTrap::VmOp => 28,
            KernelTrap::PmuCtrl => 29,
            KernelTrap::TrapConfig => 30,
            KernelTrap::HwConfig => 31,
        }
    }

    /// The operation of trap number `val`: every number below 32 but 13
    /// has one.
    pub fn from_raw(val: u8) -> (r: Option<Self>)
        ensures
            r matches Some(t) ==> t.spec_code() == val,
            r is None <==> (val == 13 || val >= KERNEL_TRAP_MAX),
    {
        match val {
            0 => Some(KernelTrap::Semihosting),
            1 => Some(KernelTrap::ThreadId),
            2 => Some(KernelTrap::FutexWait),
            3 => Some(KernelTrap::FutexResume),
            4 => Some(KernelTrap::ThreadCreate),
            5 => Some(KernelTrap::ThreadStop),
            6 => Some(KernelTrap::CputimeGet),
            7 => Some(KernelTrap::ThreadId2),
            8 => Some(KernelTrap::RegisterFastint),
            9 => Some(KernelTrap::PrioSet),
            10 => Some(KernelTrap::PrioGet),
            11 => Some(KernelTrap::PopupWait),
            12 => Some(KernelTrap::SchedYield),
            14 => Some(KernelTrap::IntpoolConfigure),
            15 => Some(KernelTrap::IntpoolWait),
            16 => Some(KernelTrap::PcyclesGet),
            17 => Some(KernelTrap::ThreadId3),
            18 => Some(KernelTrap::TidSet),
            19 => Some(KernelTrap::TidGet),
            20 => Some(KernelTrap::FutexLockPi),
            21 => Some(KernelTrap::FutexUnlockPi),
            22 => Some(KernelTrap::Timer),
            23 => Some(KernelTrap::FatalCrash),
            24 => Some(KernelTrap::TlbOp),
            25 => Some(KernelTrap::ThreadState),
            26 => Some(KernelTrap::TrapInfo),
            27 => Some(KernelTrap::WaitcyclesGet),
            28 => Some(KernelTrap::VmOp),
            29 => Some(KernelTrap::PmuCtrl),
            30 => Some(KernelTrap::TrapConfig),
            31 => Some(KernelTrap::HwConfig),
            _ => None,
        }
    }
}

/// The trap number in the low byte of SSR, if it is below 32.
pub fn extract_trap_num(ssr: u32) -> (r: Option<u8>)
    ensures
        r == (if ssr % 256 > 31 { None } else { Some((ssr % 256) as u8) }),
{
    proof {
        assert(ssr & 0xFF == ssr % 256) by {
            vstd::bits::lemma_u32_low_bits_mask_is_mod(ssr, 8);
            vstd::arithmetic::power2::lemma2_to64();
        }
    }
    let cause = (ssr & 0xFF) as u8;
    if cause > 31 {
        None
    } else {
        Some(cause)
    }
}

/// CPU time of a thread: its earlier total plus the cycles since it last
/// started running (all modulo 2^64).
pub fn calculate_cputime(total_cycles: u64, current_pcycles: u64, oncpu_start: u64) -> (r: u64)
    ensures
        r == vstd::wrapping::u64_specs::wrapping_add(
            total_cycles,
            vstd::wrapping::u64_specs::wrapping_sub(current_pcycles, oncpu_start),
        ),
{
    total_cycles.wrapping_add(current_pcycles.wrapping_sub(oncpu_start))
}

/// Wait cycles of a thread: the accumulated ones, plus, while it is on a
/// hardware thread, those since the current period started (modulo 2^64).
pub fn calculate_wait_cycles(accumulated_wait: u64, current_pcycles: u64, wait_start: u64, is_running: bool) -> (r: u64)
    ensures
        r == (if is_running {
            vstd::wrapping::u64_specs::wrapping_add(
                accumulated_wait,
                vstd::wrapping::u64_specs::wrapping_sub(current_pcycles, wait_start),
            )
        } else {
            accumulated_wait
        }),
{
    if is_running {
        accumulated_wait.wrapping_add(current_pcycles.wrapping_sub(wait_start))
    } else {
        accumulated_wait
    }
}

/// Whether `tid` fits the TID register (a byte).
pub fn validate_tid(tid: u32) -> (r: bool)
    ensures
        r == (tid <= 0xFF),
{
    tid <= 0xFF
}

} // verus!
