//! Fast interrupts: handlers run directly, outside the scheduler.

use vstd::prelude::*;

verus! {

/// First L2 (second-level controller) interrupt number.
pub const L2_INTERRUPT_START: u32 = 32;

/// Bytes of context kept per fast interrupt.
pub const FASTINT_CONTEXT_SIZE: u32 = 256;

/// Largest number of fast interrupt registrations.
pub const MAX_FASTINTS: u32 = 32;

/// Whether `intno` comes from the L2 controller.
pub fn is_l2_interrupt(intno: u32) -> (r: bool)
    ensures
        r == (intno >= L2_INTERRUPT_START),
{
    intno >= L2_INTERRUPT_START
}

/// Global number of the L2 interrupt with vector id `vid`.
pub fn l2_to_global_int(vid: u32) -> (r: u32)
    requires
        vid + L2_INTERRUPT_START <= u32::MAX,
    ensures
        r == vid + L2_INTERRUPT_START,
{
    vid + L2_INTERRUPT_START
}

/// The L1 interrupt number in an SSR cause field: its low 5 bits.
pub fn extract_int_from_ssr(ssr: u32) -> (r: u32)
    ensures
        r == ssr % 32,
{
    proof {
        crate::bits::lemma_u32_facts(ssr, 0, 0, 0);
    }
    ssr & 0x1F
}

/// Byte offset of the handler entry (8 bytes each) of `intno`.
pub fn handler_table_offset(intno: u32) -> (r: u32)
    requires
        intno * 8 <= u32::MAX,
    ensures
        r == intno * 8,
{
    intno * 8
}

} // verus!
