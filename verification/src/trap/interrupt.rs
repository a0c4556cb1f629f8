//! Hardware interrupt entry: L1 interrupts arrive on their own vectors;
//! one of them multiplexes the L2 controller, whose VID register names
//! the source.

use vstd::prelude::*;

verus! {

/// The L1 interrupt that carries the L2 controller.
pub const L2_CORE_INTERRUPT: u32 = 2;

/// The L1 interrupt number in the SSR cause field: its low 5 bits.
pub fn extract_l1_int(ssr: u32) -> (r: u32)
    ensures
        r == ssr % 32,
{
    proof {
        crate::bits::lemma_u32_facts(ssr, 0, 0, 0);
    }
    ssr & 0x1F
}

/// Whether L1 interrupt `l1_int` is the L2 multiplexer.
pub fn is_l2_core_interrupt(l1_int: u32) -> (r: bool)
    ensures
        r == (l1_int == L2_CORE_INTERRUPT),
{
    l1_int == L2_CORE_INTERRUPT
}

/// Global number of the L2 interrupt `vid` (L2 numbers start at 32).
pub fn l2_vid_to_global(vid: u32) -> (r: u32)
    requires
        vid + 32 <= u32::MAX,
    ensures
        r == vid + 32,
{
    vid + 32
}

/// The global interrupt number: from the VID for the L2 multiplexer,
/// the L1 number otherwise.
pub fn resolve_interrupt(l1_int: u32, l2_vid: u32) -> (r: u32)
    requires
        l1_int == L2_CORE_INTERRUPT ==> l2_vid + 32 <= u32::MAX,
    ensures
        r == (if l1_int == L2_CORE_INTERRUPT { (l2_vid + 32) as u32 } else { l1_int }),
{
    if is_l2_core_interrupt(l1_int) {
        l2_vid_to_global(l2_vid)
    } else {
        l1_int
    }
}

/// Byte offset of the handler entry (8 bytes each) of `intno`.
pub fn handler_offset(intno: u32) -> (r: usize)
    requires
        intno * 8 <= usize::MAX,
    ensures
        r == intno * 8,
{
    (intno as usize) * 8
}


} // verus!
