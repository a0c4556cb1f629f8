//! VM trap (trap1) entry checks.

use vstd::prelude::*;
use crate::bits::bit32;

verus! {

/// Whether a thread whose trap mask is `trapmask` may issue VM trap
/// `trap_num`: bit `trap_num` of the mask, numbers from 32 on never.
pub fn is_trap_permitted(trap_num: u8, trapmask: u32) -> (r: bool)
    ensures
        r == (trap_num < 32 && bit32(trapmask, trap_num as u32)),
{
    if trap_num >= 32 {
        return false;
    }
    proof {
        crate::bits::lemma_u32_facts(trapmask, 0, 0, trap_num as u32);
    }
    (trapmask >> (trap_num as u32)) & 1 != 0
}

/// The VM trap number in the SSR cause field: its low 5 bits.
pub fn extract_trap1_num(ssr: u32) -> (r: u8)
    ensures
        r == ssr % 32,
{
    proof {
        crate::bits::lemma_u32_facts(ssr, 0, 0, 0);
    }
    (ssr & 0x1F) as u8
}

} // verus!
