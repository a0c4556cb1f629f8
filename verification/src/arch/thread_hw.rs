//! The MODECTL word: one enable bit per hardware thread.

use vstd::prelude::*;
use crate::bits::bit32;

verus! {

/// MODECTL with hardware thread `tid` enabled.
pub fn modectl_started(modectl: u32, tid: u32) -> (r: u32)
    requires
        tid < 32,
    ensures
        bit32(r, tid),
        forall|k: u32| k < 32 && k != tid ==> bit32(r, k) == bit32(modectl, k),
{
    proof {
        crate::bits::lemma_mask_bit(modectl, tid);
    }
    modectl | (1u32 << tid)
}

/// MODECTL with hardware thread `tid` disabled.
pub fn modectl_stopped(modectl: u32, tid: u32) -> (r: u32)
    requires
        tid < 32,
    ensures
        !bit32(r, tid),
        forall|k: u32| k < 32 && k != tid ==> bit32(r, k) == bit32(modectl, k),
{
    proof {
        crate::bits::lemma_mask_bit(modectl, tid);
    }
    modectl & !(1u32 << tid)
}

/// Whether hardware thread `tid` is enabled in MODECTL.
pub fn modectl_enabled(modectl: u32, tid: u32) -> (r: bool)
    requires
        tid < 32,
    ensures
        r == bit32(modectl, tid),
{
    proof {
        crate::bits::lemma_mask_bit(modectl, tid);
    }
    (modectl & (1u32 << tid)) != 0
}

} // verus!
