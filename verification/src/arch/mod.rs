//! Processor-level encodings: TLB entries, coprocessor types and the
//! hardware thread enable mask.

pub mod tlb;
pub mod thread_hw;

use vstd::prelude::*;

verus! {

/// Coprocessor type word of the configuration table.
#[derive(Clone, Copy, Debug, PartialEq, Eq)]
pub struct CoprocType(pub u32);

impl CoprocType {
    /// Bit that marks the vector unit.
    pub const HVX_MASK: u32 = 0x1;

    /// Whether the vector unit is present.
    pub fn has_hvx(self) -> (r: bool)
        ensures
            r == (self.0 % 2 == 1),
    {
        proof {
            crate::bits::lemma_u32_facts(self.0, 0, 0, 0);

        }
        self.0 & Self::HVX_MASK != 0
    }
}

} // verus!
