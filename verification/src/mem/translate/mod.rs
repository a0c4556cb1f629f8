//! Address translation: the ASID entry of an address space says how its
//! addresses map (by a fixed offset, or through a descriptor list in guest
//! memory), and the result may be translated again through the guest map
//! of the parent VM.

pub mod linear;
pub mod offset;

use vstd::prelude::*;
use crate::types::asid::{AsidEntry, TranslationType};
use crate::types::translate::Translation;

verus! {

/// Cause codes of a page fault.
#[derive(Clone, Copy, Debug, PartialEq, Eq)]
pub enum PageFaultCause {
    /// Miss on instruction fetch (0x20).
    TlbMissX,
    /// Miss on read (0x21).
    TlbMissR,
    /// Miss on write (0x22).
    TlbMissW,
}

impl PageFaultCause {
    pub open spec fn spec_code(self) -> u8 {
        match self {
            PageFaultCause::TlbMissX => 0x20,
            PageFaultCause::TlbMissR => 0x21,
            PageFaultCause::TlbMissW => 0x22,
        }
    }

    /// The architectural cause code.
    pub fn code(self) -> (r: u8)
        ensures
            r == self.spec_code(),
    {
        match self {
            PageFaultCause::TlbMissX => 0x20,
            PageFaultCause::TlbMissR => 0x21,
            PageFaultCause::TlbMissW => 0x22,
        }
    }

    /// The cause with code `val`, if any.
    pub fn from_raw(val: u8) -> (r: Option<Self>)
        ensures
            r matches Some(c) ==> c.spec_code() == val,
            r is None <==> !(0x20 <= val <= 0x22),
    {
        match val {
            0x20 => Some(PageFaultCause::TlbMissX),
            0x21 => Some(PageFaultCause::TlbMissR),
            0x22 => Some(PageFaultCause::TlbMissW),
            _ => None,
        }
    }
}

/// What translation needs from the rest of the system: the VM blocks,
/// the tightly coupled memories, guest memory, and translation again for
/// nested address spaces. The system implements it.
///
/// Each query answers as a function of its arguments and of the context's
/// state, named by the `spec_` function beside it; an implementation must
/// return exactly what that function gives. What translation returns is
/// stated over these functions.
pub trait TranslateCtx {
    /// What `translate` returns.
    spec fn spec_translate(&self, input: Translation, info: AsidEntry) -> Translation;

    /// What `vmblock_guestmap` returns.
    spec fn spec_guestmap(&self, vmidx: u8) -> AsidEntry;

    /// What `vmblock_fence_lo` returns.
    spec fn spec_fence_lo(&self, vmidx: u8) -> u32;

    /// What `vmblock_fence_hi` returns.
    spec fn spec_fence_hi(&self, vmidx: u8) -> u32;

    /// What `tcm_range` returns.
    spec fn spec_tcm_range(&self) -> (u32, u32);

    /// What `vtcm_range` returns.
    spec fn spec_vtcm_range(&self) -> (u32, u32);

    /// What `physread_dword` returns.
    spec fn spec_read(&self, pa: u64) -> u64;

    /// Translate through a nested ASID entry.
    fn translate(&self, input: Translation, info: AsidEntry) -> (r: Translation)
        ensures
            r == self.spec_translate(input, info),
    ;

    /// Guest map of VM `vmidx`.
    fn vmblock_guestmap(&self, vmidx: u8) -> (r: AsidEntry)
        ensures
            r == self.spec_guestmap(vmidx),
    ;

    /// Lowest page VM `vmidx` may map.
    fn vmblock_fence_lo(&self, vmidx: u8) -> (r: u32)
        ensures
            r == self.spec_fence_lo(vmidx),
    ;

    /// Highest page VM `vmidx` may map.
    fn vmblock_fence_hi(&self, vmidx: u8) -> (r: u32)
        ensures
            r == self.spec_fence_hi(vmidx),
    ;

    /// First page and page count of the TCM.
    fn tcm_range(&self) -> (r: (u32, u32))
        ensures
            r == self.spec_tcm_range(),
    ;

    /// First page and page count of the vector TCM.
    fn vtcm_range(&self) -> (r: (u32, u32))
        ensures
            r == self.spec_vtcm_range(),
    ;

    /// Read 8 bytes of physical memory.
    fn physread_dword(&self, pa: u64) -> (r: u64)
        ensures
            r == self.spec_read(pa),
    ;
}

/// Translate `input` through the ASID entry `info`, by its type: offset
/// and linear entries have translators, any other type fails.
pub fn translate<C: TranslateCtx>(ctx: &C, input: Translation, info: AsidEntry) -> (r: Translation)
    ensures
        r == (if info.fields.spec_trans_type() == TranslationType::Offset.spec_raw() {
            offset::spec_offset_translate(ctx, input, info)
        } else if info.fields.spec_trans_type() == TranslationType::Linear.spec_raw() {
            linear::spec_linear_translate(ctx, input, info)
        } else {
            Translation::spec_bad()
        }),
{
    match TranslationType::from_raw(info.trans_type()) {
        Some(TranslationType::Offset) => offset::offset_translate(ctx, input, info),
        Some(TranslationType::Linear) => linear::linear_translate(ctx, input, info),
        _ => Translation::bad(),
    }
}

} // verus!
