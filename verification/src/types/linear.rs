use vstd::prelude::*;

verus! {

/// A 64-bit descriptor of a linear translation list.
///
/// Layout: `size` bits 0..=3, `xwru` bits 4..=7, `cccc` bits 8..=11,
/// `vpn` bits 12..=31, `ppn` bits 32..=57, `weak_ccc` bit 60,
/// `shared` bit 61, `chain` bit 63. A chain descriptor holds the address
/// of the next descriptor in its low 32 bits. The all-zero descriptor ends
/// the list.
#[derive(Clone, Copy, Debug, PartialEq, Eq)]
pub struct LinearFmt(pub u64);

impl LinearFmt {
    pub open spec fn spec_size(self) -> u8 {
        (self.0 & 0xF) as u8
    }

    pub open spec fn spec_xwru(self) -> u8 {
        ((self.0 >> 4u64) & 0xF) as u8
    }

    pub open spec fn spec_cccc(self) -> u8 {
        ((self.0 >> 8u64) & 0xF) as u8
    }

    pub open spec fn spec_vpn(self) -> u32 {
        ((self.0 >> 12u64) & 0xF_FFFF) as u32
    }

    pub open spec fn spec_ppn(self) -> u32 {
        ((self.0 >> 32u64) & 0x3FF_FFFF) as u32
    }

    pub open spec fn spec_weak_ccc(self) -> bool {
        (self.0 >> 60u64) & 1 == 1
    }

    pub open spec fn spec_shared(self) -> bool {
        (self.0 >> 61u64) & 1 == 1
    }

    pub open spec fn spec_chain(self) -> bool {
        (self.0 >> 63u64) & 1 == 1
    }

    pub open spec fn spec_low(self) -> u32 {
        self.0 as u32
    }

    pub open spec fn spec_set(self, mask: u64, shift: u64, v: u64) -> LinearFmt {
        LinearFmt((self.0 & !(mask << shift)) | ((v & mask) << shift))
    }

    pub fn size(self) -> (r: u8)
        ensures
            r == self.spec_size(),
    {
        (self.0 & 0xF) as u8
    }

    pub fn xwru(self) -> (r: u8)
        ensures
            r == self.spec_xwru(),
    {
        ((self.0 >> 4u64) & 0xF) as u8
    }

    pub fn cccc(self) -> (r: u8)
        ensures
            r == self.spec_cccc(),
    {
        ((self.0 >> 8u64) & 0xF) as u8
    }

    pub fn vpn(self) -> (r: u32)
        ensures
            r == self.spec_vpn(),
    {
        ((self.0 >> 12u64) & 0xF_FFFF) as u32
    }

    pub fn ppn(self) -> (r: u32)
        ensures
            r == self.spec_ppn(),
    {
        ((self.0 >> 32u64) & 0x3FF_FFFF) as u32
    }

    pub fn weak_ccc(self) -> (r: bool)
        ensures
            r == self.spec_weak_ccc(),
    {
        (self.0 >> 60u64) & 1 == 1
    }

    pub fn shared(self) -> (r: bool)
        ensures
            r == self.spec_shared(),
    {
        (self.0 >> 61u64) & 1 == 1
    }

    /// Whether this descriptor points to the next part of the list.
    pub fn chain(self) -> (r: bool)
        ensures
            r == self.spec_chain(),
    {
        (self.0 >> 63u64) & 1 == 1
    }

    /// The all-zero descriptor that ends a list.
    pub fn is_null(self) -> (r: bool)
        ensures
            r == (self.0 == 0),
    {
        self.0 == 0
    }

    /// Low 32 bits (the next address of a chain descriptor).
    pub fn low(self) -> (r: u32)
        ensures
            r == self.spec_low(),
    {
        self.0 as u32
    }

    pub fn with_size(self, v: u8) -> (r: LinearFmt)
        ensures
            r == self.spec_set(0xF, 0, v as u64),
    {
        LinearFmt((self.0 & !(0xFu64 << 0u64)) | (((v as u64) & 0xF) << 0u64))
    }

    pub fn with_xwru(self, v: u8) -> (r: LinearFmt)
        ensures
            r == self.spec_set(0xF, 4, v as u64),
    {
        LinearFmt((self.0 & !(0xFu64 << 4u64)) | (((v as u64) & 0xF) << 4u64))
    }

    pub fn with_cccc(self, v: u8) -> (r: LinearFmt)
        ensures
            r == self.spec_set(0xF, 8, v as u64),
    {
        LinearFmt((self.0 & !(0xFu64 << 8u64)) | (((v as u64) & 0xF) << 8u64))
    }

    pub fn with_vpn(self, v: u32) -> (r: LinearFmt)
        ensures
            r == self.spec_set(0xF_FFFF, 12, v as u64),
    {
        LinearFmt((self.0 & !(0xF_FFFFu64 << 12u64)) | (((v as u64) & 0xF_FFFF) << 12u64))
    }

    pub fn with_ppn(self, v: u32) -> (r: LinearFmt)
        ensures
            r == self.spec_set(0x3FF_FFFF, 32, v as u64),
    {
        LinearFmt((self.0 & !(0x3FF_FFFFu64 << 32u64)) | (((v as u64) & 0x3FF_FFFF) << 32u64))
    }

    pub fn with_weak_ccc(self, v: bool) -> (r: LinearFmt)
        ensures
            r == self.spec_set(1, 60, if v { 1 } else { 0 }),
    {
        let b: u64 = if v {
            1
        } else {
            0
        };
        LinearFmt((self.0 & !(1u64 << 60u64)) | ((b & 1) << 60u64))
    }

    pub fn with_shared(self, v: bool) -> (r: LinearFmt)
        ensures
            r == self.spec_set(1, 61, if v { 1 } else { 0 }),
    {
        let b: u64 = if v {
            1
        } else {
            0
        };
        LinearFmt((self.0 & !(1u64 << 61u64)) | ((b & 1) << 61u64))
    }

    pub fn with_chain(self, v: bool) -> (r: LinearFmt)
        ensures
            r == self.spec_set(1, 63, if v { 1 } else { 0 }),
    {
        let b: u64 = if v {
            1
        } else {
            0
        };
        LinearFmt((self.0 & !(1u64 << 63u64)) | ((b & 1) << 63u64))
    }
}

/// Setting the virtual or the physical page number of a linear descriptor:
/// reading that field back gives the value written, cut to the field's width,
/// and every other field keeps its value.
pub proof fn lemma_linear_page_setters(f: LinearFmt, vpn: u32, ppn: u32)
    ensures
        f.spec_set(0xF_FFFF, 12, vpn as u64).spec_vpn() == vpn & 0xF_FFFF,
        f.spec_set(0xF_FFFF, 12, vpn as u64).spec_ppn() == f.spec_ppn(),
        f.spec_set(0xF_FFFF, 12, vpn as u64).spec_size() == f.spec_size(),
        f.spec_set(0xF_FFFF, 12, vpn as u64).spec_xwru() == f.spec_xwru(),
        f.spec_set(0xF_FFFF, 12, vpn as u64).spec_cccc() == f.spec_cccc(),
        f.spec_set(0xF_FFFF, 12, vpn as u64).spec_weak_ccc() == f.spec_weak_ccc(),
        f.spec_set(0xF_FFFF, 12, vpn as u64).spec_shared() == f.spec_shared(),
        f.spec_set(0xF_FFFF, 12, vpn as u64).spec_chain() == f.spec_chain(),
        f.spec_set(0x3FF_FFFF, 32, ppn as u64).spec_ppn() == ppn & 0x3FF_FFFF,
        f.spec_set(0x3FF_FFFF, 32, ppn as u64).spec_vpn() == f.spec_vpn(),
        f.spec_set(0x3FF_FFFF, 32, ppn as u64).spec_size() == f.spec_size(),
        f.spec_set(0x3FF_FFFF, 32, ppn as u64).spec_xwru() == f.spec_xwru(),
        f.spec_set(0x3FF_FFFF, 32, ppn as u64).spec_cccc() == f.spec_cccc(),
        f.spec_set(0x3FF_FFFF, 32, ppn as u64).spec_weak_ccc() == f.spec_weak_ccc(),
        f.spec_set(0x3FF_FFFF, 32, ppn as u64).spec_shared() == f.spec_shared(),
        f.spec_set(0x3FF_FFFF, 32, ppn as u64).spec_chain() == f.spec_chain(),
{
    lemma_linear_page_bits(f.0, vpn, ppn);
}

proof fn lemma_linear_page_bits(x: u64, a: u32, b: u32)
    by (bit_vector)
    ensures
        ((((x & !(0xF_FFFFu64 << 12u64)) | (((a as u64) & 0xF_FFFF) << 12u64)) >> 12u64) & 0xF_FFFF) as u32 == a & 0xF_FFFF,
        ((((x & !(0xF_FFFFu64 << 12u64)) | (((a as u64) & 0xF_FFFF) << 12u64)) >> 32u64) & 0x3FF_FFFF) == (x >> 32u64) & 0x3FF_FFFF,
        (((x & !(0xF_FFFFu64 << 12u64)) | (((a as u64) & 0xF_FFFF) << 12u64)) & 0xF) == x & 0xF,
        ((((x & !(0xF_FFFFu64 << 12u64)) | (((a as u64) & 0xF_FFFF) << 12u64)) >> 4u64) & 0xF) == (x >> 4u64) & 0xF,
        ((((x & !(0xF_FFFFu64 << 12u64)) | (((a as u64) & 0xF_FFFF) << 12u64)) >> 8u64) & 0xF) == (x >> 8u64) & 0xF,
        ((((x & !(0xF_FFFFu64 << 12u64)) | (((a as u64) & 0xF_FFFF) << 12u64)) >> 60u64) & 1) == (x >> 60u64) & 1,
        ((((x & !(0xF_FFFFu64 << 12u64)) | (((a as u64) & 0xF_FFFF) << 12u64)) >> 61u64) & 1) == (x >> 61u64) & 1,
        ((((x & !(0xF_FFFFu64 << 12u64)) | (((a as u64) & 0xF_FFFF) << 12u64)) >> 63u64) & 1) == (x >> 63u64) & 1,
        ((((x & !(0x3FF_FFFFu64 << 32u64)) | (((b as u64) & 0x3FF_FFFF) << 32u64)) >> 32u64) & 0x3FF_FFFF) as u32 == b & 0x3FF_FFFF,
        ((((x & !(0x3FF_FFFFu64 << 32u64)) | (((b as u64) & 0x3FF_FFFF) << 32u64)) >> 12u64) & 0xF_FFFF) == (x >> 12u64) & 0xF_FFFF,
        (((x & !(0x3FF_FFFFu64 << 32u64)) | (((b as u64) & 0x3FF_FFFF) << 32u64)) & 0xF) == x & 0xF,
        ((((x & !(0x3FF_FFFFu64 << 32u64)) | (((b as u64) & 0x3FF_FFFF) << 32u64)) >> 4u64) & 0xF) == (x >> 4u64) & 0xF,
        ((((x & !(0x3FF_FFFFu64 << 32u64)) | (((b as u64) & 0x3FF_FFFF) << 32u64)) >> 8u64) & 0xF) == (x >> 8u64) & 0xF,
        ((((x & !(0x3FF_FFFFu64 << 32u64)) | (((b as u64) & 0x3FF_FFFF) << 32u64)) >> 60u64) & 1) == (x >> 60u64) & 1,
        ((((x & !(0x3FF_FFFFu64 << 32u64)) | (((b as u64) & 0x3FF_FFFF) << 32u64)) >> 61u64) & 1) == (x >> 61u64) & 1,
        ((((x & !(0x3FF_FFFFu64 << 32u64)) | (((b as u64) & 0x3FF_FFFF) << 32u64)) >> 63u64) & 1) == (x >> 63u64) & 1,
{
}

} // verus!
