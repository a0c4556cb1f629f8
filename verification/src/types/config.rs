use vstd::prelude::*;

verus! {

/// Configuration of an offset translation, packed into an ASID entry's
/// page-table-base word.
///
/// Layout: `xwru` bits 0..=3, `cccc` bits 4..=7, `weak_ccc` bit 8,
/// `size` bits 9..=12, `pages` bits 13..=31.
#[derive(Clone, Copy, Debug, PartialEq, Eq)]
pub struct OffsetConfig(pub u32);

proof fn lemma_offset_pack(x: u32, c: u32, s: u32, pages: u32, w: u32, xwru: u8, cccc: u8, size: u8, raw: u32)
    by (bit_vector)
    requires
        x == xwru as u32,
        c == cccc as u32,
        s == size as u32,
        w == 0 || w == 1u32 << 8u32,
        raw == (x & 0xF) | ((c & 0xF) << 4u32) | w | ((s & 0xF) << 9u32) | ((pages & 0x7FFFF) << 13u32),
    ensures
        ((raw >> 8u32) & 1 == 1) == (w != 0),
        (raw >> 9u32) & 0xF == s & 0xF,
        (raw >> 4u32) & 0xF == c & 0xF,
        raw & 0xF == x & 0xF,
        raw >> 13u32 == pages & 0x7FFFF,
        x & 0xF == (xwru & 0xF) as u32,
        c & 0xF == (cccc & 0xF) as u32,
        s & 0xF == (size & 0xF) as u32,
{
}

impl OffsetConfig {
    pub open spec fn spec_xwru(self) -> u8 {
        (self.0 & 0xF) as u8
    }

    pub open spec fn spec_cccc(self) -> u8 {
        ((self.0 >> 4u32) & 0xF) as u8
    }

    pub open spec fn spec_weak_ccc(self) -> bool {
        (self.0 >> 8u32) & 1 == 1
    }

    pub open spec fn spec_size(self) -> u8 {
        ((self.0 >> 9u32) & 0xF) as u8
    }

    pub open spec fn spec_pages(self) -> u32 {
        self.0 >> 13u32
    }

    pub open spec fn spec_new(size: u8, cccc: u8, weak_ccc: bool, xwru: u8, pages: u32) -> OffsetConfig {
        OffsetConfig(
            ((xwru as u32) & 0xF) | (((cccc as u32) & 0xF) << 4u32) | (if weak_ccc {
                1u32 << 8u32
            } else {
                0u32
            }) | (((size as u32) & 0xF) << 9u32) | ((pages & 0x7FFFF) << 13u32),
        )
    }

    /// Pack an offset configuration; each argument is cut to its field width.
    pub fn new(size: u8, cccc: u8, weak_ccc: bool, xwru: u8, pages: u32) -> (r: OffsetConfig)
        ensures
            r == Self::spec_new(size, cccc, weak_ccc, xwru, pages),
            r.spec_size() == size & 0xF,
            r.spec_cccc() == cccc & 0xF,
            r.spec_weak_ccc() == weak_ccc,
            r.spec_xwru() == xwru & 0xF,
            r.spec_pages() == pages & 0x7FFFF,
    {
        let w: u32 = if weak_ccc {
            1u32 << 8u32
        } else {
            0u32
        };
        let x = xwru as u32;
        let c = cccc as u32;
        let s = size as u32;
        let raw = (x & 0xF) | ((c & 0xF) << 4u32) | w | ((s & 0xF) << 9u32) | ((pages & 0x7FFFF)
            << 13u32);
        proof {
            crate::bits::lemma_const_shifts();
            lemma_offset_pack(x, c, s, pages, w, xwru, cccc, size, raw);
        }
        OffsetConfig(raw)
    }

    pub fn xwru(self) -> (r: u8)
        ensures
            r == self.spec_xwru(),
    {
        (self.0 & 0xF) as u8
    }

    pub fn cccc(self) -> (r: u8)
        ensures
            r == self.spec_cccc(),
    {
        ((self.0 >> 4u32) & 0xF) as u8
    }

    pub fn weak_ccc(self) -> (r: bool)
        ensures
            r == self.spec_weak_ccc(),
    {
        (self.0 >> 8u32) & 1 == 1
    }

    pub fn size(self) -> (r: u8)
        ensures
            r == self.spec_size(),
    {
        ((self.0 >> 9u32) & 0xF) as u8
    }

    /// Number of pages added to the input page number.
    pub fn pages(self) -> (r: u32)
        ensures
            r == self.spec_pages(),
    {
        self.0 >> 13u32
    }
}

} // verus!
