//! Hardware TLB entries: the physical page descriptor in the low word,
//! the virtual page, ASID, global and valid bits in the high word.

use vstd::prelude::*;
use vstd::std_specs::bits::u32_trailing_zeros;

verus! {

/// A hardware TLB entry.
///
/// Low word (the page descriptor): bits 0..=23 hold the physical page
/// number shifted up one, cut to the page size, with a marker bit at the
/// page size, so the page size encoding is the number of trailing zeros
/// of these bits; cache attributes in bits 24..=27 and permissions (XWRU)
/// in bits 28..=31. High word: virtual page (bits 0..=19), ASID
/// (20..=26), physical page bits 24..=25 (27..=28) and 23 (29), global
/// (30), valid (31).
#[derive(Clone, Copy, Debug, PartialEq, Eq)]
pub struct TlbEntry(pub u64);

/// High word of an entry built from its parts.
pub open spec fn spec_build_hi(vpn: u32, asid: u8, ppn: u32, global: bool) -> u32 {
    (vpn & 0x000F_FFFF) | (((asid as u32) & 0x7F) << 20u32) | (((ppn >> 24u32) & 0x3) << 27u32) | (((ppn >> 23u32) & 0x1)
        << 29u32) | (if global { 1u32 << 30u32 } else { 0u32 }) | (1u32 << 31u32)
}

/// Page field of the low word for physical page `ppn` and page size
/// encoding `s`: the page number above the size, shifted up one, with
/// the marker bit at `s`, cut to 24 bits.
pub open spec fn spec_page_field(ppn: u32, s: u32) -> u32 {
    (((ppn & ((!0u32) << s)) << 1u32) | (1u32 << s)) & 0x00FF_FFFF
}

/// Low word of an entry built from its parts.
pub open spec fn spec_build_lo(ppn: u32, size: u8, perm: u8, cache: u8) -> u32 {
    spec_page_field(ppn, (size as u32) & 0xF) | (((cache as u32) & 0xF) << 24u32) | (((perm as u32) & 0xF) << 28u32)
}

/// The physical page number of an entry with low word `lo` and high word
/// `hi`: the page field without its marker bit, shifted down one, with
/// the three high bits from the high word.
pub open spec fn spec_entry_ppn(lo: u32, hi: u32) -> u32 {
    let f = lo & 0x00FF_FFFF;
    (if f == 0 {
        0u32
    } else {
        (f & ((f - 1) as u32)) >> 1u32
    }) | (((hi >> 29u32) & 1) << 23u32) | (((hi >> 27u32) & 3) << 24u32)
}

proof fn lemma_entry_split(hi: u32, lo: u32, e: u64)
    by (bit_vector)
    requires
        e == ((hi as u64) << 32u64) | (lo as u64),
    ensures
        (e >> 32u64) as u32 == hi,
        e as u32 == lo,
        (e >> 63u64) & 1 == (hi >> 31u32) & 1,
        (e >> 62u64) & 1 == (hi >> 30u32) & 1,
{
}

proof fn lemma_build_fields(vpn: u32, asid: u32, ppn: u32, g: u32, s: u32, cache: u32, perm: u32, f: u32, lo: u32, hi: u32)
    by (bit_vector)
    requires
        s < 16,
        g == 0 || g == 1u32 << 30u32,
        f == (((ppn & ((!0u32) << s)) << 1u32) | (1u32 << s)) & 0x00FF_FFFF,
        lo == f | ((cache & 0xF) << 24u32) | ((perm & 0xF) << 28u32),
        hi == (vpn & 0x000F_FFFF) | ((asid & 0x7F) << 20u32) | (((ppn >> 24u32) & 0x3) << 27u32) | (((ppn >> 23u32) & 0x1)
            << 29u32) | g | (1u32 << 31u32),
    ensures
        lo & 0x00FF_FFFF == f,
        f != 0,
        (f >> s) & 1 == 1,
        f & ((1u32 << s) - 1) as u32 == 0,
        (lo >> 28u32) & 0xF == perm & 0xF,
        (lo >> 24u32) & 0xF == cache & 0xF,
        hi & 0x000F_FFFF == vpn & 0x000F_FFFF,
        (hi >> 20u32) & 0x7F == asid & 0x7F,
        (hi >> 31u32) & 1 == 1,
        ((hi >> 30u32) & 1 == 1) == (g != 0),
        ppn < 0x400_0000 ==> ((f & ((f - 1) as u32)) >> 1u32) | (((hi >> 29u32) & 1) << 23u32) | (((hi >> 27u32) & 3) << 24u32)
            == ppn & ((!0u32) << s),
{
}

proof fn lemma_low_bits_clear(f: u32, s: u32, j: u32)
    by (bit_vector)
    requires
        s < 32,
        j < s,
        f & ((1u32 << s) - 1) as u32 == 0,
    ensures
        (f >> j) & 1 == 0,
{
}

/// The page size encoding read back from a built entry is the one it was
/// built with.
proof fn lemma_trailing_zeros_of_field(f: u32, s: u32)
    requires
        s < 16,
        f != 0,
        (f >> s) & 1 == 1,
        f & ((1u32 << s) - 1) as u32 == 0,
    ensures
        u32_trailing_zeros(f) == s,
{
    crate::bits::lemma_trailing_zeros32(f);
    let t = u32_trailing_zeros(f);
    if t < s {
        lemma_low_bits_clear(f, s, t);
        assert(crate::bits::bit32(f, t as u32));
    } else if t > s {
        assert(!crate::bits::bit32(f, s));
    }
}

impl TlbEntry {
    /// Bit of the valid flag.
    pub const VALID_BIT: u32 = 63;

    /// Bit of the global flag.
    pub const GLOBAL_BIT: u32 = 62;

    /// Page size encoding: trailing zeros of the page field.
    pub open spec fn spec_size(self) -> u32 {
        u32_trailing_zeros((self.0 as u32) & 0x00FF_FFFF)
    }

    /// Permission bits (XWRU).
    pub open spec fn spec_perm(self) -> u8 {
        (((self.0 as u32) >> 28u32) & 0xF) as u8
    }

    /// Physical page number.
    pub open spec fn spec_ppn(self) -> u32 {
        spec_entry_ppn(self.0 as u32, (self.0 >> 32u64) as u32)
    }

    /// The invalid (all-zero) entry.
    pub fn invalid() -> (r: Self)
        ensures
            r.0 == 0,
    {
        TlbEntry(0)
    }

    /// Whether the valid bit is set.
    pub fn is_valid(self) -> (r: bool)
        ensures
            r == ((self.0 >> 63u64) & 1 == 1),
    {
        proof {
            crate::bits::lemma_u64_facts(self.0, 63, 0);
            crate::bits::lemma_u64_bit_test(self.0);
        }
        self.0 & (1u64 << 63u64) != 0
    }

    /// Whether the global bit is set.
    pub fn is_global(self) -> (r: bool)
        ensures
            r == ((self.0 >> 62u64) & 1 == 1),
    {
        proof {
            crate::bits::lemma_u64_bit_test(self.0);
        }
        self.0 & (1u64 << 62u64) != 0
    }

    /// The low word.
    pub fn ppd(self) -> (r: u32)
        ensures
            r == self.0 as u32,
    {
        self.0 as u32
    }

    /// The high word.
    pub fn hi(self) -> (r: u32)
        ensures
            r == (self.0 >> 32u64) as u32,
    {
        (self.0 >> 32u64) as u32
    }

    /// The page size encoding: the trailing zeros of the page field
    /// (32 when the field is zero).
    pub fn size(self) -> (r: u8)
        ensures
            r == self.spec_size(),
    {
        let field = self.ppd() & 0x00FF_FFFF;
        let tz = field.trailing_zeros();
        tz as u8
    }

    /// The permission bits (XWRU): bits 28..=31 of the low word.
    pub fn perm(self) -> (r: u8)
        ensures
            r == self.spec_perm(),
    {
        let ppd = self.ppd();
        ((ppd >> 28u32) & 0xF) as u8
    }

    /// ASID: bits 20..=26 of the high word.
    pub fn asid(self) -> (r: u8)
        ensures
            r == ((((self.0 >> 32u64) as u32) >> 20u32) & 0x7F) as u8,
    {
        let hi = self.hi();
        ((hi >> 20u32) & 0x7F) as u8
    }

    /// A valid entry from its parts. With a page size encoding below 16
    /// and a page number below 2^26, the size, permissions, page number
    /// (cut to the page size), ASID, virtual page and global flag read
    /// back as built.
    pub fn build(vpn: u32, asid: u8, ppn: u32, size: u8, perm: u8, cache: u8, global: bool) -> (r: Self)
        ensures
            r.0 == ((spec_build_hi(vpn, asid, ppn, global) as u64) << 32u64) | (spec_build_lo(ppn, size, perm, cache) as u64),
            r.spec_perm() == perm & 0xF,
            (((r.0 as u32) >> 24u32) & 0xF) == (cache as u32) & 0xF,
            (r.0 >> 63u64) & 1 == 1,
            ((r.0 >> 62u64) & 1 == 1) == global,
            ((((r.0 >> 32u64) as u32) >> 20u32) & 0x7F) == (asid as u32) & 0x7F,
            ((r.0 >> 32u64) as u32) & 0x000F_FFFF == vpn & 0x000F_FFFF,
            size < 16 ==> r.spec_size() == size as u32,
            size < 16 && ppn < 0x400_0000 ==> r.spec_ppn() == ppn & ((!0u32) << (size as u32)),
    {
        let s = (size as u32) & 0xF;
        proof {
            assert(s < 16) by (bit_vector)
                requires
                    s == (size as u32) & 0xF,
            ;
        }
        let field = (((ppn & ((!0u32) << s)) << 1u32) | (1u32 << s)) & 0x00FF_FFFF;
        let ppd = field | (((cache as u32) & 0xF) << 24u32) | (((perm as u32) & 0xF) << 28u32);
        let g: u32 = if global {
            1u32 << 30u32
        } else {
            0
        };
        let hi = (vpn & 0x000F_FFFF) | (((asid as u32) & 0x7F) << 20u32) | (((ppn >> 24u32) & 0x3) << 27u32) | (((ppn
            >> 23u32) & 0x1) << 29u32) | g | (1u32 << 31u32);
        let r = TlbEntry(((hi as u64) << 32u64) | (ppd as u64));
        proof {
            lemma_entry_split(hi, ppd, r.0);
            assert(size < 16 ==> s == size as u32) by (bit_vector)
                requires
                    s == (size as u32) & 0xF,
            ;
            lemma_build_fields(vpn, asid as u32, ppn, g, s, cache as u32, perm as u32, field, ppd, hi);
            if size < 16 {
                lemma_trailing_zeros_of_field(field, s);
            }
            assert((1u32 << 30u32) != 0u32) by (bit_vector);
        }
        r
    }

    /// The physical page number: the page field without its marker bit,
    /// shifted down one, with bits 23..=25 from the high word.
    pub fn ppn(self) -> (r: u32)
        ensures
            r == self.spec_ppn(),
            r < 0x400_0000,
    {
        let f = self.ppd() & 0x00FF_FFFF;
        let hi = self.hi();
        let low = if f == 0 {
            0u32
        } else {
            (f & (f - 1)) >> 1u32
        };
        let r = low | (((hi >> 29u32) & 1) << 23u32) | (((hi >> 27u32) & 3) << 24u32);
        proof {
            lemma_ppn_bound(self.0 as u32, f, hi, low, r);
        }
        r
    }

    /// Physical address of the page.
    pub fn base_pa(self) -> (r: u64)
        ensures
            r == (self.spec_ppn() as u64) * 4096,
    {
        let p = self.ppn();
        proof {
            lemma_shl12(p as u64);
        }
        (p as u64) << 12u64
    }
}

proof fn lemma_ppn_bound(lo: u32, f: u32, hi: u32, low: u32, r: u32)
    by (bit_vector)
    requires
        f == lo & 0x00FF_FFFF,
        f == 0 ==> low == 0,
        f != 0 ==> low == (f & ((f - 1) as u32)) >> 1u32,
        r == low | (((hi >> 29u32) & 1) << 23u32) | (((hi >> 27u32) & 3) << 24u32),
    ensures
        r < 0x400_0000,
{
}

proof fn lemma_shl12(a: u64)
    by (bit_vector)
    requires
        a < 0x400_0000,
    ensures
        a << 12u64 == a * 4096,
{
}

impl Default for TlbEntry {
    fn default() -> (r: Self)
        ensures
            r.0 == 0,
    {
        TlbEntry(0)
    }
}

} // verus!
