use vstd::prelude::*;

verus! {

/// Result of an address translation, packed into 64 bits.
///
/// Layout: `pn` bits 0..=25, `size` bits 26..=29, `xwru` bits 32..=35,
/// `cccc` bits 36..=39, `weak_ccc` bit 40, `shared` bit 41, `bad` bit 63.
#[derive(Clone, Copy, Debug, PartialEq, Eq)]
pub struct Translation(pub u64);

impl Translation {
    pub open spec fn spec_pn(self) -> u32 {
        (self.0 & 0x3FF_FFFF) as u32
    }

    pub open spec fn spec_size(self) -> u8 {
        ((self.0 >> 26u64) & 0xF) as u8
    }

    pub open spec fn spec_xwru(self) -> u8 {
        ((self.0 >> 32u64) & 0xF) as u8
    }

    pub open spec fn spec_cccc(self) -> u8 {
        ((self.0 >> 36u64) & 0xF) as u8
    }

    pub open spec fn spec_weak_ccc(self) -> bool {
        (self.0 >> 40u64) & 1 == 1
    }

    pub open spec fn spec_shared(self) -> bool {
        (self.0 >> 41u64) & 1 == 1
    }

    pub open spec fn spec_is_bad(self) -> bool {
        (self.0 >> 63u64) & 1 == 1
    }

    pub open spec fn spec_with_pn(self, pn: u32) -> Translation {
        Translation((self.0 & !0x3FF_FFFFu64) | ((pn as u64) & 0x3FF_FFFF))
    }

    pub open spec fn spec_with_size(self, size: u8) -> Translation {
        Translation((self.0 & !(0xFu64 << 26u64)) | (((size as u64) & 0xF) << 26u64))
    }

    pub open spec fn spec_with_xwru(self, xwru: u8) -> Translation {
        Translation((self.0 & !(0xFu64 << 32u64)) | (((xwru as u64) & 0xF) << 32u64))
    }

    pub open spec fn spec_with_cccc(self, cccc: u8) -> Translation {
        Translation((self.0 & !(0xFu64 << 36u64)) | (((cccc as u64) & 0xF) << 36u64))
    }

    pub open spec fn spec_with_weak_ccc(self, w: bool) -> Translation {
        Translation(
            (self.0 & !(1u64 << 40u64)) | (if w {
                1u64 << 40u64
            } else {
                0u64
            }),
        )
    }

    pub open spec fn spec_with_shared(self, s: bool) -> Translation {
        Translation(
            (self.0 & !(1u64 << 41u64)) | (if s {
                1u64 << 41u64
            } else {
                0u64
            }),
        )
    }

    /// The failed translation: no permissions and the bad flag set.
    pub open spec fn spec_bad() -> Translation {
        Translation(0x8000_0000_0000_0000u64)
    }

    /// Starting point of a translation for `va`: its page number, the
    /// largest size, all permissions, weak cache attributes, not shared.
    pub open spec fn spec_default_for_va(va: u32) -> Translation {
        Translation(0).spec_with_pn(va >> 12u32).spec_with_size(10).spec_with_xwru(0xF).spec_with_cccc(
            7,
        ).spec_with_weak_ccc(true)
    }

    pub fn pn(self) -> (r: u32)
        ensures
            r == self.spec_pn(),
    {
        (self.0 & 0x3FF_FFFF) as u32
    }

    pub fn size(self) -> (r: u8)
        ensures
            r == self.spec_size(),
            r < 16,
    {
        let r = ((self.0 >> 26u64) & 0xF) as u8;
        proof {
            crate::bits::lemma_u64_masks(self.0);
        }
        r
    }

    pub fn xwru(self) -> (r: u8)
        ensures
            r == self.spec_xwru(),
            r < 16,
    {
        let r = ((self.0 >> 32u64) & 0xF) as u8;
        proof {
            crate::bits::lemma_u64_masks(self.0);
        }
        r
    }

    pub fn cccc(self) -> (r: u8)
        ensures
            r == self.spec_cccc(),
            r < 16,
    {
        let r = ((self.0 >> 36u64) & 0xF) as u8;
        proof {
            crate::bits::lemma_u64_masks(self.0);
        }
        r
    }

    pub fn weak_ccc(self) -> (r: bool)
        ensures
            r == self.spec_weak_ccc(),
    {
        (self.0 >> 40u64) & 1 == 1
    }

    pub fn shared(self) -> (r: bool)
        ensures
            r == self.spec_shared(),
    {
        (self.0 >> 41u64) & 1 == 1
    }

    /// Whether this is the failed translation.
    pub fn is_bad(self) -> (r: bool)
        ensures
            r == self.spec_is_bad(),
    {
        (self.0 >> 63u64) & 1 == 1
    }

    pub fn with_pn(self, pn: u32) -> (r: Translation)
        ensures
            r == self.spec_with_pn(pn),
    {
        Translation((self.0 & !0x3FF_FFFFu64) | ((pn as u64) & 0x3FF_FFFF))
    }

    pub fn with_size(self, size: u8) -> (r: Translation)
        ensures
            r == self.spec_with_size(size),
    {
        Translation((self.0 & !(0xFu64 << 26u64)) | (((size as u64) & 0xF) << 26u64))
    }

    pub fn with_xwru(self, xwru: u8) -> (r: Translation)
        ensures
            r == self.spec_with_xwru(xwru),
    {
        Translation((self.0 & !(0xFu64 << 32u64)) | (((xwru as u64) & 0xF) << 32u64))
    }

    pub fn with_cccc(self, cccc: u8) -> (r: Translation)
        ensures
            r == self.spec_with_cccc(cccc),
    {
        Translation((self.0 & !(0xFu64 << 36u64)) | (((cccc as u64) & 0xF) << 36u64))
    }

    pub fn with_weak_ccc(self, w: bool) -> (r: Translation)
        ensures
            r == self.spec_with_weak_ccc(w),
    {
        let bit: u64 = if w {
            1u64 << 40u64
        } else {
            0u64
        };
        Translation((self.0 & !(1u64 << 40u64)) | bit)
    }

    pub fn with_shared(self, s: bool) -> (r: Translation)
        ensures
            r == self.spec_with_shared(s),
    {
        let bit: u64 = if s {
            1u64 << 41u64
        } else {
            0u64
        };
        Translation((self.0 & !(1u64 << 41u64)) | bit)
    }

    /// The failed translation.
    pub fn bad() -> (r: Translation)
        ensures
            r == Self::spec_bad(),
            r.spec_is_bad(),
            r.spec_xwru() == 0,
    {
        let r = Translation(0x8000_0000_0000_0000u64);
        proof {
            crate::bits::lemma_const_shifts();
        }
        r
    }

    /// Starting point of the translation of `va`.
    pub fn default_for_va(va: u32) -> (r: Translation)
        ensures
            r == Self::spec_default_for_va(va),
    {
        Translation(0).with_pn(va >> 12u32).with_size(10).with_xwru(0xF).with_cccc(7).with_weak_ccc(
            true,
        )
    }
}


/// Bits of a translation outside every field.
pub open spec fn reserved_bits(t: Translation) -> u64 {
    t.0 & 0x7FFF_FC00_C000_0000u64
}

/// Each field setter of `Translation` sets its field, cut to its width,
/// and keeps every other field and the reserved bits.
pub proof fn lemma_translation_setters(t: Translation, pn: u32, v: u8, b: bool)
    ensures
        t.spec_with_pn(pn).spec_pn() == pn & 0x3FF_FFFF,
        t.spec_with_pn(pn).spec_size() == t.spec_size(),
        t.spec_with_pn(pn).spec_xwru() == t.spec_xwru(),
        t.spec_with_pn(pn).spec_cccc() == t.spec_cccc(),
        t.spec_with_pn(pn).spec_weak_ccc() == t.spec_weak_ccc(),
        t.spec_with_pn(pn).spec_shared() == t.spec_shared(),
        t.spec_with_pn(pn).spec_is_bad() == t.spec_is_bad(),
        reserved_bits(t.spec_with_pn(pn)) == reserved_bits(t),
        t.spec_with_size(v).spec_size() == v & 0xF,
        t.spec_with_size(v).spec_pn() == t.spec_pn(),
        t.spec_with_size(v).spec_xwru() == t.spec_xwru(),
        t.spec_with_size(v).spec_cccc() == t.spec_cccc(),
        t.spec_with_size(v).spec_weak_ccc() == t.spec_weak_ccc(),
        t.spec_with_size(v).spec_shared() == t.spec_shared(),
        t.spec_with_size(v).spec_is_bad() == t.spec_is_bad(),
        reserved_bits(t.spec_with_size(v)) == reserved_bits(t),
        t.spec_with_xwru(v).spec_xwru() == v & 0xF,
        t.spec_with_xwru(v).spec_pn() == t.spec_pn(),
        t.spec_with_xwru(v).spec_size() == t.spec_size(),
        t.spec_with_xwru(v).spec_cccc() == t.spec_cccc(),
        t.spec_with_xwru(v).spec_weak_ccc() == t.spec_weak_ccc(),
        t.spec_with_xwru(v).spec_shared() == t.spec_shared(),
        t.spec_with_xwru(v).spec_is_bad() == t.spec_is_bad(),
        reserved_bits(t.spec_with_xwru(v)) == reserved_bits(t),
        t.spec_with_cccc(v).spec_cccc() == v & 0xF,
        t.spec_with_cccc(v).spec_pn() == t.spec_pn(),
        t.spec_with_cccc(v).spec_size() == t.spec_size(),
        t.spec_with_cccc(v).spec_xwru() == t.spec_xwru(),
        t.spec_with_cccc(v).spec_weak_ccc() == t.spec_weak_ccc(),
        t.spec_with_cccc(v).spec_shared() == t.spec_shared(),
        t.spec_with_cccc(v).spec_is_bad() == t.spec_is_bad(),
        reserved_bits(t.spec_with_cccc(v)) == reserved_bits(t),
        t.spec_with_weak_ccc(b).spec_weak_ccc() == b,
        t.spec_with_weak_ccc(b).spec_pn() == t.spec_pn(),
        t.spec_with_weak_ccc(b).spec_size() == t.spec_size(),
        t.spec_with_weak_ccc(b).spec_xwru() == t.spec_xwru(),
        t.spec_with_weak_ccc(b).spec_cccc() == t.spec_cccc(),
        t.spec_with_weak_ccc(b).spec_shared() == t.spec_shared(),
        t.spec_with_weak_ccc(b).spec_is_bad() == t.spec_is_bad(),
        reserved_bits(t.spec_with_weak_ccc(b)) == reserved_bits(t),
        t.spec_with_shared(b).spec_shared() == b,
        t.spec_with_shared(b).spec_pn() == t.spec_pn(),
        t.spec_with_shared(b).spec_size() == t.spec_size(),
        t.spec_with_shared(b).spec_xwru() == t.spec_xwru(),
        t.spec_with_shared(b).spec_cccc() == t.spec_cccc(),
        t.spec_with_shared(b).spec_weak_ccc() == t.spec_weak_ccc(),
        t.spec_with_shared(b).spec_is_bad() == t.spec_is_bad(),
        reserved_bits(t.spec_with_shared(b)) == reserved_bits(t),
{
    let x = t.0;
    let p = pn as u64;
    let w = v as u64;
    let bw: u64 = if b { 1u64 << 40u64 } else { 0u64 };
    let bs: u64 = if b { 1u64 << 41u64 } else { 0u64 };
    crate::bits::lemma_const_shifts();
    lemma_translation_field_bits(
        x,
        p,
        w,
        bw,
        bs,
        pn,
        v,
        (x & !0x3FF_FFFFu64) | (p & 0x3FF_FFFF),
        (x & !(0xFu64 << 26u64)) | ((w & 0xF) << 26u64),
        (x & !(0xFu64 << 32u64)) | ((w & 0xF) << 32u64),
        (x & !(0xFu64 << 36u64)) | ((w & 0xF) << 36u64),
        (x & !(1u64 << 40u64)) | bw,
        (x & !(1u64 << 41u64)) | bs,
    );
}

proof fn lemma_translation_field_bits(
    x: u64,
    p: u64,
    w: u64,
    bw: u64,
    bs: u64,
    pn: u32,
    v: u8,
    y: u64,
    ys: u64,
    yx: u64,
    yc: u64,
    yw: u64,
    yh: u64,
)
    by (bit_vector)
    requires
        p == pn as u64,
        w == v as u64,
        y == (x & !0x3FF_FFFFu64) | (p & 0x3FF_FFFF),
        ys == (x & !(0xFu64 << 26u64)) | ((w & 0xF) << 26u64),
        yx == (x & !(0xFu64 << 32u64)) | ((w & 0xF) << 32u64),
        yc == (x & !(0xFu64 << 36u64)) | ((w & 0xF) << 36u64),
        yw == (x & !(1u64 << 40u64)) | bw,
        yh == (x & !(1u64 << 41u64)) | bs,
        bw == 1u64 << 40u64 || bw == 0,
        bs == 1u64 << 41u64 || bs == 0,
    ensures
        y & 0x3FF_FFFF == p & 0x3FF_FFFF && (y >> 26u64) & 0xF == (x >> 26u64) & 0xF && (y >> 32u64) & 0xF == (x >> 32u64) & 0xF
            && (y >> 36u64) & 0xF == (x >> 36u64) & 0xF && (y >> 40u64) & 1 == (x >> 40u64) & 1 && (y >> 41u64) & 1 == (x >> 41u64)
            & 1 && (y >> 63u64) & 1 == (x >> 63u64) & 1 && y & 0x7FFF_FC00_C000_0000u64 == x & 0x7FFF_FC00_C000_0000u64,
        (p & 0x3FF_FFFF) as u32 == pn & 0x3FF_FFFF,
        ((w & 0xF) as u8) == v & 0xF,
        ys & 0x3FF_FFFF == x & 0x3FF_FFFF && (ys >> 26u64) & 0xF == w & 0xF && (ys >> 32u64) & 0xF == (x >> 32u64) & 0xF && (ys
            >> 36u64) & 0xF == (x >> 36u64) & 0xF && (ys >> 40u64) & 1 == (x >> 40u64) & 1 && (ys >> 41u64) & 1 == (x >> 41u64) & 1
            && (ys >> 63u64) & 1 == (x >> 63u64) & 1 && ys & 0x7FFF_FC00_C000_0000u64 == x & 0x7FFF_FC00_C000_0000u64,
        yx & 0x3FF_FFFF == x & 0x3FF_FFFF && (yx >> 26u64) & 0xF == (x >> 26u64) & 0xF && (yx >> 32u64) & 0xF == w & 0xF && (yx
            >> 36u64) & 0xF == (x >> 36u64) & 0xF && (yx >> 40u64) & 1 == (x >> 40u64) & 1 && (yx >> 41u64) & 1 == (x >> 41u64) & 1
            && (yx >> 63u64) & 1 == (x >> 63u64) & 1 && yx & 0x7FFF_FC00_C000_0000u64 == x & 0x7FFF_FC00_C000_0000u64,
        yc & 0x3FF_FFFF == x & 0x3FF_FFFF && (yc >> 26u64) & 0xF == (x >> 26u64) & 0xF && (yc >> 32u64) & 0xF == (x >> 32u64)
            & 0xF && (yc >> 36u64) & 0xF == w & 0xF && (yc >> 40u64) & 1 == (x >> 40u64) & 1 && (yc >> 41u64) & 1 == (x >> 41u64)
            & 1 && (yc >> 63u64) & 1 == (x >> 63u64) & 1 && yc & 0x7FFF_FC00_C000_0000u64 == x & 0x7FFF_FC00_C000_0000u64,
        yw & 0x3FF_FFFF == x & 0x3FF_FFFF && (yw >> 26u64) & 0xF == (x >> 26u64) & 0xF && (yw >> 32u64) & 0xF == (x >> 32u64)
            & 0xF && (yw >> 36u64) & 0xF == (x >> 36u64) & 0xF && ((yw >> 40u64) & 1 == 1) == (bw != 0) && (yw >> 41u64) & 1 == (x
            >> 41u64) & 1 && (yw >> 63u64) & 1 == (x >> 63u64) & 1 && yw & 0x7FFF_FC00_C000_0000u64 == x & 0x7FFF_FC00_C000_0000u64,
        yh & 0x3FF_FFFF == x & 0x3FF_FFFF && (yh >> 26u64) & 0xF == (x >> 26u64) & 0xF && (yh >> 32u64) & 0xF == (x >> 32u64)
            & 0xF && (yh >> 36u64) & 0xF == (x >> 36u64) & 0xF && (yh >> 40u64) & 1 == (x >> 40u64) & 1 && ((yh >> 41u64) & 1 == 1)
            == (bs != 0) && (yh >> 63u64) & 1 == (x >> 63u64) & 1 && yh & 0x7FFF_FC00_C000_0000u64 == x & 0x7FFF_FC00_C000_0000u64,
{
}


/// A translation is fixed by its fields and its reserved bits.
pub proof fn lemma_translation_eq(a: Translation, b: Translation)
    requires
        a.spec_pn() == b.spec_pn(),
        a.spec_size() == b.spec_size(),
        a.spec_xwru() == b.spec_xwru(),
        a.spec_cccc() == b.spec_cccc(),
        a.spec_weak_ccc() == b.spec_weak_ccc(),
        a.spec_shared() == b.spec_shared(),
        a.spec_is_bad() == b.spec_is_bad(),
        reserved_bits(a) == reserved_bits(b),
    ensures
        a == b,
{
    lemma_translation_bits_eq(a.0, b.0);
}

proof fn lemma_translation_bits_eq(x: u64, y: u64)
    by (bit_vector)
    requires
        (x & 0x3FF_FFFF) as u32 == (y & 0x3FF_FFFF) as u32,
        ((x >> 26u64) & 0xF) as u8 == ((y >> 26u64) & 0xF) as u8,
        ((x >> 32u64) & 0xF) as u8 == ((y >> 32u64) & 0xF) as u8,
        ((x >> 36u64) & 0xF) as u8 == ((y >> 36u64) & 0xF) as u8,
        ((x >> 40u64) & 1 == 1) == ((y >> 40u64) & 1 == 1),
        ((x >> 41u64) & 1 == 1) == ((y >> 41u64) & 1 == 1),
        ((x >> 63u64) & 1 == 1) == ((y >> 63u64) & 1 == 1),
        x & 0x7FFF_FC00_C000_0000u64 == y & 0x7FFF_FC00_C000_0000u64,
    ensures
        x == y,
{
}

} // verus!
