//! Bit-level vocabulary shared by the contracts.

use vstd::prelude::*;
use vstd::std_specs::bits::{u16_trailing_zeros, u32_trailing_zeros, axiom_u16_trailing_zeros, axiom_u32_trailing_zeros};

verus! {

/// Bit `i` of `v` is set.
pub open spec fn bit16(v: u16, i: u16) -> bool {
    (v >> i) & 1u16 == 1u16
}

/// Bit `i` of `v` is set.
pub open spec fn bit32(v: u32, i: u32) -> bool {
    (v >> i) & 1u32 == 1u32
}

/// `i` is the index of the lowest set bit of `v`.
pub open spec fn is_lowest16(v: u16, i: int) -> bool {
    &&& 0 <= i < 16
    &&& bit16(v, i as u16)
    &&& forall|j: u16| j < i ==> !bit16(v, j)
}

/// `i` is the index of the lowest set bit of `v`.
pub open spec fn is_lowest32(v: u32, i: int) -> bool {
    &&& 0 <= i < 32
    &&& bit32(v, i as u32)
    &&& forall|j: u32| j < i ==> !bit32(v, j)
}

/// What `trailing_zeros` returns on a nonzero value is its lowest set bit.
pub proof fn lemma_trailing_zeros16(v: u16)
    requires
        v != 0,
    ensures
        is_lowest16(v, u16_trailing_zeros(v) as int),
        u16_trailing_zeros(v) < 16,
{
    axiom_u16_trailing_zeros(v);
    let t = u16_trailing_zeros(v);
    assert forall|j: u16| j < t implies !bit16(v, j) by {
        assert((v >> j) & 1u16 == 0u16);
    }
    assert(bit16(v, t as u16));
}

/// What `trailing_zeros` returns on a nonzero value is its lowest set bit.
pub proof fn lemma_trailing_zeros32(v: u32)
    requires
        v != 0,
    ensures
        is_lowest32(v, u32_trailing_zeros(v) as int),
        u32_trailing_zeros(v) < 32,
{
    axiom_u32_trailing_zeros(v);
    let t = u32_trailing_zeros(v);
    assert forall|j: u32| j < t implies !bit32(v, j) by {
        assert((v >> j) & 1u32 == 0u32);
    }
    assert(bit32(v, t as u32));
}

/// A value has at most one lowest set bit.
pub proof fn lemma_lowest16_unique(v: u16, i: int, k: int)
    requires
        is_lowest16(v, i),
        is_lowest16(v, k),
    ensures
        i == k,
{
    if i < k {
        assert(!bit16(v, i as u16));
    } else if k < i {
        assert(!bit16(v, k as u16));
    }
}

/// Facts about single bits and masks of 32-bit words.
pub proof fn lemma_u32_facts(a: u32, b: u32, c: u32, s: u32)
    by (bit_vector)
    ensures
        s < 32 ==> ((a >> s) & 1 == 0 || (a >> s) & 1 == 1),
        s < 32 ==> (((a & b) >> s) & 1 == 1) == ((a >> s) & 1 == 1 && (b >> s) & 1 == 1),
        a & b == 0 ==> a & !b == a,
        (a & !b) | b == a | b,
        a & b & c == b & a & c,
        (a & 1 != 0) == (a & 1 == 1),
        ((a >> s) & 1 != 0) == ((a >> s) & 1 == 1),
        a & 7 == a % 8,
        a & 1 == a % 2,
        a & 3 == a % 4,
        a & 0x1f == a % 32,
        a & 63 == a % 64,
        a & !15u32 == a - a % 16,
        a >> 5u32 == a / 32,
        a >> 1u32 == a / 2,
        a & 0x1f < 32,
        (0u32 >> s) & 1 == 0,
        a <= 1 && b <= 1 && c <= 1 ==> ((0u32 | a) | (b << 1u32)) | (c << 2u32) == a + 2 * b + 4 * c,
        s < 32 ==> (a & (1u32 << s) != 0) == ((a >> s) & 1 == 1),
        s < 32 ==> ((a | (1u32 << s)) >> s) & 1 == 1,
        s < 32 ==> !(((a & !(1u32 << s)) >> s) & 1 == 1),
        s < 32 && c < 32 && c != s ==> (((a | (1u32 << s)) >> c) & 1 == 1) == ((a >> c) & 1 == 1),
        s < 32 && c < 32 && c != s ==> (((a & !(1u32 << s)) >> c) & 1 == 1) == ((a >> c) & 1 == 1),
{
}

/// Shifts of constants used in sizes and masks.
pub proof fn lemma_const_shifts()
    by (bit_vector)
    ensures
        1u32 << 6u32 == 64,
        1u32 << 7u32 == 0x80,
        1u32 << 8u32 == 0x100,
        1u64 << 40u64 != 0,
        1u64 << 41u64 != 0,
        1u32 << 1u32 == 2u32,
        0u32 << 1u32 == 0u32,
        (0x8000_0000_0000_0000u64 >> 63u64) & 1 == 1,
        (0x8000_0000_0000_0000u64 >> 32u64) & 0xF == 0,
{
}

/// Ranges of the 4-bit fields of a 64-bit word.
pub proof fn lemma_u64_masks(x: u64)
    by (bit_vector)
    ensures
        (x >> 26u64) & 0xF < 16,
        (x >> 32u64) & 0xF < 16,
        (x >> 36u64) & 0xF < 16,
        x & 0xF < 16,
        (x >> 4u64) & 0xF < 16,
        (x >> 8u64) & 0xF < 16,
        (((x >> 32u64) & 0x3FF_FFFF) as u32) & 0x3FF_FFFF == ((x >> 32u64) & 0x3FF_FFFF) as u32,
{
}

/// Ranges of masked fields of a 32-bit word.
pub proof fn lemma_u32_masks(x: u32)
    by (bit_vector)
    ensures
        x & 0xFFF <= 0xFFF,
        (x >> 22u32) & 0xF < 16,
        x >> 2u32 < 0x4000_0000,
        (x >> 25u32) & 0x7F < 128,
        x & 0x7F < 128,
        (x >> 12u32) & 0x7FF < 2048,
        x & 0x7FF < 2048,
        x >> 12u32 <= 0xFFFFF,
        x & 0x00FF_FFFF < 0x100_0000,
        (x >> 9u32) & 0xF < 16,
        (x >> 4u32) & 0xF < 16,
        x & 0xF < 16,
{
}

/// Facts about 4-bit fields held in bytes.
pub proof fn lemma_u8_facts(a: u8, b: u8)
    by (bit_vector)
    ensures
        a < 16 ==> (a & b) & 0xF == a & b,
        b == 0xF && a < 16 ==> a & 0xF == a,
        a < 16 ==> a & b < 16,
{
}

/// Facts about single bits of 16-bit words.
pub proof fn lemma_u16_facts(a: u16, b: u16, c: u16, s: u16)
    by (bit_vector)
    ensures
        a & b & c == b & a & c,
        s < 16 ==> ((a >> s) & 1 == 0 || (a >> s) & 1 == 1),
{
}

/// Testing the two top bits of a 64-bit word through their masks, and
/// shifting a 24-bit page number into an address.
pub proof fn lemma_u64_bit_test(a: u64)
    by (bit_vector)
    ensures
        (a & (1u64 << 63u64) != 0) == ((a >> 63u64) & 1 == 1),
        (a & (1u64 << 62u64) != 0) == ((a >> 62u64) & 1 == 1),
        a < 0x100_0000 ==> a << 12u64 == a * 4096,
{
}

/// Shifting a page number into an address.
pub proof fn lemma_u64_shl12(a: u64)
    requires
        a < 0x100_0000,
    ensures
        a << 12u64 == a * 4096,
{
    lemma_u64_bit_test(a);
}

/// Facts about single bits of 64-bit words.
pub proof fn lemma_u64_facts(a: u64, s: u64, t: u64)
    by (bit_vector)
    ensures
        s < 64 ==> ((a >> s) & 1 == 0 || (a >> s) & 1 == 1),
        (0u64 >> s) & 1 == 0,
        s < 64 && t < 64 ==> (((a | (1u64 << s)) >> t) & 1 == 1) == (((a >> t) & 1 == 1) || t == s),
{
}

/// Testing and changing one bit through its mask.
pub proof fn lemma_mask_bit(v: u32, b: u32)
    requires
        b < 32,
    ensures
        (v & (1u32 << b) != 0) == bit32(v, b),
        bit32(v | (1u32 << b), b),
        !bit32(v & !(1u32 << b), b),
        forall|k: u32| k < 32 && k != b ==> bit32(#[trigger] (v | (1u32 << b)), k) == bit32(v, k),
        forall|k: u32| k < 32 && k != b ==> bit32(#[trigger] (v & !(1u32 << b)), k) == bit32(v, k),
{
    lemma_u32_facts(v, 0, 0, b);
    assert forall|k: u32| k < 32 && k != b implies bit32(#[trigger] (v | (1u32 << b)), k) == bit32(v, k) by {
        lemma_u32_facts(v, 0, k, b);
    }
    assert forall|k: u32| k < 32 && k != b implies bit32(#[trigger] (v & !(1u32 << b)), k) == bit32(v, k) by {
        lemma_u32_facts(v, 0, k, b);
    }
}

/// No bit of zero is set.
pub proof fn lemma_bit32_of_zero(b: u32)
    ensures
        !bit32(0, b),
{
    lemma_u32_facts(0, 0, 0, b);
}

} // verus!
