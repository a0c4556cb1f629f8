//! L2 cache sizing: the cache size from the array size encoding, and the
//! SYSCFG encoding of the tag size.

use vstd::prelude::*;
use vstd::std_specs::bits::u32_trailing_zeros;

verus! {

/// Bytes per array unit up to the switch (32 KB).
pub const L2_CHUNK: u32 = 32 * 1024;

/// Bytes per array unit past the switch (64 KB).
pub const L2_BIG_CHUNK: u32 = 64 * 1024;

/// Array units counted in small chunks.
pub const L2_CHUNK_SWITCH: u32 = 32;

/// QoS low watermark.
pub const L2_QOS_WATERMARK_LO: u32 = 24;

/// QoS L2 watermark.
pub const L2_QOS_WATERMARK_L2: u32 = 24;

/// QoS mode.
pub const L2_QOS_MODE_TL: u32 = 1;

/// SYSCFG encoding of the largest cache.
pub const SYSCFG_L2CFG_MAX: u32 = 7;

/// Tag size encodings (0, 1, 2, 3, 4, 5 and 7).
#[derive(Clone, Copy, Debug, PartialEq, Eq)]
pub enum L2TagSize {
    S0,
    S64,
    S128,
    S256,
    S512,
    S1024,
    Reserved,
}

impl L2TagSize {
    pub open spec fn spec_code(self) -> u8 {
        match self {
            L2TagSize::S0 => 0,
            L2TagSize::S64 => 1,
            L2TagSize::S128 => 2,
            L2TagSize::S256 => 3,
            L2TagSize::S512 => 4,
            L2TagSize::S1024 => 5,
            L2TagSize::Reserved => 7,
        }
    }

    /// The encoding.
    pub fn code(self) -> (r: u8)
        ensures
            r == self.spec_code(),
    {
        match self {
            L2TagSize::S0 => 0,
            L2TagSize::S64 => 1,
            L2TagSize::S128 => 2,
            L2TagSize::S256 => 3,
            L2TagSize::S512 => 4,
            L2TagSize::S1024 => 5,
            L2TagSize::Reserved => 7,
        }
    }
}

/// Cache size of `l2arr` array units: 32 KB each up to 32 units, 64 KB
/// for each unit past them.
pub open spec fn spec_l2_size(l2arr: u32) -> int {
    if l2arr > L2_CHUNK_SWITCH {
        L2_CHUNK_SWITCH * L2_CHUNK + (l2arr - L2_CHUNK_SWITCH) * L2_BIG_CHUNK
    } else {
        l2arr * L2_CHUNK
    }
}

/// Cache size in bytes of `l2arr` array units.
pub fn l2_size_from_array(l2arr: u32) -> (r: u32)
    requires
        spec_l2_size(l2arr) <= u32::MAX,
    ensures
        r == spec_l2_size(l2arr),
{
    if l2arr > L2_CHUNK_SWITCH {
        L2_CHUNK_SWITCH * L2_CHUNK + (l2arr - L2_CHUNK_SWITCH) * L2_BIG_CHUNK
    } else {
        l2arr * L2_CHUNK
    }
}

/// Cache size in bytes of `array_size_kb` kilobytes.
pub fn l2_size_from_config_kb(array_size_kb: u32) -> (r: u32)
    requires
        array_size_kb * 1024 <= u32::MAX,
    ensures
        r == array_size_kb * 1024,
{
    array_size_kb * 1024
}

/// SYSCFG encoding of a tag size: 1536 is the largest cache, 0 none,
/// otherwise the number of trailing zero bits less 5 (at least 0).
pub open spec fn spec_tag_size_to_syscfg(tag_size: u32) -> u32 {
    if tag_size == 1536 {
        SYSCFG_L2CFG_MAX
    } else if tag_size == 0 {
        0
    } else if u32_trailing_zeros(tag_size) >= 5 {
        (u32_trailing_zeros(tag_size) - 5) as u32
    } else {
        0
    }
}

/// SYSCFG encoding of a tag size.
pub fn tag_size_to_syscfg(tag_size: u32) -> (r: u32)
    ensures
        r == spec_tag_size_to_syscfg(tag_size),
{
    if tag_size == 1536 {
        SYSCFG_L2CFG_MAX
    } else if tag_size == 0 {
        0
    } else {
        let tz = tag_size.trailing_zeros();
        tz.saturating_sub(5)
    }
}

/// L2 configuration: size in bytes and tag size encoding.
#[derive(Clone, Copy, Debug, PartialEq, Eq)]
pub struct L2CacheConfig {
    pub l2size: u32,
    pub l2tags: u32,
}

} // verus!
