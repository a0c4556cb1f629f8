use vstd::prelude::*;

verus! {

/// Virtual interrupt controller operations.
#[derive(Clone, Copy, Debug, PartialEq, Eq)]
pub enum IntOp {
    Nop,
    GlobEn,
    GlobDis,
    LocEn,
    LocDis,
    Affinity,
    Get,
    Peek,
    Status,
    Post,
    Clear,
}

/// Guest timer operations.
#[derive(Clone, Copy, Debug, PartialEq, Eq)]
pub enum TimerOp {
    GetFreq,
    GetResolution,
    GetTime,
    GetTimeout,
    SetTimeout,
    DeltaTimeout,
}

/// Hexagon architecture revisions.
#[derive(Clone, Copy, Debug, PartialEq, Eq)]
pub enum ArchVersion {
    V65,
    V66,
    V67,
    V68,
    V69,
    V73,
    V75,
    V79,
    V81,
}

impl ArchVersion {
    pub open spec fn spec_from_rev(rev: u8) -> Option<ArchVersion> {
        if rev == 0x65 {
            Some(ArchVersion::V65)
        } else if rev == 0x66 {
            Some(ArchVersion::V66)
        } else if rev == 0x67 {
            Some(ArchVersion::V67)
        } else if rev == 0x68 {
            Some(ArchVersion::V68)
        } else if rev == 0x69 {
            Some(ArchVersion::V69)
        } else if rev == 0x73 {
            Some(ArchVersion::V73)
        } else if rev == 0x75 {
            Some(ArchVersion::V75)
        } else if rev == 0x79 {
            Some(ArchVersion::V79)
        } else if rev == 0x81 {
            Some(ArchVersion::V81)
        } else {
            None
        }
    }

    /// Decode the architecture byte of the core revision register.
    pub fn from_rev(rev: u8) -> (r: Option<ArchVersion>)
        ensures
            r == Self::spec_from_rev(rev),
    {
        match rev {
            0x65 => Some(ArchVersion::V65),
            0x66 => Some(ArchVersion::V66),
            0x67 => Some(ArchVersion::V67),
            0x68 => Some(ArchVersion::V68),
            0x69 => Some(ArchVersion::V69),
            0x73 => Some(ArchVersion::V73),
            0x75 => Some(ArchVersion::V75),
            0x79 => Some(ArchVersion::V79),
            0x81 => Some(ArchVersion::V81),
            _ => None,
        }
    }
}

/// Cache policies of a mapping.
#[allow(non_camel_case_types)]
#[derive(Clone, Copy, Debug, PartialEq, Eq)]
pub enum CacheAttr {
    L1WB_L2UC,
    L1WT_L2UC,
    Device,
    L1UC_L2UC,
    L1WT_L2C,
    L1WB_L2C,
}

impl CacheAttr {
    pub open spec fn spec_cccc(self) -> u8 {
        match self {
            CacheAttr::L1WB_L2UC => 0,
            CacheAttr::L1WT_L2UC => 1,
            CacheAttr::Device => 4,
            CacheAttr::L1UC_L2UC => 6,
            CacheAttr::L1WT_L2C => 5,
            CacheAttr::L1WB_L2C => 7,
        }
    }

    /// The 4-bit `cccc` encoding of the policy.
    pub fn cccc(self) -> (r: u8)
        ensures
            r == self.spec_cccc(),
    {
        match self {
            CacheAttr::L1WB_L2UC => 0,
            CacheAttr::L1WT_L2UC => 1,
            CacheAttr::Device => 4,
            CacheAttr::L1UC_L2UC => 6,
            CacheAttr::L1WT_L2C => 5,
            CacheAttr::L1WB_L2C => 7,
        }
    }
}

} // verus!
