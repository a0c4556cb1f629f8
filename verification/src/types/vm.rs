use vstd::prelude::*;

verus! {

/// Scheduling state of a virtual CPU.
#[derive(Clone, Copy, Debug, PartialEq, Eq)]
pub enum ThreadStatus {
    Dead,
    Ready,
    Running,
    Blocked,
    IntBlocked,
    VmWait,
}

impl ThreadStatus {
    /// Numeric code stored in a thread context (declaration order).
    pub open spec fn spec_code(self) -> u8 {
        match self {
            ThreadStatus::Dead => 0,
            ThreadStatus::Ready => 1,
            ThreadStatus::Running => 2,
            ThreadStatus::Blocked => 3,
            ThreadStatus::IntBlocked => 4,
            ThreadStatus::VmWait => 5,
        }
    }

    pub fn code(self) -> (r: u8)
        ensures
            r == self.spec_code(),
    {
        match self {
            ThreadStatus::Dead => 0,
            ThreadStatus::Ready => 1,
            ThreadStatus::Running => 2,
            ThreadStatus::Blocked => 3,
            ThreadStatus::IntBlocked => 4,
            ThreadStatus::VmWait => 5,
        }
    }
}

/// Identity of a virtual CPU: `cpuidx` bits 0..=15, `vmidx` bits 16..=23,
/// `vint` bits 24..=31.
#[derive(Clone, Copy, Debug, PartialEq, Eq)]
pub struct VmId(pub u32);

impl VmId {
    pub open spec fn spec_vmidx(self) -> u8 {
        ((self.0 >> 16u32) & 0xFF) as u8
    }

    pub open spec fn spec_cpuidx(self) -> u16 {
        (self.0 & 0xFFFF) as u16
    }

    pub open spec fn spec_vint(self) -> u8 {
        (self.0 >> 24u32) as u8
    }

    pub fn new(vmidx: u8, cpuidx: u16, vint: u8) -> (r: VmId)
        ensures
            r.spec_vmidx() == vmidx,
            r.spec_cpuidx() == cpuidx,
            r.spec_vint() == vint,
    {
        let a = vmidx as u32;
        let b = cpuidx as u32;
        let c = vint as u32;
        let raw = b | (a << 16u32) | (c << 24u32);
        proof {
            assert(a < 256 && b < 65536 && c < 256 ==> ((b | (a << 16u32) | (c << 24u32)) >> 16u32)
                & 0xFF == a && (b | (a << 16u32) | (c << 24u32)) & 0xFFFF == b && (b | (a << 16u32)
                | (c << 24u32)) >> 24u32 == c) by (bit_vector);
        }
        VmId(raw)
    }

    pub fn vmidx(self) -> (r: u8)
        ensures
            r == self.spec_vmidx(),
    {
        ((self.0 >> 16u32) & 0xFF) as u8
    }

    pub fn cpuidx(self) -> (r: u16)
        ensures
            r == self.spec_cpuidx(),
    {
        (self.0 & 0xFFFF) as u16
    }

    pub fn vint(self) -> (r: u8)
        ensures
            r == self.spec_vint(),
    {
        (self.0 >> 24u32) as u8
    }
}

} // verus!
