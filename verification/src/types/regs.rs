use vstd::prelude::*;

verus! {

/// Supervisor status register.
#[derive(Clone, Copy, Debug, PartialEq, Eq)]
pub struct Ssr(pub u32);

/// Cache control register.
#[derive(Clone, Copy, Debug, PartialEq, Eq)]
pub struct Ccr(pub u32);

/// System configuration register: MMU enable bit 0, guest mode bit 9,
/// dynamic multithreading bit 15.
#[derive(Clone, Copy, Debug, PartialEq, Eq)]
pub struct Syscfg(pub u32);

/// `v` with bit `bit` set to `on`.
pub open spec fn spec_set_bit(v: u32, bit: u32, on: bool) -> u32 {
    if on {
        v | (1u32 << bit)
    } else {
        v & !(1u32 << bit)
    }
}

/// Set or clear one bit of a register value.
pub fn set_bit(v: u32, bit: u32, on: bool) -> (r: u32)
    requires
        bit < 32,
    ensures
        r == spec_set_bit(v, bit, on),
{
    if on {
        v | (1u32 << bit)
    } else {
        v & !(1u32 << bit)
    }
}

impl Ssr {
    /// Whether interrupts are enabled.
    pub fn ie(self) -> (r: bool)
        ensures
            r == ((self.0 >> 18u32) & 1 == 1),
    {
        (self.0 >> 18u32) & 1 == 1
    }

    pub fn with_ie(self, on: bool) -> (r: Ssr)
        ensures
            r.0 == spec_set_bit(self.0, 18, on),
    {
        Ssr(set_bit(self.0, 18, on))
    }
}

impl Syscfg {
    pub fn mmu(self) -> (r: bool)
        ensures
            r == (self.0 & 1 == 1),
    {
        self.0 & 1 == 1
    }

    pub fn with_mmu(self, on: bool) -> (r: Syscfg)
        ensures
            r.0 == spec_set_bit(self.0, 0, on),
    {
        Syscfg(set_bit(self.0, 0, on))
    }

    pub fn with_guest(self, on: bool) -> (r: Syscfg)
        ensures
            r.0 == spec_set_bit(self.0, 9, on),
    {
        Syscfg(set_bit(self.0, 9, on))
    }

    pub fn with_dmt(self, on: bool) -> (r: Syscfg)
        ensures
            r.0 == spec_set_bit(self.0, 15, on),
    {
        Syscfg(set_bit(self.0, 15, on))
    }
}

} // verus!
