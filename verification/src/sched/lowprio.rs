//! Which hardware threads run the lowest-priority thread, and which are
//! idle in wait mode.

use vstd::prelude::*;
use crate::bits::lemma_trailing_zeros32;
use crate::bits::is_lowest32;

verus! {

/// Low-priority and wait-mode bitmaps over hardware threads.
pub struct LowPrio {
    /// Bit N: hardware thread N runs the lowest-priority thread.
    pub priomask: u32,
    /// Bit N: hardware thread N is in wait mode.
    pub wait_mask: u32,
}

/// The mask of hardware thread `h`.
pub open spec fn hmask(h: u32) -> u32 {
    1u32 << h
}

impl LowPrio {
    /// State after `raise`: the mark is dropped unless a hardware thread
    /// waits.
    pub open spec fn spec_raised(self) -> LowPrio {
        if self.wait_mask != 0 || self.priomask == 0 {
            self
        } else {
            LowPrio { priomask: 0, wait_mask: self.wait_mask }
        }
    }

    /// Effect of `raise` on the state and its result.
    pub open spec fn raises(before: Self, after: Self, r: Option<u32>) -> bool {
        &&& after == before.spec_raised()
        &&& if before.wait_mask != 0 || before.priomask == 0 {
            r is None
        } else {
            r matches Some(h) && is_lowest32(before.priomask, h as int)
        }
    }

    pub fn new() -> (r: Self)
        ensures
            r.priomask == 0,
            r.wait_mask == 0,
    {
        Self { priomask: 0, wait_mask: 0 }
    }

    /// Forget the lowest-priority mark, unless some hardware thread waits.
    /// Returns the lowest hardware thread that was marked.
    pub fn raise(&mut self) -> (r: Option<u32>)
        ensures
            Self::raises(*old(self), *final(self), r),
    {
        if self.wait_mask != 0 {
            return None;
        }
        let mask = self.priomask;
        if mask == 0 {
            return None;
        }
        self.priomask = 0;
        proof {
            lemma_trailing_zeros32(mask);
        }
        Some(mask.trailing_zeros())
    }

    /// Mark hardware thread `hthread` as running the lowest priority.
    pub fn mark_low(&mut self, hthread: u32)
        requires
            hthread < 32,
        ensures
            final(self).priomask == old(self).priomask | hmask(hthread),
            final(self).wait_mask == old(self).wait_mask,
    {
        self.priomask = self.priomask | (1u32 << hthread);
    }

    /// Unmark hardware thread `hthread`.
    pub fn unmark_low(&mut self, hthread: u32)
        requires
            hthread < 32,
        ensures
            final(self).priomask == old(self).priomask & !hmask(hthread),
            final(self).wait_mask == old(self).wait_mask,
    {
        self.priomask = self.priomask & !(1u32 << hthread);
    }

    /// Whether hardware thread `hthread` is marked as lowest priority.
    pub fn is_low(&self, hthread: u32) -> (r: bool)
        requires
            hthread < 32,
        ensures
            r == (self.priomask & hmask(hthread) != 0),
    {
        (self.priomask & (1u32 << hthread)) != 0
    }

    /// Mark hardware thread `hthread` as waiting.
    pub fn mark_wait(&mut self, hthread: u32)
        requires
            hthread < 32,
        ensures
            final(self).wait_mask == old(self).wait_mask | hmask(hthread),
            final(self).priomask == old(self).priomask,
    {
        self.wait_mask = self.wait_mask | (1u32 << hthread);
    }

    /// Unmark hardware thread `hthread` as waiting.
    pub fn unmark_wait(&mut self, hthread: u32)
        requires
            hthread < 32,
        ensures
            final(self).wait_mask == old(self).wait_mask & !hmask(hthread),
            final(self).priomask == old(self).priomask,
    {
        self.wait_mask = self.wait_mask & !(1u32 << hthread);
    }
}


impl Default for LowPrio {
    fn default() -> (r: Self)
        ensures
            r.priomask == 0,
            r.wait_mask == 0,
    {
        Self::new()
    }
}

} // verus!
