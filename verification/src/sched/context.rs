//! Per-thread context: scheduling metadata, saved registers and guest
//! registers. `next`/`prev` are the ring links used by the ready list; they
//! hold indices into the thread table (0 means no thread).

use vstd::prelude::*;
use crate::types::vm::VmId;

verus! {

/// Saved state of one virtual CPU.
#[derive(Clone, Copy)]
pub struct ThreadContext {
    pub next: u32,
    pub prev: u32,
    pub tid: u8,
    pub hthread: u8,
    pub prio: u8,
    pub status: u8,
    pub vmstatus: u8,
    pub base_prio: u8,
    pub tlbidxmask: u8,
    pub _pad0: u8,
    pub id: VmId,
    pub vmblock: u32,
    pub trapmask: u32,
    pub elr: u32,
    pub tree_rightleft: u64,
    pub tree_timeout: u64,
    pub cpuint_pending: u16,
    pub cpuint_enabled: u16,
    pub gevb: u32,
    pub totalcycles: u64,
    pub pktcount: u64,
    pub futex_continuation: u64,
    pub ssr: u32,
    pub ccr: u32,
    pub r3130: u64,
    pub r2928: u64,
    pub r1918: u64,
    pub r1716: u64,
    pub usrp30: u64,
    pub r0100: u64,
    pub r1514: u64,
    pub r1312: u64,
    pub r1110: u64,
    pub r0908: u64,
    pub r0706: u64,
    pub r0504: u64,
    pub r0302: u64,
    pub lc0sa0: u64,
    pub gpugp: u64,
    pub lc1sa1: u64,
    pub m1m0: u64,
    pub r2726: u64,
    pub r2524: u64,
    pub r2322: u64,
    pub r2120: u64,
    pub gelr: u32,
    pub gssr: u32,
    pub gosp: u32,
    pub gbadva: u32,
    pub cs1cs0: u64,
    pub framelimit: u32,
    pub framekey: u32,
    pub dm0: u32,
    pub vwctrl: u32,
}

/// `a` equals `b` except possibly its ring links and status.
pub open spec fn same_but_links(a: ThreadContext, b: ThreadContext) -> bool {
    a == ThreadContext { next: a.next, prev: a.prev, status: a.status, ..b }
}

/// The context with every field zero.
pub open spec fn spec_zeroed() -> ThreadContext {
    ThreadContext {
        next: 0,
        prev: 0,
        tid: 0,
        hthread: 0,
        prio: 0,
        status: 0,
        vmstatus: 0,
        base_prio: 0,
        tlbidxmask: 0,
        _pad0: 0,
        id: VmId(0),
        vmblock: 0,
        trapmask: 0,
        elr: 0,
        tree_rightleft: 0,
        tree_timeout: 0,
        cpuint_pending: 0,
        cpuint_enabled: 0,
        gevb: 0,
        totalcycles: 0,
        pktcount: 0,
        futex_continuation: 0,
        ssr: 0,
        ccr: 0,
        r3130: 0,
        r2928: 0,
        r1918: 0,
        r1716: 0,
        usrp30: 0,
        r0100: 0,
        r1514: 0,
        r1312: 0,
        r1110: 0,
        r0908: 0,
        r0706: 0,
        r0504: 0,
        r0302: 0,
        lc0sa0: 0,
        gpugp: 0,
        lc1sa1: 0,
        m1m0: 0,
        r2726: 0,
        r2524: 0,
        r2322: 0,
        r2120: 0,
        gelr: 0,
        gssr: 0,
        gosp: 0,
        gbadva: 0,
        cs1cs0: 0,
        framelimit: 0,
        framekey: 0,
        dm0: 0,
        vwctrl: 0,
    }
}

impl ThreadContext {
    /// A context with every field zero.
    pub fn zeroed() -> (r: Self)
        ensures
            r == spec_zeroed(),
    {
        Self {
            next: 0,
            prev: 0,
            tid: 0,
            hthread: 0,
            prio: 0,
            status: 0,
            vmstatus: 0,
            base_prio: 0,
            tlbidxmask: 0,
            _pad0: 0,
            id: VmId(0),
            vmblock: 0,
            trapmask: 0,
            elr: 0,
            tree_rightleft: 0,
            tree_timeout: 0,
            cpuint_pending: 0,
            cpuint_enabled: 0,
            gevb: 0,
            totalcycles: 0,
            pktcount: 0,
            futex_continuation: 0,
            ssr: 0,
            ccr: 0,
            r3130: 0,
            r2928: 0,
            r1918: 0,
            r1716: 0,
            usrp30: 0,
            r0100: 0,
            r1514: 0,
            r1312: 0,
            r1110: 0,
            r0908: 0,
            r0706: 0,
            r0504: 0,
            r0302: 0,
            lc0sa0: 0,
            gpugp: 0,
            lc1sa1: 0,
            m1m0: 0,
            r2726: 0,
            r2524: 0,
            r2322: 0,
            r2120: 0,
            gelr: 0,
            gssr: 0,
            gosp: 0,
            gbadva: 0,
            cs1cs0: 0,
            framelimit: 0,
            framekey: 0,
            dm0: 0,
            vwctrl: 0,
        }
    }
}

} // verus!
