//! Linear translation: the ASID entry points to a list of 64-bit
//! descriptors in guest memory. A descriptor either maps a range of
//! virtual pages or chains to the next part of the list; the all-zero
//! descriptor ends it.

use vstd::prelude::*;
use crate::types::asid::AsidEntry;
use crate::types::linear::LinearFmt;
use crate::types::translate::{Translation, lemma_translation_eq, lemma_translation_setters, reserved_bits};
use crate::mem::translate::TranslateCtx;

verus! {

/// Longest walk of a descriptor list, against cyclic lists.
pub const MAX_LINEAR_HOPS: u32 = 4096;

/// `input` updated from the matching descriptor `entry`: its physical
/// page, size at most the descriptor's, permissions masked, cache
/// attributes from the descriptor when the input's were weak, and
/// weakness and sharing from the descriptor; failure and reserved bits
/// kept.
pub open spec fn linear_updated(input: Translation, entry: LinearFmt, r: Translation) -> bool {
    &&& r.spec_pn() == entry.spec_ppn()
    &&& r.spec_size() == (if input.spec_size() < entry.spec_size() { input.spec_size() } else { entry.spec_size() })
    &&& r.spec_xwru() == input.spec_xwru() & entry.spec_xwru()
    &&& r.spec_cccc() == (if input.spec_weak_ccc() { entry.spec_cccc() } else { input.spec_cccc() })
    &&& r.spec_weak_ccc() == entry.spec_weak_ccc()
    &&& r.spec_shared() == entry.spec_shared()
    &&& r.spec_is_bad() == input.spec_is_bad()
    &&& reserved_bits(r) == reserved_bits(input)
}

/// The translation `linear_updated` describes: it fixes every field and
/// the reserved bits, so exactly one translation meets it.
pub open spec fn spec_linear_update(input: Translation, entry: LinearFmt) -> Translation {
    choose|t: Translation| linear_updated(input, entry, t)
}

/// Fill in the result with the fields of the matching descriptor.
pub fn linear_translate_update(input: Translation, entry: LinearFmt) -> (r: Translation)
    ensures
        linear_updated(input, entry, r),
        r == spec_linear_update(input, entry),
{
    proof {
        crate::bits::lemma_u64_masks(entry.0);
        crate::bits::lemma_u64_masks(input.0);
    }
    let size = if input.size() < entry.size() {
        input.size()
    } else {
        entry.size()
    };
    let t0 = input.with_size(size);
    let mut out = t0.with_pn(entry.ppn());
    proof {
        lemma_translation_setters(input, 0, size, false);
        lemma_translation_setters(t0, entry.spec_ppn(), 0, false);
        crate::bits::lemma_u8_facts(size, 0xF);
    }
    if out.weak_ccc() {
        let t1 = out;
        out = out.with_cccc(entry.cccc());
        proof {
            lemma_translation_setters(t1, 0, entry.spec_cccc(), false);
            crate::bits::lemma_u8_facts(entry.spec_cccc(), 0xF);
        }
    }
    let t2 = out;
    let t3 = t2.with_xwru(t2.xwru() & entry.xwru());
    let t4 = t3.with_weak_ccc(entry.weak_ccc());
    let t5 = t4.with_shared(entry.shared());
    proof {
        lemma_translation_setters(t2, 0, (t2.spec_xwru() & entry.spec_xwru()) as u8, false);
        crate::bits::lemma_u64_masks(t2.0);
        crate::bits::lemma_u8_facts(t2.spec_xwru(), entry.spec_xwru());
        lemma_translation_setters(t3, 0, 0, entry.spec_weak_ccc());
        lemma_translation_setters(t4, 0, 0, entry.spec_shared());
        assert(t5.spec_pn() == entry.spec_ppn());
        assert(t5.spec_size() == (if input.spec_size() < entry.spec_size() { input.spec_size() } else { entry.spec_size() }));
        assert(t5.spec_xwru() == input.spec_xwru() & entry.spec_xwru());
        assert(t5.spec_cccc() == (if input.spec_weak_ccc() { entry.spec_cccc() } else { input.spec_cccc() }));
        assert(linear_updated(input, entry, t5));
        lemma_translation_eq(t5, spec_linear_update(input, entry));
    }
    t5
}

/// Descriptor `entry` maps virtual page `vpn`: equal above its page size.
pub open spec fn spec_linear_match(entry: LinearFmt, vpn: u32) -> bool {
    let mask = (!0u32) << ((entry.spec_size() as u32) * 2);
    (entry.spec_vpn() & mask) == (vpn & mask)
}

proof fn lemma_mask_vs_shift(a: u32, b: u32, s: u32)
    by (bit_vector)
    requires
        s < 32,
    ensures
        ((a & ((!0u32) << s)) == (b & ((!0u32) << s))) == ((a >> s) == (b >> s)),
{
}

/// A descriptor of page size encoding `size` (pages of 4^size small
/// pages) maps exactly the virtual pages that agree with its own above
/// the low `2 * size` bits.
pub proof fn law_linear_match(entry: LinearFmt, vpn: u32)
    ensures
        entry.spec_size() < 16,
        spec_linear_match(entry, vpn) == ((entry.spec_vpn() >> ((entry.spec_size() as u32) * 2)) == (vpn >> ((
        entry.spec_size() as u32) * 2))),
{
    let x = entry.0;
    assert(((x & 0xF) as u8) < 16) by (bit_vector);
    lemma_mask_vs_shift(entry.spec_vpn(), vpn, ((entry.spec_size() as u32) * 2) as u32);
}

/// The walk ends at the all-zero descriptor, follows a chain descriptor
/// to its low word rounded down to 8 bytes, stops at a descriptor that
/// maps the page, and otherwise moves on to the next 8-byte position.
pub proof fn law_linear_step(list: u32, entry: LinearFmt, vpn: u32)
    ensures
        (spec_linear_step(list, entry, vpn) == LinearStep::End) == (entry.0 == 0),
        entry.0 != 0 && entry.spec_chain() ==> (spec_linear_step(list, entry, vpn) matches LinearStep::Chain(next) && next % 8
            == 0 && next <= entry.spec_low() && entry.spec_low() - next < 8),
        entry.0 != 0 && !entry.spec_chain() ==> (spec_linear_step(list, entry, vpn) == LinearStep::Hit) == spec_linear_match(
            entry,
            vpn,
        ),
        entry.0 != 0 && !entry.spec_chain() && !spec_linear_match(entry, vpn) ==> spec_linear_step(list, entry, vpn)
            == LinearStep::Next(((list as int + 8) % 0x1_0000_0000) as u32),
{
    let low = entry.spec_low();
    assert((low & !7u32) % 8 == 0 && (low & !7u32) <= low && low - (low & !7u32) < 8) by (bit_vector);
}

/// Whether descriptor `entry` maps virtual page `vpn`.
pub fn linear_entry_matches(entry: LinearFmt, vpn: u32) -> (r: bool)
    ensures
        r == spec_linear_match(entry, vpn),
{
    proof {
        crate::bits::lemma_u64_masks(entry.0);
    }
    let evpn = entry.vpn();
    let mask = !0u32 << (entry.size() as u32 * 2);
    (evpn & mask) == (vpn & mask)
}

/// Physical address of list position `list` when its page is at
/// physical page `list_ppn`.
pub fn linear_list_pa(list: u32, list_ppn: u32) -> (r: u64)
    ensures
        r == ((list_ppn as u64) << 12u64) | ((list & 0xFFF) as u64),
{
    ((list_ppn as u64) << 12u64) | ((list & 0xFFF) as u64)
}

/// What the walk does with the descriptor read at list position `list`
/// while looking for a virtual page.
#[derive(Clone, Copy, Debug, PartialEq, Eq)]
pub enum LinearStep {
    /// The all-zero descriptor: the list ends without a match.
    End,
    /// A chain descriptor: continue at this (8-byte aligned) position.
    Chain(u32),
    /// The descriptor maps the page.
    Hit,
    /// The descriptor maps other pages: continue with the next one.
    Next(u32),
}

/// The step the walk takes on descriptor `entry` at position `list`
/// when looking for page `vpn`.
pub open spec fn spec_linear_step(list: u32, entry: LinearFmt, vpn: u32) -> LinearStep {
    if entry.0 == 0 {
        LinearStep::End
    } else if entry.spec_chain() {
        LinearStep::Chain(entry.spec_low() & !7u32)
    } else if spec_linear_match(entry, vpn) {
        LinearStep::Hit
    } else {
        LinearStep::Next(vstd::wrapping::u32_specs::wrapping_add(list, 8))
    }
}

/// Decide the next step of the walk from the descriptor read at `list`.
pub fn linear_step(list: u32, entry: LinearFmt, vpn: u32) -> (r: LinearStep)
    ensures
        r == spec_linear_step(list, entry, vpn),
{
    if entry.is_null() {
        LinearStep::End
    } else if entry.chain() {
        LinearStep::Chain(entry.low() & !7u32)
    } else if linear_entry_matches(entry, vpn) {
        LinearStep::Hit
    } else {
        LinearStep::Next(list.wrapping_add(8))
    }
}

/// Physical page of list page `gpn`: itself without a guest map, else
/// its translation through the guest map.
pub open spec fn spec_list_page<C: TranslateCtx>(ctx: &C, guestmap: AsidEntry, gpn: u32) -> Translation {
    ctx.spec_translate(Translation::spec_default_for_va(0).spec_with_pn(gpn), guestmap)
}

/// The result of the walk for `input` from list position `list`, with at
/// most `hops` descriptors left to read. `last_gpn` is the list page
/// translated last and `list_ppn` its physical page. Entering a new list
/// page translates it through the guest map (if there is one), and the
/// walk fails when that grants no write; then the descriptor at the
/// position is read and the walk ends, fails, or moves on by
/// `spec_linear_step`. A hit is translated through the guest map unless
/// it is shared or there is none.
pub open spec fn spec_linear_walk<C: TranslateCtx>(
    ctx: &C,
    input: Translation,
    guestmap: AsidEntry,
    list: u32,
    last_gpn: u32,
    list_ppn: u32,
    hops: nat,
) -> Translation
    decreases hops,
{
    if hops == 0 {
        Translation::spec_bad()
    } else {
        let gpn = list >> 12u32;
        let new_page = gpn != last_gpn;
        let mapped = !guestmap.spec_is_empty();
        if new_page && mapped && spec_list_page(ctx, guestmap, gpn).spec_xwru() & 0x2 == 0 {
            Translation::spec_bad()
        } else {
            let ppn = if !new_page {
                list_ppn
            } else if mapped {
                spec_list_page(ctx, guestmap, gpn).spec_pn()
            } else {
                gpn
            };
            let entry = LinearFmt(ctx.spec_read(((ppn as u64) << 12u64) | ((list & 0xFFF) as u64)));
            match spec_linear_step(list, entry, input.spec_pn()) {
                LinearStep::End => Translation::spec_bad(),
                LinearStep::Chain(next) => spec_linear_walk(ctx, input, guestmap, next, gpn, ppn, (hops - 1) as nat),
                LinearStep::Next(next) => spec_linear_walk(ctx, input, guestmap, next, gpn, ppn, (hops - 1) as nat),
                LinearStep::Hit => {
                    let out = spec_linear_update(input, entry);
                    if !out.spec_shared() && mapped {
                        ctx.spec_translate(out, guestmap)
                    } else {
                        out
                    }
                },
            }
        }
    }
}

/// Linear translation of `input` through `info` in context `ctx`: the
/// walk from the list the entry points to, through the guest map of its
/// VM, with no list page translated yet.
pub open spec fn spec_linear_translate<C: TranslateCtx>(ctx: &C, input: Translation, info: AsidEntry) -> Translation {
    spec_linear_walk(
        ctx,
        input,
        ctx.spec_guestmap(info.fields.spec_vmid()),
        info.ptb,
        0xFFFF_FFFF,
        0,
        MAX_LINEAR_HOPS as nat,
    )
}

/// `i` is the first of the descriptors `descs` that maps page `vpn`.
pub open spec fn is_first_linear_match(descs: Seq<u64>, vpn: u32, i: int) -> bool {
    &&& 0 <= i < descs.len()
    &&& spec_linear_match(LinearFmt(descs[i]), vpn)
    &&& forall|j: int| 0 <= j < i ==> !spec_linear_match(LinearFmt(#[trigger] descs[j]), vpn)
}

/// Scanning the flat descriptors `descs` from `i` for `input`'s page:
/// the update from the first that maps it, or failure.
pub open spec fn spec_flat_scan(input: Translation, descs: Seq<u64>, i: int) -> Translation
    decreases descs.len() - i,
{
    if i < 0 || i >= descs.len() {
        Translation::spec_bad()
    } else if spec_linear_match(LinearFmt(descs[i]), input.spec_pn()) {
        spec_linear_update(input, LinearFmt(descs[i]))
    } else {
        spec_flat_scan(input, descs, i + 1)
    }
}

proof fn lemma_list_pa(list: u32)
    by (bit_vector)
    ensures
        ((((list >> 12u32) as u64) << 12u64) | ((list & 0xFFF) as u64)) == list as u64,
        list >> 12u32 != 0xFFFF_FFFFu32,
{
}

/// The walk over a flat list from descriptor `i` without a guest map is
/// the scan from `i`.
proof fn lemma_walk_flat<C: TranslateCtx>(
    ctx: &C,
    input: Translation,
    guestmap: AsidEntry,
    ptb: u32,
    descs: Seq<u64>,
    i: int,
    last_gpn: u32,
    list_ppn: u32,
)
    requires
        guestmap.spec_is_empty(),
        descs.len() < MAX_LINEAR_HOPS,
        ptb as int + 8 * descs.len() <= u32::MAX,
        forall|j: int|
            0 <= j <= descs.len() ==> ctx.spec_read(#[trigger] ((ptb + 8 * j) as u64)) == (if j < descs.len() {
                descs[j]
            } else {
                0u64
            }),
        forall|j: int| 0 <= j < descs.len() ==> #[trigger] descs[j] != 0 && !LinearFmt(descs[j]).spec_chain(),
        0 <= i <= descs.len(),
        last_gpn == 0xFFFF_FFFF || list_ppn == last_gpn,
    ensures
        spec_linear_walk(ctx, input, guestmap, (ptb + 8 * i) as u32, last_gpn, list_ppn, (MAX_LINEAR_HOPS - i) as nat)
            == spec_flat_scan(input, descs, i),
    decreases descs.len() - i,
{
    let list = (ptb + 8 * i) as u32;
    lemma_list_pa(list);
    let gpn = list >> 12u32;
    assert(((list as int) as u64) == (ptb + 8 * i) as u64);
    let entry = LinearFmt(ctx.spec_read(((gpn as u64) << 12u64) | ((list & 0xFFF) as u64)));
    if i < descs.len() {
        assert(entry.0 == descs[i]);
        assert(descs[i] != 0 && !LinearFmt(descs[i]).spec_chain());
        if !spec_linear_match(entry, input.spec_pn()) {
            assert(vstd::wrapping::u32_specs::wrapping_add(list, 8) == (ptb + 8 * (i + 1)) as u32);
            lemma_walk_flat(ctx, input, guestmap, ptb, descs, i + 1, gpn, gpn);
        }
    } else {
        assert(entry.0 == 0);
    }
}

/// Without a guest map, a list of plain descriptors ended by the null one
/// translates a page by the first descriptor that maps it, and fails when
/// none does.
pub proof fn law_linear_first_match<C: TranslateCtx>(ctx: &C, input: Translation, info: AsidEntry, descs: Seq<u64>)
    requires
        ctx.spec_guestmap(info.fields.spec_vmid()).spec_is_empty(),
        descs.len() < MAX_LINEAR_HOPS,
        info.ptb as int + 8 * descs.len() <= u32::MAX,
        forall|j: int|
            0 <= j <= descs.len() ==> ctx.spec_read(#[trigger] ((info.ptb + 8 * j) as u64)) == (if j < descs.len() {
                descs[j]
            } else {
                0u64
            }),
        forall|j: int| 0 <= j < descs.len() ==> #[trigger] descs[j] != 0 && !LinearFmt(descs[j]).spec_chain(),
    ensures
        forall|i: int|
            #[trigger] is_first_linear_match(descs, input.spec_pn(), i) ==> spec_linear_translate(ctx, input, info)
                == spec_linear_update(input, LinearFmt(descs[i])),
        (forall|i: int| 0 <= i < descs.len() ==> !spec_linear_match(LinearFmt(#[trigger] descs[i]), input.spec_pn()))
            ==> spec_linear_translate(ctx, input, info) == Translation::spec_bad(),
{
    let gm = ctx.spec_guestmap(info.fields.spec_vmid());
    lemma_walk_flat(ctx, input, gm, info.ptb, descs, 0, 0xFFFF_FFFF, 0);
    assert(((info.ptb + 8 * 0) as u32) == info.ptb);
    assert forall|i: int| #[trigger] is_first_linear_match(descs, input.spec_pn(), i) implies spec_flat_scan(input, descs, 0)
        == spec_linear_update(input, LinearFmt(descs[i])) by {
        lemma_scan_first(input, descs, 0, i);
    }
    if forall|i: int| 0 <= i < descs.len() ==> !spec_linear_match(LinearFmt(#[trigger] descs[i]), input.spec_pn()) {
        lemma_scan_none(input, descs, 0);
    }
}

/// List position of descriptor `j` of a list starting at `ptb`.
pub open spec fn list_pos(ptb: u32, j: int) -> u32 {
    (ptb + 8 * j) as u32
}

/// Scanning flat descriptors from `i` through guest map `guestmap`: the
/// update from the first that maps `input`'s page, translated through the
/// guest map unless shared, or failure.
pub open spec fn spec_nested_scan<C: TranslateCtx>(
    ctx: &C,
    guestmap: AsidEntry,
    input: Translation,
    descs: Seq<u64>,
    i: int,
) -> Translation
    decreases descs.len() - i,
{
    if i < 0 || i >= descs.len() {
        Translation::spec_bad()
    } else if spec_linear_match(LinearFmt(descs[i]), input.spec_pn()) {
        let out = spec_linear_update(input, LinearFmt(descs[i]));
        if !out.spec_shared() {
            ctx.spec_translate(out, guestmap)
        } else {
            out
        }
    } else {
        spec_nested_scan(ctx, guestmap, input, descs, i + 1)
    }
}

/// The walk over a flat list from descriptor `i` through a guest map is
/// the nested scan from `i`.
proof fn lemma_walk_nested<C: TranslateCtx>(
    ctx: &C,
    input: Translation,
    guestmap: AsidEntry,
    ptb: u32,
    descs: Seq<u64>,
    i: int,
    last_gpn: u32,
    list_ppn: u32,
)
    requires
        !guestmap.spec_is_empty(),
        descs.len() < MAX_LINEAR_HOPS,
        ptb as int + 8 * descs.len() <= u32::MAX,
        forall|j: int|
            0 <= j <= descs.len() ==> spec_list_page(ctx, guestmap, #[trigger] list_pos(ptb, j) >> 12u32).spec_xwru() & 0x2 != 0,
        forall|j: int|
            0 <= j <= descs.len() ==> ctx.spec_read(
                ((spec_list_page(ctx, guestmap, #[trigger] list_pos(ptb, j) >> 12u32).spec_pn() as u64) << 12u64) | ((list_pos(ptb, j)
                    & 0xFFF) as u64),
            ) == (if j < descs.len() {
                descs[j]
            } else {
                0u64
            }),
        forall|j: int| 0 <= j < descs.len() ==> #[trigger] descs[j] != 0 && !LinearFmt(descs[j]).spec_chain(),
        0 <= i <= descs.len(),
        last_gpn == 0xFFFF_FFFF || list_ppn == spec_list_page(ctx, guestmap, last_gpn).spec_pn(),
    ensures
        spec_linear_walk(ctx, input, guestmap, list_pos(ptb, i), last_gpn, list_ppn, (MAX_LINEAR_HOPS - i) as nat)
            == spec_nested_scan(ctx, guestmap, input, descs, i),
    decreases descs.len() - i,
{
    let list = list_pos(ptb, i);
    lemma_list_pa(list);
    let gpn = list >> 12u32;
    let entry = LinearFmt(
        ctx.spec_read(((spec_list_page(ctx, guestmap, gpn).spec_pn() as u64) << 12u64) | ((list & 0xFFF) as u64)),
    );
    if i < descs.len() {
        assert(entry.0 == descs[i]);
        assert(descs[i] != 0 && !LinearFmt(descs[i]).spec_chain());
        if !spec_linear_match(entry, input.spec_pn()) {
            assert(vstd::wrapping::u32_specs::wrapping_add(list, 8) == list_pos(ptb, i + 1));
            lemma_walk_nested(ctx, input, guestmap, ptb, descs, i + 1, gpn, spec_list_page(ctx, guestmap, gpn).spec_pn());
        }
    } else {
        assert(entry.0 == 0);
    }
}

proof fn lemma_nested_scan_first<C: TranslateCtx>(
    ctx: &C,
    guestmap: AsidEntry,
    input: Translation,
    descs: Seq<u64>,
    j: int,
    i: int,
)
    requires
        is_first_linear_match(descs, input.spec_pn(), i),
        0 <= j <= i,
    ensures
        spec_nested_scan(ctx, guestmap, input, descs, j) == ({
            let out = spec_linear_update(input, LinearFmt(descs[i]));
            if !out.spec_shared() {
                ctx.spec_translate(out, guestmap)
            } else {
                out
            }
        }),
    decreases i - j,
{
    if j < i {
        assert(!spec_linear_match(LinearFmt(descs[j]), input.spec_pn()));
        lemma_nested_scan_first(ctx, guestmap, input, descs, j + 1, i);
    }
}

proof fn lemma_nested_scan_none<C: TranslateCtx>(ctx: &C, guestmap: AsidEntry, input: Translation, descs: Seq<u64>, j: int)
    requires
        0 <= j <= descs.len(),
        forall|i: int| 0 <= i < descs.len() ==> !spec_linear_match(LinearFmt(#[trigger] descs[i]), input.spec_pn()),
    ensures
        spec_nested_scan(ctx, guestmap, input, descs, j) == Translation::spec_bad(),
    decreases descs.len() - j,
{
    if j < descs.len() {
        assert(!spec_linear_match(LinearFmt(descs[j]), input.spec_pn()));
        lemma_nested_scan_none(ctx, guestmap, input, descs, j + 1);
    }
}

/// Through a guest map whose list pages are writable, a list of plain
/// descriptors ended by the null one translates a page by the first
/// descriptor that maps it, and that result is translated again through
/// the guest map unless it is shared; with no match, it fails.
pub proof fn law_linear_nested_first_match<C: TranslateCtx>(
    ctx: &C,
    input: Translation,
    info: AsidEntry,
    descs: Seq<u64>,
)
    requires
        !ctx.spec_guestmap(info.fields.spec_vmid()).spec_is_empty(),
        descs.len() < MAX_LINEAR_HOPS,
        info.ptb as int + 8 * descs.len() <= u32::MAX,
        forall|j: int|
            0 <= j <= descs.len() ==> spec_list_page(
                ctx,
                ctx.spec_guestmap(info.fields.spec_vmid()),
                #[trigger] list_pos(info.ptb, j) >> 12u32,
            ).spec_xwru() & 0x2 != 0,
        forall|j: int|
            0 <= j <= descs.len() ==> ctx.spec_read(
                ((spec_list_page(ctx, ctx.spec_guestmap(info.fields.spec_vmid()), #[trigger] list_pos(info.ptb, j) >> 12u32).spec_pn()
                    as u64) << 12u64) | ((list_pos(info.ptb, j) & 0xFFF) as u64),
            ) == (if j < descs.len() {
                descs[j]
            } else {
                0u64
            }),
        forall|j: int| 0 <= j < descs.len() ==> #[trigger] descs[j] != 0 && !LinearFmt(descs[j]).spec_chain(),
    ensures
        forall|i: int|
            #[trigger] is_first_linear_match(descs, input.spec_pn(), i) ==> {
                let out = spec_linear_update(input, LinearFmt(descs[i]));
                &&& !out.spec_shared() ==> spec_linear_translate(ctx, input, info) == ctx.spec_translate(
                    out,
                    ctx.spec_guestmap(info.fields.spec_vmid()),
                )
                &&& out.spec_shared() ==> spec_linear_translate(ctx, input, info) == out
            },
        (forall|i: int| 0 <= i < descs.len() ==> !spec_linear_match(LinearFmt(#[trigger] descs[i]), input.spec_pn()))
            ==> spec_linear_translate(ctx, input, info) == Translation::spec_bad(),
{
    let gm = ctx.spec_guestmap(info.fields.spec_vmid());
    lemma_walk_nested(ctx, input, gm, info.ptb, descs, 0, 0xFFFF_FFFF, 0);
    assert(list_pos(info.ptb, 0) == info.ptb);
    assert forall|i: int| #[trigger] is_first_linear_match(descs, input.spec_pn(), i) implies {
        let out = spec_linear_update(input, LinearFmt(descs[i]));
        &&& !out.spec_shared() ==> spec_linear_translate(ctx, input, info) == ctx.spec_translate(out, gm)
        &&& out.spec_shared() ==> spec_linear_translate(ctx, input, info) == out
    } by {
        lemma_nested_scan_first(ctx, gm, input, descs, 0, i);
    }
    if forall|i: int| 0 <= i < descs.len() ==> !spec_linear_match(LinearFmt(#[trigger] descs[i]), input.spec_pn()) {
        lemma_nested_scan_none(ctx, gm, input, descs, 0);
    }
}

proof fn lemma_scan_first(input: Translation, descs: Seq<u64>, j: int, i: int)
    requires
        is_first_linear_match(descs, input.spec_pn(), i),
        0 <= j <= i,
    ensures
        spec_flat_scan(input, descs, j) == spec_linear_update(input, LinearFmt(descs[i])),
    decreases i - j,
{
    if j < i {
        assert(!spec_linear_match(LinearFmt(descs[j]), input.spec_pn()));
        lemma_scan_first(input, descs, j + 1, i);
    }
}

proof fn lemma_scan_none(input: Translation, descs: Seq<u64>, j: int)
    requires
        0 <= j <= descs.len(),
        forall|i: int| 0 <= i < descs.len() ==> !spec_linear_match(LinearFmt(#[trigger] descs[i]), input.spec_pn()),
    ensures
        spec_flat_scan(input, descs, j) == Translation::spec_bad(),
    decreases descs.len() - j,
{
    if j < descs.len() {
        assert(!spec_linear_match(LinearFmt(descs[j]), input.spec_pn()));
        lemma_scan_none(input, descs, j + 1);
    }
}

/// Linear translation of `input` through `info`: walk the descriptor
/// list, retranslating its address through the guest map at each page
/// boundary, until a descriptor maps the page (then update the
/// translation and translate it through the guest map unless shared), the
/// list ends, the list is unreadable or the hop limit is reached (then
/// fail).
pub fn linear_translate<C: TranslateCtx>(ctx: &C, input: Translation, info: AsidEntry) -> (r: Translation)
    ensures
        r == spec_linear_translate(ctx, input, info),
{
    let vmidx = info.vmid();
    let guestmap = ctx.vmblock_guestmap(vmidx);
    let badvpn = input.pn();
    let mut list = info.ptb;
    let mut last_gpn: u32 = 0xFFFF_FFFF;
    let mut list_ppn: u32 = 0;
    let mut hop: u32 = 0;
    while hop < MAX_LINEAR_HOPS
        invariant
            hop <= MAX_LINEAR_HOPS,
            guestmap == ctx.spec_guestmap(info.fields.spec_vmid()),
            badvpn == input.spec_pn(),
            spec_linear_walk(ctx, input, guestmap, list, last_gpn, list_ppn, (MAX_LINEAR_HOPS - hop) as nat)
                == spec_linear_translate(ctx, input, info),
        decreases MAX_LINEAR_HOPS - hop,
    {
        let ghost rest: nat = (MAX_LINEAR_HOPS - hop) as nat;
        hop = hop + 1;
        let list_gpn = list >> 12u32;
        if list_gpn != last_gpn {
            last_gpn = list_gpn;
            if !guestmap.is_empty() {
                let tmp0 = Translation::default_for_va(0).with_pn(list_gpn);
                let tmp = ctx.translate(tmp0, guestmap);
                list_ppn = tmp.pn();
                if tmp.xwru() & 0x2 == 0 {
                    return Translation::bad();
                }
            } else {
                list_ppn = list_gpn;
            }
        }
        let list_pa = linear_list_pa(list, list_ppn);
        let raw = ctx.physread_dword(list_pa);
        let entry = LinearFmt(raw);
        match linear_step(list, entry, badvpn) {
            LinearStep::End => {
                return Translation::bad();
            },
            LinearStep::Chain(next) => {
                list = next;
            },
            LinearStep::Hit => {
                let out = linear_translate_update(input, entry);
                if !out.shared() && !guestmap.is_empty() {
                    return ctx.translate(out, guestmap);
                }
                return out;
            },
            LinearStep::Next(next) => {
                list = next;
            },
        }
    }
    Translation::bad()
}

} // verus!
