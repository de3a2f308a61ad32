//! The secure region table: PMP-protected memory regions, each with its own
//! buddy allocator, and the operations that create regions and hand enclave
//! memory out of them.
use vstd::prelude::*;
use crate::pmp_addr::{PmpRange, PmpPerm, PMP_COUNT, napot_valid, is_napot_valid};
use crate::bitmap::{PmpBitmap, bit_set};
use crate::buddy::{SecmemRegion, block_size, spans_overlap, span_contains, pow2_reaching, next_pow2, can_serve, no_free_blocks, blocks_within};
use vstd::arithmetic::power2::pow2;
use crate::pmpsync::{
    PmpCluster,
    tee_pmp_sync,
    tee_pmp_clean_sync,
    tee_get_pmp,
    sync_possible,
    sync_post,
    sync_result,
    config_of,
    entry_report,
    entry_of,
};
use crate::sbi::SbiRet;

verus! {

/// Size of a page: the granularity of secure memory.
pub const PAGE_SIZE: u64 = 4096;

/// Alignment of secure regions and of enclave memory.
pub const PENGLAI_SMEM_ALIGN: u64 = PAGE_SIZE;

/// First PMP slot under the monitor's control.
pub const PENGLAI_PMP_START: u8 = 0;

/// Last PMP slot under the monitor's control.
pub const PENGLAI_PMP_END: u8 = 15;

/// Number of entries of the region table.
pub const PENGLAI_PMP_COUNT: usize = 16;

/// Slots of the monitor region, the temporary window and the default region.
pub const PENGLAI_DEFAULT_MASK: u64 = 0x8003;

/// Reserved entries of the table, which never serve enclave memory.
pub const PENGLAI_RESERVED_MASK: u64 = PENGLAI_DEFAULT_MASK;

/// Table entries with a fixed role.
#[derive(Clone, Copy, Debug, PartialEq, Eq, Structural)]
pub enum PenglaiPmpIdx {
    /// Protects the monitor itself.
    PmpSM,
    /// Temporarily grants the host access to enclave memory.
    PmpTemp,
    /// Grants the host access to all memory no other entry covers.
    PmpDefault,
}

impl PenglaiPmpIdx {
    pub open spec fn index_spec(self) -> usize {
        match self {
            PenglaiPmpIdx::PmpSM => 0,
            PenglaiPmpIdx::PmpTemp => 1,
            PenglaiPmpIdx::PmpDefault => 15,
        }
    }

    /// Table index and PMP slot of the entry.
    #[verifier::when_used_as_spec(index_spec)]
    pub fn index(self) -> (r: usize)
        ensures
            r == self.index_spec(),
    {
        match self {
            PenglaiPmpIdx::PmpSM => 0,
            PenglaiPmpIdx::PmpTemp => 1,
            PenglaiPmpIdx::PmpDefault => 15,
        }
    }
}

pub const PMP_SM: usize = 0;

pub const PMP_TEMP: usize = 1;

pub const PMP_DEFAULT: usize = 15;

/// Whether table entry `i` is reserved.
pub open spec fn is_reserved(i: int) -> bool {
    i == PMP_SM || i == PMP_TEMP || i == PMP_DEFAULT
}

/// One entry of the region table.
pub struct SecPMPRegion {
    pub hperm: PmpPerm,
    pub hmode: PmpRange,
    pub eperm: PmpPerm,
    pub emode: PmpRange,
    pub is_valid: bool,
    pub mem_region: SecmemRegion,
    pub slot: u8,
}

impl SecPMPRegion {
    pub open spec fn wf(&self) -> bool {
        self.mem_region.wf()
    }

    /// An unused entry.
    pub fn new() -> (r: SecPMPRegion)
        ensures
            r.wf(),
            !r.is_valid,
            r.slot == 0,
            r.hperm == PmpPerm::NONE,
            r.hmode == PmpRange::OFF,
            r.eperm == PmpPerm::NONE,
            r.emode == PmpRange::OFF,
            r.mem_region.start == 0,
            r.mem_region.len == 0,
            r.mem_region.used == 0,
            r.mem_region.total == 0,
            r.mem_region.confined(),
    {
        SecPMPRegion {
            slot: 0,
            hperm: PmpPerm::NONE,
            hmode: PmpRange::OFF,
            eperm: PmpPerm::NONE,
            emode: PmpRange::OFF,
            is_valid: false,
            mem_region: SecmemRegion::new(0, 0),
        }
    }
}

/// Whether entry `r` is valid and its memory shares a byte with `[addr, addr + len)`.
pub open spec fn overlaps(r: SecPMPRegion, addr: u64, len: u64) -> bool {
    r.is_valid && spans_overlap(r.mem_region.start as nat, r.mem_region.len as nat, addr as nat, len as nat)
}

/// Whether entry `r` is valid and its memory holds all of `[addr, addr + len)`.
pub open spec fn contains(r: SecPMPRegion, addr: u64, len: u64) -> bool {
    r.is_valid && span_contains(r.mem_region.start as nat, r.mem_region.len as nat, addr as nat, len as nat)
}

/// The first entry for which `p` holds, if any.
pub open spec fn first_such(regions: Seq<SecPMPRegion>, p: spec_fn(SecPMPRegion) -> bool, r: Option<usize>) -> bool {
    match r {
        None => forall|i: int| 0 <= i < regions.len() ==> !p(#[trigger] regions[i]),
        Some(i) => {
            &&& i < regions.len()
            &&& p(regions[i as int])
            &&& forall|j: int| 0 <= j < i ==> !p(#[trigger] regions[j])
        },
    }
}

/// The region table.
pub struct SecRegion {
    pub region: Vec<SecPMPRegion>,
}

pub open spec fn table_wf(regions: Seq<SecPMPRegion>) -> bool {
    &&& regions.len() == PENGLAI_PMP_COUNT
    &&& forall|i: int| 0 <= i < regions.len() ==> (#[trigger] regions[i]).wf()
}

impl SecRegion {
    pub open spec fn wf(&self) -> bool {
        table_wf(self.region@)
    }

    /// A table of unused entries.
    pub fn new() -> (r: SecRegion)
        ensures
            r.wf(),
            forall|i: int|
                0 <= i < PENGLAI_PMP_COUNT ==> !(#[trigger] r.region@[i]).is_valid
                    && r.region@[i].mem_region.len == 0 && r.region@[i].mem_region.total == 0
                    && r.region@[i].slot == 0 && r.region@[i].mem_region.confined()
                    && r.region@[i].mem_region.start == 0 && r.region@[i].mem_region.used == 0
                    && r.region@[i].hperm == PmpPerm::NONE && r.region@[i].hmode == PmpRange::OFF
                    && r.region@[i].eperm == PmpPerm::NONE && r.region@[i].emode == PmpRange::OFF,
    {
        let mut region: Vec<SecPMPRegion> = Vec::new();
        let mut i: usize = 0;
        while i < PENGLAI_PMP_COUNT
            invariant
                i <= PENGLAI_PMP_COUNT,
                region@.len() == i,
                forall|j: int|
                    0 <= j < i ==> (#[trigger] region@[j]).wf() && !region@[j].is_valid
                        && region@[j].mem_region.len == 0 && region@[j].mem_region.total == 0
                        && region@[j].slot == 0 && region@[j].mem_region.confined()
                        && region@[j].mem_region.start == 0 && region@[j].mem_region.used == 0
                        && region@[j].hperm == PmpPerm::NONE && region@[j].hmode == PmpRange::OFF
                        && region@[j].eperm == PmpPerm::NONE && region@[j].emode == PmpRange::OFF,
            decreases PENGLAI_PMP_COUNT - i,
        {
            region.push(SecPMPRegion::new());
            i = i + 1;
        }
        SecRegion { region }
    }

    pub fn region(&self) -> (r: &Vec<SecPMPRegion>)
        ensures
            r@ == self.region@,
    {
        &self.region
    }

    pub fn region_mut(&mut self) -> (r: &mut Vec<SecPMPRegion>)
        ensures
            *r == old(self).region,
            final(self).region == *final(r),
    {
        &mut self.region
    }
}

/// Whether `[addr, addr + len)` is aligned to `align`, at least `align` long
/// and does not wrap around.
pub open spec fn mem_aligned(addr: u64, len: u64, align: u64) -> bool {
    &&& is_aligned(addr, align)
    &&& is_aligned(len, align)
    &&& len >= align
    &&& addr + len <= u64::MAX
}

/// Whether `x` is a multiple of the power of two `align`.
pub open spec fn is_aligned(x: u64, align: u64) -> bool {
    x & ((align - 1) as u64) == 0
}

proof fn lemma_page_pow2()
    ensures
        PENGLAI_SMEM_ALIGN & ((PENGLAI_SMEM_ALIGN - 1) as u64) == 0,
{
    assert(4096u64 & 4095u64 == 0u64) by (bit_vector);
}

/// Checks that a new region is aligned to `align` and does not wrap around.
pub fn check_mem_align(addr: u64, len: u64, align: u64) -> (r: bool)
    requires
        align != 0,
        align & ((align - 1) as u64) == 0,
    ensures
        r == mem_aligned(addr, len, align),
{
    if addr & (align - 1) != 0 || len < align || len & (align - 1) != 0 || addr > u64::MAX - len {
        return false;
    }
    true
}

/// Index of the first valid entry whose memory overlaps `[addr, addr + len)`.
pub fn check_mem_overlap(regions: &Vec<SecPMPRegion>, addr: u64, len: u64) -> (r: Option<usize>)
    requires
        table_wf(regions@),
        addr + len <= u64::MAX,
    ensures
        first_such(regions@, |e: SecPMPRegion| overlaps(e, addr, len), r),
{
    let mut i: usize = 0;
    while i < regions.len()
        invariant
            table_wf(regions@),
            addr + len <= u64::MAX,
            i <= regions@.len(),
            forall|j: int| 0 <= j < i ==> !overlaps(#[trigger] regions@[j], addr, len),
        decreases regions@.len() - i,
    {
        let e = &regions[i];
        if e.is_valid && e.mem_region.is_mem_overlap(addr, addr + len) {
            return Some(i);
        }
        i = i + 1;
    }
    None
}

/// Index of the first valid entry whose memory holds all of `[addr, addr + len)`.
pub fn check_mem_contained(regions: &Vec<SecPMPRegion>, addr: u64, len: u64) -> (r: Option<usize>)
    requires
        table_wf(regions@),
        addr + len <= u64::MAX,
    ensures
        first_such(regions@, |e: SecPMPRegion| contains(e, addr, len), r),
{
    let mut i: usize = 0;
    while i < regions.len()
        invariant
            table_wf(regions@),
            addr + len <= u64::MAX,
            i <= regions@.len(),
            forall|j: int| 0 <= j < i ==> !contains(#[trigger] regions@[j], addr, len),
        decreases regions@.len() - i,
    {
        let e = &regions[i];
        if e.is_valid && e.mem_region.is_mem_contained(addr, addr + len) {
            return Some(i);
        }
        i = i + 1;
    }
    None
}

/// Index of the first unused entry.
pub fn get_unused_region(regions: &Vec<SecPMPRegion>) -> (r: Option<usize>)
    ensures
        first_such(regions@, |e: SecPMPRegion| !e.is_valid, r),
{
    let mut i: usize = 0;
    while i < regions.len()
        invariant
            i <= regions@.len(),
            forall|j: int| 0 <= j < i ==> (#[trigger] regions@[j]).is_valid,
        decreases regions@.len() - i,
    {
        if !regions[i].is_valid {
            return Some(i);
        }
        i = i + 1;
    }
    None
}

/// The first index below `n` for which `p` holds, if any.
pub open spec fn first_index(n: int, p: spec_fn(int) -> bool, r: Option<usize>) -> bool {
    match r {
        None => forall|i: int| 0 <= i < n ==> !#[trigger] p(i),
        Some(i) => {
            &&& i < n
            &&& p(i as int)
            &&& forall|j: int| 0 <= j < i ==> !#[trigger] p(j)
        },
    }
}

/// Whether entry `i` may serve enclave memory.
pub open spec fn serves_memory(regions: Seq<SecPMPRegion>, i: int) -> bool {
    !is_reserved(i) && regions[i].is_valid
}

/// Valid entries, but for the temporary window and the default region, cover
/// pairwise disjoint memory.
pub open spec fn isolated(regions: Seq<SecPMPRegion>) -> bool {
    forall|i: int, j: int|
        0 <= i < regions.len() && 0 <= j < regions.len() && i != j && i != PMP_TEMP && j != PMP_TEMP
            && i != PMP_DEFAULT && j != PMP_DEFAULT && (#[trigger] regions[i]).is_valid
            && (#[trigger] regions[j]).is_valid ==> !spans_overlap(
            regions[i].mem_region.start as nat,
            regions[i].mem_region.len as nat,
            regions[j].mem_region.start as nat,
            regions[j].mem_region.len as nat,
        )
}

/// The PMP slot of every valid entry is marked in use in the bitmap.
pub open spec fn slots_owned(regions: Seq<SecPMPRegion>, map: u64) -> bool {
    forall|i: int| 0 <= i < regions.len() && (#[trigger] regions[i]).is_valid ==> bit_set(map, regions[i].slot as u64)
}

/// Whether `a` and `b` differ at most in what their allocators hand out.
pub open spec fn same_but_usage(a: SecPMPRegion, b: SecPMPRegion) -> bool {
    &&& a.hperm == b.hperm
    &&& a.hmode == b.hmode
    &&& a.eperm == b.eperm
    &&& a.emode == b.emode
    &&& a.is_valid == b.is_valid
    &&& a.slot == b.slot
    &&& a.mem_region.start == b.mem_region.start
    &&& a.mem_region.len == b.mem_region.len
    &&& a.mem_region.total == b.mem_region.total
}

/// The state of the secure monitor: the region table, the PMP slot bitmap and
/// the PMP state of every hart.
pub struct SecMonitor {
    pub regions: SecRegion,
    pub bitmap: PmpBitmap,
    pub pmp: PmpCluster,
}

impl SecMonitor {
    pub open spec fn wf(&self) -> bool {
        &&& self.regions.wf()
        &&& self.bitmap.wf()
        &&& self.bitmap.start == PENGLAI_PMP_START
        &&& self.bitmap.end == PENGLAI_PMP_END
        &&& bit_set(self.bitmap.map, PMP_SM as u64)
        &&& bit_set(self.bitmap.map, PMP_TEMP as u64)
        &&& bit_set(self.bitmap.map, PMP_DEFAULT as u64)
        &&& self.pmp.wf()
        &&& isolated(self.regions.region@)
        &&& slots_owned(self.regions.region@, self.bitmap.map)
        &&& forall|i: int|
            0 <= i < PENGLAI_PMP_COUNT ==> (#[trigger] self.regions.region@[i]).slot < PMP_COUNT && (
            !self.regions.region@[i].is_valid ==> self.regions.region@[i].mem_region.total == 0) && (!is_reserved(i)
                ==> self.regions.region@[i].mem_region.confined())
    }

    /// A monitor for `nharts` harts with an empty table and only the reserved
    /// slots in use.
    pub fn new(nharts: usize) -> (r: SecMonitor)
        requires
            nharts > 0,
        ensures
            r.wf(),
            r.pmp@.len() == nharts,
            r.bitmap.map == PENGLAI_DEFAULT_MASK,
            forall|i: int| 0 <= i < PENGLAI_PMP_COUNT ==> !(#[trigger] r.regions.region@[i]).is_valid,
            forall|i: int|
                0 <= i < PENGLAI_PMP_COUNT ==> (#[trigger] r.regions.region@[i]).mem_region.start == 0
                    && r.regions.region@[i].mem_region.len == 0 && r.regions.region@[i].mem_region.used == 0
                    && r.regions.region@[i].slot == 0,
            forall|h: int| 0 <= h < nharts ==> (#[trigger] r.pmp@[h]).mailbox.len() == 0 && r.pmp@[h].count == 0,
    {
        let bitmap = PmpBitmap::new(PENGLAI_PMP_START, PENGLAI_PMP_END, PENGLAI_DEFAULT_MASK);
        assert(bit_set(0x8003u64, 0) && bit_set(0x8003u64, 1) && bit_set(0x8003u64, 15)) by (bit_vector);
        SecMonitor { regions: SecRegion::new(), bitmap, pmp: PmpCluster::new(nharts) }
    }
}

/// Checks whether `[addr, addr + len)` overlaps memory of the monitor's table.
pub fn is_data_protected(sm: &SecMonitor, addr: u64, len: u64) -> (r: Option<usize>)
    requires
        sm.wf(),
        addr + len <= u64::MAX,
    ensures
        first_such(sm.regions.region@, |e: SecPMPRegion| overlaps(e, addr, len), r),
{
    check_mem_overlap(sm.regions.region(), addr, len)
}

proof fn lemma_reserved_mask(i: u64)
    by (bit_vector)
    requires
        i < 16,
    ensures
        (0x8003u64 & (1u64 << i) == 0) == (i != 0 && i != 1 && i != 15),
{
}

proof fn lemma_alloc_free_restores(map: u64, s: u64)
    by (bit_vector)
    requires
        s < 64,
        (map >> s) & 1u64 != 1u64,
        s != 0 && s != 1 && s != 15,
    ensures
        (map | (1u64 << s)) & !((1u64 << s) & !0x8003u64) == map,
{
}

proof fn lemma_bit_kept(map: u64, i: u64, s: u64)
    by (bit_vector)
    requires
        i < 64,
        s < 64,
    ensures
        (map >> i) & 1u64 == 1u64 ==> ((map | (1u64 << s)) >> i) & 1u64 == 1u64,
        ((map | (1u64 << s)) >> s) & 1u64 == 1u64,
{
}

/// Whether entry `i` is unused and not reserved.
pub open spec fn unused_general(regions: Seq<SecPMPRegion>, i: int) -> bool {
    !is_reserved(i) && !regions[i].is_valid
}

/// Index of the first unused entry other than the reserved ones.
fn get_unused_general_region(regions: &Vec<SecPMPRegion>) -> (r: Option<usize>)
    requires
        regions@.len() == PENGLAI_PMP_COUNT,
    ensures
        first_index(PENGLAI_PMP_COUNT as int, |k: int| unused_general(regions@, k), r),
{
    let mut i: usize = 0;
    while i < PENGLAI_PMP_COUNT
        invariant
            regions@.len() == PENGLAI_PMP_COUNT,
            i <= PENGLAI_PMP_COUNT,
            forall|j: int| 0 <= j < i ==> !#[trigger] unused_general(regions@, j),
        decreases PENGLAI_PMP_COUNT - i,
    {
        if i != PMP_SM && i != PMP_TEMP && i != PMP_DEFAULT && !regions[i].is_valid {
            return Some(i);
        }
        i = i + 1;
    }
    None
}

/// What a successful `secmem_extend` leaves in the table: the first unused
/// entry now covers `[addr, addr + len)` with a fresh slot.
pub open spec fn extend_post(old: SecMonitor, new: SecMonitor, hart: usize, addr: u64, len: u64) -> bool {
    exists|i: usize| #[trigger] extend_at(old, new, hart, addr, len, i)
}

/// Whether entry `i` is where `secmem_extend` put `[addr, addr + len)`: the
/// first unused entry, now valid over that memory with the lowest free slot,
/// an allocator that holds the whole region, and the host's entry published.
pub open spec fn extend_at(old: SecMonitor, new: SecMonitor, hart: usize, addr: u64, len: u64, i: usize) -> bool {
    let e = new.regions.region@[i as int];
    let slot = e.slot;
    &&& first_index(PENGLAI_PMP_COUNT as int, |k: int| unused_general(old.regions.region@, k), Some(i))
    &&& crate::bitmap::alloc_post(old.bitmap, new.bitmap, Some(slot))
    &&& new.regions.region@ == old.regions.region@.update(i as int, e)
    &&& napot_valid(addr, len)
    &&& e.is_valid
    &&& e.hperm == PmpPerm::NONE
    &&& e.hmode == PmpRange::NAPOT
    &&& e.eperm == PmpPerm::RWX
    &&& e.emode == PmpRange::NAPOT
    &&& e.mem_region.start == addr
    &&& e.mem_region.len == len
    &&& e.mem_region.used == 0
    &&& e.mem_region.total == len
    &&& forall|k: nat|
        k < 20 && addr as nat % pow2(k) == 0 && pow2(k) <= len ==> #[trigger] can_serve(e.mem_region.allocator, pow2(k))
    &&& sync_post(old.pmp@, new.pmp@, hart, config_of(slot, addr, len, PmpRange::NAPOT, PmpPerm::NONE))
}

/// What `secmem_extend` returns and does.
pub open spec fn extend_result(s0: SecMonitor, s1: SecMonitor, hart: usize, addr: u64, len: u64, r: SbiRet) -> bool {
    &&& !mem_aligned(addr, len, PENGLAI_SMEM_ALIGN) ==> r == SbiRet::invalid_param_spec()
    &&& mem_aligned(addr, len, PENGLAI_SMEM_ALIGN) && (exists|i: int|
        0 <= i < PENGLAI_PMP_COUNT && overlaps(#[trigger] s0.regions.region@[i], addr, len)) ==> r
        == SbiRet::invalid_param_spec()
    &&& r.is_success() ==> r == SbiRet::success_spec(0) && extend_post(s0, s1, hart, addr, len)
    &&& !r.is_success() ==> s1.regions.region@ == s0.regions.region@ && s1.bitmap == s0.bitmap && s1.pmp@ == s0.pmp@
    &&& !r.is_success() ==> r == SbiRet::invalid_param_spec() || r == SbiRet::failed_spec()
    &&& mem_aligned(addr, len, PENGLAI_SMEM_ALIGN) && (forall|i: int|
        0 <= i < PENGLAI_PMP_COUNT ==> !overlaps(#[trigger] s0.regions.region@[i], addr, len)) && napot_valid(addr, len)
        && has_free_slot(s0.bitmap) && (exists|i: int|
        0 <= i < PENGLAI_PMP_COUNT && #[trigger] unused_general(s0.regions.region@, i)) && sync_possible(
        s0.pmp@,
        hart,
        addr,
        len,
        PmpRange::NAPOT,
    ) ==> r.is_success()
}

/// Whether some slot of `[start, end)` is free.
pub open spec fn has_free_slot(b: PmpBitmap) -> bool {
    exists|j: u64| b.start <= j < b.end && !bit_set(b.map, j)
}

/// Adds `[addr, addr + len)` to secure memory as a new region.
pub fn secmem_extend(sm: &mut SecMonitor, hart: usize, addr: u64, len: u64) -> (r: SbiRet)
    requires
        old(sm).wf(),
        hart < old(sm).pmp@.len(),
    ensures
        final(sm).wf(),
        extend_result(*old(sm), *final(sm), hart, addr, len, r),
{
    proof {
        lemma_page_pow2();
    }
    if !check_mem_align(addr, len, PENGLAI_SMEM_ALIGN) {
        return SbiRet::invalid_param();
    }
    if check_mem_overlap(sm.regions.region(), addr, len).is_some() {
        return SbiRet::invalid_param();
    }
    if !is_napot_valid(addr, len) {
        return SbiRet::failed();
    }
    let ghost old_map = sm.bitmap.map;
    let new_slot = match sm.bitmap.allocate() {
        Some(slot) => slot,
        None => {
            return SbiRet::failed();
        },
    };
    proof {
        lemma_reserved_mask(new_slot as u64);
        assert(bit_set(old_map, 0) && bit_set(old_map, 1));
        lemma_bit_kept(old_map, 0, new_slot as u64);
        lemma_bit_kept(old_map, 1, new_slot as u64);
        lemma_bit_kept(old_map, 15, new_slot as u64);
    }
    let idx = match get_unused_general_region(sm.regions.region()) {
        Some(i) => i,
        None => {
            proof {
                lemma_alloc_free_restores(old_map, new_slot as u64);
                assert forall|k: int| 0 <= k < PENGLAI_PMP_COUNT implies !#[trigger] unused_general(
                    old(sm).regions.region@,
                    k,
                ) by {
                    let p = |k: int| unused_general(sm.regions.region@, k);
                    assert(!p(k));
                }
            }
            sm.bitmap.free(new_slot, !PENGLAI_RESERVED_MASK);
            return SbiRet::failed();
        },
    };
    let ret = tee_pmp_sync(&mut sm.pmp, hart, new_slot, addr, len, PmpRange::NAPOT, PmpPerm::NONE);
    if ret != SbiRet::success(0) {
        proof {
            lemma_alloc_free_restores(old_map, new_slot as u64);
        }
        sm.bitmap.free(new_slot, !PENGLAI_RESERVED_MASK);
        return SbiRet::failed();
    }
    let ghost before = sm.regions.region@;
    let mut region = SecPMPRegion {
        slot: new_slot,
        is_valid: true,
        hperm: PmpPerm::NONE,
        hmode: PmpRange::NAPOT,
        eperm: PmpPerm::RWX,
        emode: PmpRange::NAPOT,
        mem_region: SecmemRegion::new(addr, 0),
    };
    region.mem_region.init(addr, len);
    sm.regions.region.set(idx, region);
    proof {
        let regs = sm.regions.region@;
        assert forall|i: int| 0 <= i < regs.len() && (#[trigger] regs[i]).is_valid implies bit_set(
            sm.bitmap.map,
            regs[i].slot as u64,
        ) by {
            if i != idx {
                assert(before[i].is_valid);
                lemma_bit_kept(old_map, regs[i].slot as u64, new_slot as u64);
            } else {
                lemma_bit_kept(old_map, new_slot as u64, new_slot as u64);
            }
        }
        assert(sm.regions.region@ == old(sm).regions.region@.update(idx as int, sm.regions.region@[idx as int]));
        assert(extend_at(*old(sm), *sm, hart, addr, len, idx));
    }
    SbiRet::success(0)
}

/// Whether every entry of `new` is `old`'s but for what allocators hand out.
pub open spec fn usage_only(old: Seq<SecPMPRegion>, new: Seq<SecPMPRegion>) -> bool {
    &&& new.len() == old.len()
    &&& forall|i: int| 0 <= i < old.len() ==> same_but_usage(#[trigger] old[i], new[i])
}

/// Largest block a region's allocator hands out.
pub const MAX_BLOCK: u64 = 0x8_0000;

/// Largest request that a page-aligned layout accepts.
pub const MAX_REQUEST: u64 = 0x8000_0000_0000_0000 - PAGE_SIZE;

/// Changing only what one entry's allocator hands out keeps the monitor well formed.
proof fn lemma_usage_update(sm0: SecMonitor, sm1: SecMonitor, i: int)
    requires
        sm0.wf(),
        0 <= i < PENGLAI_PMP_COUNT,
        sm1.bitmap == sm0.bitmap,
        sm1.pmp@ == sm0.pmp@,
        sm1.pmp == sm0.pmp,
        sm1.regions.region@ == sm0.regions.region@.update(i, sm1.regions.region@[i]),
        same_but_usage(sm0.regions.region@[i], sm1.regions.region@[i]),
        sm1.regions.region@[i].wf(),
        !is_reserved(i) ==> sm1.regions.region@[i].mem_region.confined(),
    ensures
        sm1.wf(),
        usage_only(sm0.regions.region@, sm1.regions.region@),
{
    let r0 = sm0.regions.region@;
    let r1 = sm1.regions.region@;
    assert forall|a: int, b: int|
        0 <= a < r1.len() && 0 <= b < r1.len() && a != b && a != PMP_TEMP && b != PMP_TEMP && a != PMP_DEFAULT
            && b != PMP_DEFAULT && (#[trigger] r1[a]).is_valid && (#[trigger] r1[b]).is_valid implies !spans_overlap(
        r1[a].mem_region.start as nat,
        r1[a].mem_region.len as nat,
        r1[b].mem_region.start as nat,
        r1[b].mem_region.len as nat,
    ) by {
        assert(r0[a].is_valid && r0[b].is_valid);
    }
    assert forall|a: int| 0 <= a < r1.len() && (#[trigger] r1[a]).is_valid implies bit_set(sm1.bitmap.map, r1[a].slot as u64) by {
        assert(r0[a].is_valid);
    }
    assert forall|a: int| 0 <= a < r1.len() implies (#[trigger] r1[a]).wf() by {
        if a != i {
            assert(r0[a].wf());
        }
    }
    assert forall|a: int| 0 <= a < PENGLAI_PMP_COUNT implies (#[trigger] r1[a]).slot < PMP_COUNT && (!r1[a].is_valid
        ==> r1[a].mem_region.total == 0) && (!is_reserved(a) ==> r1[a].mem_region.confined()) by {
        assert(r0[a].slot < PMP_COUNT);
    }
    assert forall|a: int| 0 <= a < r0.len() implies same_but_usage(#[trigger] r0[a], r1[a]) by {}
}

proof fn lemma_pow2_reaching_ge(n: nat, p: nat)
    requires
        p >= 1,
    ensures
        pow2_reaching(n, p) >= n,
        pow2_reaching(n, p) >= p,
    decreases (if p <= n {
        n - p
    } else {
        0
    }),
{
    if p < n {
        lemma_pow2_reaching_ge(n, 2 * p);
    }
}

/// A block serves at least the bytes asked for.
proof fn lemma_block_covers(size: nat, align: nat)
    ensures
        block_size(size, align) >= size,
        block_size(size, align) >= align,
{
    lemma_pow2_reaching_ge(size, 1);
}

proof fn lemma_page_mod(p: u64)
    by (bit_vector)
    ensures
        (p & 4095u64 == 0) == (p % 4096 == 0),
{
}

/// Tries to serve `reqsize` bytes from entry `i`.
fn try_region(sm: &mut SecMonitor, i: usize, reqsize: u64) -> (r: Option<u64>)
    requires
        old(sm).wf(),
        i < PENGLAI_PMP_COUNT,
        !is_reserved(i as int),
        old(sm).regions.region@[i as int].is_valid,
        reqsize <= MAX_REQUEST,
    ensures
        final(sm).wf(),
        final(sm).bitmap == old(sm).bitmap,
        final(sm).pmp@ == old(sm).pmp@,
        usage_only(old(sm).regions.region@, final(sm).regions.region@),
        forall|j: int|
            0 <= j < PENGLAI_PMP_COUNT && j != i ==> #[trigger] final(sm).regions.region@[j] == old(sm).regions.region@[j],
        r is Some <==> old(sm).regions.region@[i as int].mem_region.can_allocate(block_size(reqsize as nat, PAGE_SIZE as nat)),
        r is None ==> final(sm).regions.region@[i as int].mem_region.used == old(sm).regions.region@[i as int].mem_region.used,
        r matches Some(p) ==> served(final(sm).regions.region@[i as int], p, reqsize)
            && final(sm).regions.region@[i as int].mem_region.used == old(sm).regions.region@[i as int].mem_region.used
            + block_size(reqsize as nat, PAGE_SIZE as nat),
{
    proof {
        lemma_page_pow2();
        lemma_block_covers(reqsize as nat, PAGE_SIZE as nat);
    }
    assert(sm.regions.region@[i as int].wf());
    assert(sm.regions.region@[i as int].mem_region.confined());
    let ghost sm0 = *sm;
    let res = sm.regions.region[i].mem_region.allocate(reqsize, PENGLAI_SMEM_ALIGN);
    let out = match res {
        Ok(ptr) => Some(ptr),
        Err(()) => None,
    };
    proof {
        assert(sm.regions.region@ =~= sm0.regions.region@.update(i as int, sm.regions.region@[i as int]));
        lemma_usage_update(sm0, *sm, i as int);
        if let Some(p) = out {
            lemma_page_mod(p);
        }
    }
    out
}

proof fn lemma_usage_only_trans(a: Seq<SecPMPRegion>, b: Seq<SecPMPRegion>, c: Seq<SecPMPRegion>)
    requires
        usage_only(a, b),
        usage_only(b, c),
    ensures
        usage_only(a, c),
{
    assert forall|j: int| 0 <= j < a.len() implies same_but_usage(#[trigger] a[j], c[j]) by {
        assert(same_but_usage(a[j], b[j]));
        assert(same_but_usage(b[j], c[j]));
    }
}

/// Whether entry `e` holds the block served for `size` bytes at `ptr`: the
/// block starts at a multiple of its size and of the page size and lies, with
/// the bytes asked for, inside the region.
pub open spec fn served(e: SecPMPRegion, ptr: u64, size: u64) -> bool {
    let blk = block_size(size as nat, PAGE_SIZE as nat);
    &&& contains(e, ptr, size)
    &&& ptr as nat % blk == 0
    &&& is_aligned(ptr, PAGE_SIZE)
    &&& ptr + blk <= e.mem_region.start + e.mem_region.len
}

/// What `secmem_alloc` does to the table: it serves the request from the
/// first entry, in table order, that may serve enclave memory and whose
/// allocator can hand out the block, and changes nothing else.
pub open spec fn secmem_alloc_post(
    r0: Seq<SecPMPRegion>,
    r1: Seq<SecPMPRegion>,
    reqsize: u64,
    r: Option<(u64, u64)>,
) -> bool {
    let blk = block_size(reqsize as nat, PAGE_SIZE as nat);
    &&& reqsize > MAX_REQUEST ==> r is None
    &&& r is None ==> forall|i: int|
        0 <= i < PENGLAI_PMP_COUNT ==> (#[trigger] r1[i]).mem_region.used == r0[i].mem_region.used
    &&& r is None && reqsize <= MAX_REQUEST ==> forall|i: int|
        0 <= i < PENGLAI_PMP_COUNT && serves_memory(r0, i) ==> !(#[trigger] r0[i]).mem_region.can_allocate(blk)
    &&& r is Some ==> served_size(r->0) == reqsize && exists|i: int| #[trigger] first_fit_at(r0, r1, reqsize, served_ptr(r->0), i)
}

/// The start of the memory in a result of `secmem_alloc`.
pub open spec fn served_ptr(r: (u64, u64)) -> u64 {
    r.0
}

/// The size of the memory in a result of `secmem_alloc`.
pub open spec fn served_size(r: (u64, u64)) -> u64 {
    r.1
}

/// Whether entry `i` is where `secmem_alloc` served `reqsize` bytes at `ptr`:
/// the first entry that may serve enclave memory and can hand out the block,
/// now holding it, with no other entry's count changed.
pub open spec fn first_fit_at(r0: Seq<SecPMPRegion>, r1: Seq<SecPMPRegion>, reqsize: u64, ptr: u64, i: int) -> bool {
    let blk = block_size(reqsize as nat, PAGE_SIZE as nat);
    &&& 0 <= i < PENGLAI_PMP_COUNT
    &&& serves_memory(r0, i)
    &&& r0[i].mem_region.can_allocate(blk)
    &&& served(r1[i], ptr, reqsize)
    &&& r1[i].mem_region.used == r0[i].mem_region.used + blk
    &&& forall|j: int| 0 <= j < i && serves_memory(r0, j) ==> !(#[trigger] r0[j]).mem_region.can_allocate(blk)
    &&& forall|j: int| 0 <= j < PENGLAI_PMP_COUNT && j != i ==> (#[trigger] r1[j]).mem_region.used == r0[j].mem_region.used
}

/// Takes `reqsize` bytes of enclave memory from the first region, in table
/// order, whose allocator can serve them. The start of the memory and its
/// size come back.
#[verifier::rlimit(100)]
pub fn secmem_alloc(sm: &mut SecMonitor, reqsize: u64) -> (r: Option<(u64, u64)>)
    requires
        old(sm).wf(),
    ensures
        final(sm).wf(),
        final(sm).bitmap == old(sm).bitmap,
        final(sm).pmp@ == old(sm).pmp@,
        usage_only(old(sm).regions.region@, final(sm).regions.region@),
        secmem_alloc_post(old(sm).regions.region@, final(sm).regions.region@, reqsize, r),
{
    if reqsize > MAX_REQUEST {
        return None;
    }
    let ghost r0 = sm.regions.region@;
    let mut i: usize = 0;
    while i < PENGLAI_PMP_COUNT
        invariant
            sm.wf(),
            sm.bitmap == old(sm).bitmap,
            sm.pmp@ == old(sm).pmp@,
            r0 == old(sm).regions.region@,
            reqsize <= MAX_REQUEST,
            i <= PENGLAI_PMP_COUNT,
            usage_only(r0, sm.regions.region@),
            forall|j: int|
                0 <= j < PENGLAI_PMP_COUNT ==> (#[trigger] sm.regions.region@[j]).mem_region.used
                    == r0[j].mem_region.used,
            forall|j: int| i <= j < PENGLAI_PMP_COUNT ==> #[trigger] sm.regions.region@[j] == r0[j],
            forall|j: int|
                0 <= j < i && serves_memory(r0, j) ==> !(#[trigger] r0[j]).mem_region.can_allocate(
                    block_size(reqsize as nat, PAGE_SIZE as nat),
                ),
        decreases PENGLAI_PMP_COUNT - i,
    {
        proof {
            lemma_reserved_mask(i as u64);
        }
        if (PENGLAI_RESERVED_MASK & (1u64 << (i as u64))) == 0 && sm.regions.region[i].is_valid {
            let ghost before = sm.regions.region@;
            let res = try_region(sm, i, reqsize);
            proof {
                lemma_usage_only_trans(r0, before, sm.regions.region@);
            }
            if let Some(ptr) = res {
                proof {
                    assert(serves_memory(r0, i as int));
                    assert(served(sm.regions.region@[i as int], ptr, reqsize));
                    let ii = i as int;
                    assert(first_fit_at(r0, sm.regions.region@, reqsize, ptr, ii));
                    let res: Option<(u64, u64)> = Some((ptr, reqsize));
                    assert(served_ptr(res->0) == ptr);
                    assert(first_fit_at(r0, sm.regions.region@, reqsize, served_ptr(res->0), ii));
                    assert(secmem_alloc_post(r0, sm.regions.region@, reqsize, res));
                    assert(exists|k: int| #[trigger] first_fit_at(r0, sm.regions.region@, reqsize, ptr, k));

                }
                return Some((ptr, reqsize));
            }
        }
        i = i + 1;
    }
    None
}

/// The entry that `secmem_free` gives `[addr, addr + len)` back to: the first
/// valid entry that may serve enclave memory and holds all of it.
pub open spec fn free_target(regions: Seq<SecPMPRegion>, addr: u64, len: u64, r: Option<usize>) -> bool {
    first_index(
        PENGLAI_PMP_COUNT as int,
        |i: int| serves_memory(regions, i) && contains(regions[i], addr, len),
        r,
    )
}

/// What `secmem_free` returns and does to the table.
pub open spec fn secmem_free_post(r0: Seq<SecPMPRegion>, r1: Seq<SecPMPRegion>, addr: u64, len: u64, r: SbiRet) -> bool {
    let blk = block_size(len as nat, PAGE_SIZE as nat);
    &&& r == SbiRet::success_spec(0) || r == SbiRet::invalid_param_spec()
    &&& !mem_aligned(addr, len, PENGLAI_SMEM_ALIGN) ==> r == SbiRet::invalid_param_spec()
    &&& mem_aligned(addr, len, PENGLAI_SMEM_ALIGN) && free_target(r0, addr, len, None) ==> r
        == SbiRet::invalid_param_spec()
    &&& r == SbiRet::invalid_param_spec() ==> r1 == r0
    &&& len > MAX_REQUEST ==> r == SbiRet::invalid_param_spec()
    &&& forall|i: usize|
        mem_aligned(addr, len, PENGLAI_SMEM_ALIGN) && #[trigger] free_target(r0, addr, len, Some(i))
            && frees_block(r0[i as int], addr, len) ==> r == SbiRet::success_spec(0)
    &&& r == SbiRet::success_spec(0) ==> mem_aligned(addr, len, PENGLAI_SMEM_ALIGN) && exists|i: usize|
        #[trigger] free_target(r0, addr, len, Some(i)) && frees_block(r0[i as int], addr, len)
            && r1[i as int].mem_region.used == r0[i as int].mem_region.used - blk
            && r1[i as int].mem_region.can_allocate(blk) && forall|j: int|
            0 <= j < PENGLAI_PMP_COUNT && j != i ==> (#[trigger] r1[j]) == r0[j]
}

/// Whether entry `e` can take back the block that served `len` bytes at
/// `addr`: the request fits a layout, the block starts at a multiple of its
/// size, lies inside the region, and the region has that many bytes out.
pub open spec fn frees_block(e: SecPMPRegion, addr: u64, len: u64) -> bool {
    let blk = block_size(len as nat, PAGE_SIZE as nat);
    &&& len <= MAX_REQUEST
    &&& blk <= pow2(19)
    &&& addr as nat % blk == 0
    &&& addr + blk <= e.mem_region.start + e.mem_region.len
    &&& e.mem_region.used >= blk
}

/// What `release_block` returns and does to the table.
pub open spec fn release_post(r0: Seq<SecPMPRegion>, r1: Seq<SecPMPRegion>, addr: u64, len: u64, r: SbiRet) -> bool {
    let blk = block_size(len as nat, PAGE_SIZE as nat);
    &&& r == SbiRet::success_spec(0) || r == SbiRet::invalid_param_spec()
    &&& r == SbiRet::invalid_param_spec() ==> r1 == r0
    &&& free_target(r0, addr, len, None) ==> r == SbiRet::invalid_param_spec()
    &&& forall|i: usize|
        #[trigger] free_target(r0, addr, len, Some(i)) && frees_block(r0[i as int], addr, len) ==> r
            == SbiRet::success_spec(0)
    &&& r == SbiRet::success_spec(0) ==> exists|i: usize|
        #[trigger] free_target(r0, addr, len, Some(i)) && frees_block(r0[i as int], addr, len)
            && r1[i as int].mem_region.used == r0[i as int].mem_region.used - blk
            && r1[i as int].mem_region.can_allocate(blk) && forall|j: int|
            0 <= j < PENGLAI_PMP_COUNT && j != i ==> (#[trigger] r1[j]) == r0[j]
}

/// Gives the block that served `len` bytes at `addr` back to the first entry
/// that may serve enclave memory and holds `[addr, addr + len)`.
pub(crate) fn release_block(sm: &mut SecMonitor, addr: u64, len: u64) -> (r: SbiRet)
    requires
        old(sm).wf(),
        addr + len <= u64::MAX,
    ensures
        final(sm).wf(),
        final(sm).bitmap == old(sm).bitmap,
        final(sm).pmp@ == old(sm).pmp@,
        usage_only(old(sm).regions.region@, final(sm).regions.region@),
        release_post(old(sm).regions.region@, final(sm).regions.region@, addr, len, r),
{
    proof {
        lemma_page_pow2();
    }
    let ghost r0 = sm.regions.region@;
    let mut i: usize = 0;
    while i < PENGLAI_PMP_COUNT
        invariant
            *sm == *old(sm),
            r0 == sm.regions.region@,
            sm.wf(),
            addr + len <= u64::MAX,
            PENGLAI_SMEM_ALIGN & ((PENGLAI_SMEM_ALIGN - 1) as u64) == 0,
            i <= PENGLAI_PMP_COUNT,
            forall|j: int| 0 <= j < i ==> !(serves_memory(r0, j) && contains(#[trigger] r0[j], addr, len)),
        decreases PENGLAI_PMP_COUNT - i,
    {
        proof {
            lemma_reserved_mask(i as u64);
        }
        let e = &sm.regions.region[i];
        if (PENGLAI_RESERVED_MASK & (1u64 << (i as u64))) == 0 && e.is_valid
            && e.mem_region.is_mem_contained(addr, addr + len) {
            assert(free_target(r0, addr, len, Some(i)));
            proof {
                assert forall|k: usize| #[trigger] free_target(r0, addr, len, Some(k)) implies k == i by {
                    if k < i {
                        assert(!(serves_memory(r0, k as int) && contains(r0[k as int], addr, len)));
                    }
                }
            }
            if len > MAX_REQUEST {
                return SbiRet::invalid_param();
            }
            let p = crate::buddy::next_power_of_two(len);
            let blk = if p >= PENGLAI_SMEM_ALIGN {
                p
            } else {
                PENGLAI_SMEM_ALIGN
            };
            proof {
                vstd::arithmetic::power2::lemma2_to64();
            }
            if blk > MAX_BLOCK || addr % blk != 0 || addr > u64::MAX - blk || addr + blk > e.mem_region.start
                + e.mem_region.len || e.mem_region.used < blk {
                return SbiRet::invalid_param();
            }
            assert(r0[i as int].wf());
            assert(r0[i as int].mem_region.confined());
            let ghost sm0 = *sm;
            sm.regions.region[i].mem_region.dealloc(addr, len, PENGLAI_SMEM_ALIGN);
            proof {
                assert(sm.regions.region@ == r0.update(i as int, sm.regions.region@[i as int]));
                lemma_usage_update(sm0, *sm, i as int);
            }
            return SbiRet::success(0);
        }
        i = i + 1;
    }
    proof {
        assert(free_target(r0, addr, len, None));
        assert forall|k: usize| #[trigger] free_target(r0, addr, len, Some(k)) implies false by {
            assert(serves_memory(r0, k as int) && contains(r0[k as int], addr, len));
        }
    }
    SbiRet::invalid_param()
}

/// Gives the enclave memory `[addr, addr + len)` back to the region that holds it.
pub fn secmem_free(sm: &mut SecMonitor, addr: u64, len: u64) -> (r: SbiRet)
    requires
        old(sm).wf(),
    ensures
        final(sm).wf(),
        final(sm).bitmap == old(sm).bitmap,
        final(sm).pmp@ == old(sm).pmp@,
        usage_only(old(sm).regions.region@, final(sm).regions.region@),
        secmem_free_post(old(sm).regions.region@, final(sm).regions.region@, addr, len, r),
{
    proof {
        lemma_page_pow2();
    }
    if !check_mem_align(addr, len, PENGLAI_SMEM_ALIGN) {
        return SbiRet::invalid_param();
    }
    release_block(sm, addr, len)
}

/// The block that `secmem_alloc` handed out for `reqsize` bytes at `ptr` can
/// be given back: the first entry that may serve enclave memory and holds
/// `[ptr, ptr + reqsize)` is the one that served it, whatever other
/// allocations and frees ran in between, and it takes the block back.
#[verifier::rlimit(100)]
pub proof fn lemma_handed_out_block_frees(
    sm: SecMonitor,
    r1: Seq<SecPMPRegion>,
    ra: Seq<SecPMPRegion>,
    reqsize: u64,
    ptr: u64,
)
    requires
        sm.wf(),
        usage_only(sm.regions.region@, r1),
        secmem_alloc_post(sm.regions.region@, r1, reqsize, Some((ptr, reqsize))),
        usage_only(r1, ra),
        ra[served_index(sm.regions.region@, r1, reqsize, ptr)].mem_region.used >= block_size(
            reqsize as nat,
            PAGE_SIZE as nat,
        ),
        reqsize > 0,
    ensures
        ({
            let i = served_index(sm.regions.region@, r1, reqsize, ptr);
            &&& 0 <= i < PENGLAI_PMP_COUNT
            &&& r1[i].mem_region.used == sm.regions.region@[i].mem_region.used + block_size(reqsize as nat, PAGE_SIZE as nat)
            &&& free_target(ra, ptr, reqsize, Some(i as usize))
            &&& frees_block(ra[i], ptr, reqsize)
        }),
{
    let r0 = sm.regions.region@;
    let i = served_index(r0, r1, reqsize, ptr);
    let blk = block_size(reqsize as nat, PAGE_SIZE as nat);
    assert(first_fit_at(r0, r1, reqsize, ptr, i));
    assert(0 <= i < PENGLAI_PMP_COUNT && serves_memory(r0, i) && served(r1[i], ptr, reqsize));
    lemma_served_block_bounded(r0[i].mem_region.allocator, blk);
    assert(same_but_usage(r0[i], r1[i]));
    assert(same_but_usage(r1[i], ra[i]));
    assert(contains(ra[i], ptr, reqsize));
    assert forall|k: int| 0 <= k < i implies !(serves_memory(ra, k) && contains(#[trigger] ra[k], ptr, reqsize)) by {
        assert(same_but_usage(r0[k], r1[k]));
        assert(same_but_usage(r1[k], ra[k]));
        if serves_memory(ra, k) && contains(ra[k], ptr, reqsize) {
            assert(r0[k].is_valid && !is_reserved(k));
            lemma_regions_disjoint(sm, i, k);
            assert(r0[k].mem_region.start == ra[k].mem_region.start && r0[k].mem_region.len == ra[k].mem_region.len);
            assert(r0[i].mem_region.start == ra[i].mem_region.start && r0[i].mem_region.len == ra[i].mem_region.len);
        }
    }
    assert(free_target(ra, ptr, reqsize, Some(i as usize)));
}

/// A block some free block can serve is at most `2^19` long.
proof fn lemma_served_block_bounded(fa: buddy_system_allocator::FrameAllocator<20>, blk: nat)
    requires
        can_serve(fa, blk),
    ensures
        blk <= pow2(19),
{
    let (j, a) = choose|j: nat, a: u64| j < 20 && blk <= pow2(j) && #[trigger] crate::buddy::frames_free(fa)[j as int].contains(a);
    if j < 19 {
        vstd::arithmetic::power2::lemma_pow2_strictly_increases(j, 19);
    }
}

/// The entry that served the block of a successful `secmem_alloc`.
pub open spec fn served_index(r0: Seq<SecPMPRegion>, r1: Seq<SecPMPRegion>, reqsize: u64, ptr: u64) -> int {
    choose|i: int| first_fit_at(r0, r1, reqsize, ptr, i)
}

/// Any two valid entries of the table, other than the temporary window and
/// the default region, cover disjoint memory.
pub proof fn lemma_regions_disjoint(sm: SecMonitor, i: int, j: int)
    requires
        sm.wf(),
        0 <= i < PENGLAI_PMP_COUNT,
        0 <= j < PENGLAI_PMP_COUNT,
        i != j,
        i != PMP_TEMP && j != PMP_TEMP,
        i != PMP_DEFAULT && j != PMP_DEFAULT,
        sm.regions.region@[i].is_valid,
        sm.regions.region@[j].is_valid,
    ensures
        !spans_overlap(
            sm.regions.region@[i].mem_region.start as nat,
            sm.regions.region@[i].mem_region.len as nat,
            sm.regions.region@[j].mem_region.start as nat,
            sm.regions.region@[j].mem_region.len as nat,
        ),
{
    assert(sm.regions.region@[i].is_valid && sm.regions.region@[j].is_valid);
}

/// The PMP slot of every valid entry is marked in use in the slot bitmap.
pub proof fn lemma_valid_slot_in_use(sm: SecMonitor, i: int)
    requires
        sm.wf(),
        0 <= i < PENGLAI_PMP_COUNT,
        sm.regions.region@[i].is_valid,
    ensures
        bit_set(sm.bitmap.map, sm.regions.region@[i].slot as u64),
{
    assert(sm.regions.region@[i].is_valid);
}

/// Memory that `secmem_alloc` handed out as `(ptr, size)` and that
/// `secmem_free` later takes back, whatever other allocations and frees ran in
/// between, leaves and returns to the same region: the free takes from that
/// region exactly the bytes the allocation added to it, and touches no other.
#[verifier::rlimit(60)]
pub proof fn lemma_alloc_free_same_region(
    sm: SecMonitor,
    r1: Seq<SecPMPRegion>,
    ra: Seq<SecPMPRegion>,
    rb: Seq<SecPMPRegion>,
    reqsize: u64,
    ptr: u64,
    size: u64,
)
    requires
        sm.wf(),
        usage_only(sm.regions.region@, r1),
        secmem_alloc_post(sm.regions.region@, r1, reqsize, Some((ptr, size))),
        usage_only(r1, ra),
        secmem_free_post(ra, rb, ptr, size, SbiRet::success_spec(0)),
    ensures
        exists|i: int|
            0 <= i < PENGLAI_PMP_COUNT && #[trigger] r1[i].mem_region.used == sm.regions.region@[i].mem_region.used
                + block_size(size as nat, PAGE_SIZE as nat) && rb[i].mem_region.used == ra[i].mem_region.used
                - block_size(size as nat, PAGE_SIZE as nat) && forall|j: int|
                0 <= j < PENGLAI_PMP_COUNT && j != i ==> (#[trigger] r1[j]).mem_region.used
                    == sm.regions.region@[j].mem_region.used && rb[j].mem_region.used == ra[j].mem_region.used,
{
    let r0 = sm.regions.region@;
    assert(size == reqsize);
    let i = served_index(r0, r1, reqsize, ptr);
    assert(first_fit_at(r0, r1, reqsize, ptr, i));
    let k = choose|k: usize|
        #[trigger] free_target(ra, ptr, size, Some(k)) && rb[k as int].mem_region.used == ra[k as int].mem_region.used
            - block_size(size as nat, PAGE_SIZE as nat) && forall|j: int|
            0 <= j < PENGLAI_PMP_COUNT && j != k ==> (#[trigger] rb[j]) == ra[j];
    assert(same_but_usage(r0[i], r1[i]));
    assert(same_but_usage(r1[i], ra[i]));
    assert(same_but_usage(r0[k as int], r1[k as int]));
    assert(same_but_usage(r1[k as int], ra[k as int]));
    if k as int != i {
        assert(serves_memory(ra, k as int) && contains(ra[k as int], ptr, size));
        assert(mem_aligned(ptr, size, PENGLAI_SMEM_ALIGN));
        lemma_regions_disjoint(sm, i, k as int);
        assert(spans_overlap(
            r0[i].mem_region.start as nat,
            r0[i].mem_region.len as nat,
            r0[k as int].mem_region.start as nat,
            r0[k as int].mem_region.len as nat,
        ));
    }
    assert forall|j: int| 0 <= j < PENGLAI_PMP_COUNT && j != i implies (#[trigger] r1[j]).mem_region.used
        == r0[j].mem_region.used && rb[j].mem_region.used == ra[j].mem_region.used by {
        assert(rb[j] == ra[j]);
    }
}

/// Taking enclave memory with `secmem_alloc` and giving the same `(ptr, size)`
/// back with `secmem_free` leaves the count of handed-out bytes of every
/// region where it was.
pub proof fn lemma_alloc_free_balance(
    sm: SecMonitor,
    r1: Seq<SecPMPRegion>,
    r2: Seq<SecPMPRegion>,
    reqsize: u64,
    ptr: u64,
    size: u64,
)
    requires
        sm.wf(),
        usage_only(sm.regions.region@, r1),
        secmem_alloc_post(sm.regions.region@, r1, reqsize, Some((ptr, size))),
        secmem_free_post(r1, r2, ptr, size, SbiRet::success_spec(0)),
    ensures
        forall|i: int|
            0 <= i < PENGLAI_PMP_COUNT ==> (#[trigger] r2[i]).mem_region.used == sm.regions.region@[i].mem_region.used,
{
    assert forall|j: int| 0 <= j < r1.len() implies same_but_usage(#[trigger] r1[j], r1[j]) by {}
    lemma_alloc_free_same_region(sm, r1, r1, r2, reqsize, ptr, size);
}

/// Publishes the PMP entry of `region` as the host sees it.
pub fn set_pmp_host_sync(pmp: &mut PmpCluster, hart: usize, region: &SecPMPRegion) -> (r: SbiRet)
    requires
        old(pmp).wf(),
        hart < old(pmp)@.len(),
        (region.slot as usize) < PMP_COUNT,
    ensures
        final(pmp).wf(),
        sync_result(
            old(pmp)@,
            final(pmp)@,
            hart,
            region.slot,
            region.mem_region.start,
            region.mem_region.len,
            region.hmode,
            region.hperm,
            r,
        ),
{
    tee_pmp_sync(pmp, hart, region.slot, region.mem_region.start, region.mem_region.len, region.hmode, region.hperm)
}

/// Publishes the PMP entry of `region` as an enclave sees it.
pub fn set_pmp_sync_enclave(pmp: &mut PmpCluster, hart: usize, region: &SecPMPRegion) -> (r: SbiRet)
    requires
        old(pmp).wf(),
        hart < old(pmp)@.len(),
        (region.slot as usize) < PMP_COUNT,
    ensures
        final(pmp).wf(),
        sync_result(
            old(pmp)@,
            final(pmp)@,
            hart,
            region.slot,
            region.mem_region.start,
            region.mem_region.len,
            region.emode,
            region.eperm,
            r,
        ),
{
    tee_pmp_sync(pmp, hart, region.slot, region.mem_region.start, region.mem_region.len, region.emode, region.eperm)
}

/// Grants the host temporary read, write and execute access to
/// `[addr, addr + len)` through the temporary window, PMP entry 1 as a NAPOT
/// region.
pub fn grant_kernel_access(sm: &mut SecMonitor, hart: usize, addr: u64, len: u64) -> (r: SbiRet)
    requires
        old(sm).wf(),
        hart < old(sm).pmp@.len(),
    ensures
        final(sm).wf(),
        final(sm).bitmap == old(sm).bitmap,
        addr + len > u64::MAX ==> r == SbiRet::invalid_param_spec() && final(sm).pmp@ == old(sm).pmp@
            && final(sm).regions.region@ == old(sm).regions.region@,
        addr + len <= u64::MAX ==> sync_result(
            old(sm).pmp@,
            final(sm).pmp@,
            hart,
            PMP_TEMP as u8,
            addr,
            len,
            PmpRange::NAPOT,
            PmpPerm::RWX,
            r,
        ),
        r == SbiRet::success_spec(0) ==> {
            let t0 = old(sm).regions.region@[PMP_TEMP as int];
            let t1 = final(sm).regions.region@[PMP_TEMP as int];
            &&& t1.mem_region.start == addr
            &&& t1.mem_region.len == len
            &&& t1.is_valid == t0.is_valid && t1.slot == t0.slot && t1.hmode == t0.hmode && t1.hperm == t0.hperm
            &&& forall|j: int|
                0 <= j < PENGLAI_PMP_COUNT && j != PMP_TEMP ==> #[trigger] final(sm).regions.region@[j]
                    == old(sm).regions.region@[j]
        },
        r != SbiRet::success_spec(0) ==> final(sm).regions.region@ == old(sm).regions.region@,
{
    if addr > u64::MAX - len {
        return SbiRet::invalid_param();
    }
    let ret = tee_pmp_sync(&mut sm.pmp, hart, PMP_TEMP as u8, addr, len, PmpRange::NAPOT, PmpPerm::RWX);
    if ret != SbiRet::success(0) {
        return ret;
    }
    let ghost r0 = sm.regions.region@;
    sm.regions.region[PMP_TEMP].mem_region.start = addr;
    sm.regions.region[PMP_TEMP].mem_region.len = len;
    proof {
        let r1 = sm.regions.region@;
        assert(r1 =~= r0.update(PMP_TEMP as int, r1[PMP_TEMP as int]));
        assert forall|a: int, b: int|
            0 <= a < r1.len() && 0 <= b < r1.len() && a != b && a != PMP_TEMP && b != PMP_TEMP && a
                != PMP_DEFAULT && b != PMP_DEFAULT && (#[trigger] r1[a]).is_valid && (#[trigger] r1[b]).is_valid implies !spans_overlap(
            r1[a].mem_region.start as nat,
            r1[a].mem_region.len as nat,
            r1[b].mem_region.start as nat,
            r1[b].mem_region.len as nat,
        ) by {
            assert(r0[a].is_valid && r0[b].is_valid);
        }
        assert forall|a: int| 0 <= a < r1.len() && (#[trigger] r1[a]).is_valid implies bit_set(sm.bitmap.map, r1[a].slot as u64) by {
            assert(r0[a].is_valid);
        }
        assert forall|a: int| 0 <= a < r1.len() implies (#[trigger] r1[a]).wf() by {
            assert(r0[a].wf());
        }
        assert forall|a: int| 0 <= a < PENGLAI_PMP_COUNT implies (#[trigger] r1[a]).slot < PMP_COUNT && (!r1[a].is_valid
            ==> r1[a].mem_region.total == 0) && (!is_reserved(a) ==> r1[a].mem_region.confined()) by {
            assert(r0[a].slot < PMP_COUNT);
        }
    }
    ret
}

/// Takes back the host's temporary access to `[addr, addr + len)`: where the
/// temporary window of `hart` covers exactly that range, it is cleared on
/// every hart; otherwise the result is an invalid-address error.
pub fn retrive_kernel_access(sm: &mut SecMonitor, hart: usize, addr: u64, len: u64) -> (r: SbiRet)
    requires
        old(sm).wf(),
        hart < old(sm).pmp@.len(),
    ensures
        final(sm).wf(),
        final(sm).bitmap == old(sm).bitmap,
        final(sm).regions.region@ == old(sm).regions.region@,
        ({
            let rep = entry_report(old(sm).pmp@[hart as int].regs[PMP_TEMP as int]);
            if rep.1 == PmpRange::NAPOT && rep.0 == (addr, len) {
                sync_result(old(sm).pmp@, final(sm).pmp@, hart, PMP_TEMP as u8, 0, 0, PmpRange::OFF, PmpPerm::NONE, r)
            } else {
                r == SbiRet::invalid_address_spec() && final(sm).pmp@ == old(sm).pmp@
            }
        }),
{
    let ((cur_addr, cur_len), range, _) = tee_get_pmp(&sm.pmp, hart, PMP_TEMP as u8);
    if range == PmpRange::NAPOT && cur_addr == addr && cur_len == len {
        return tee_pmp_clean_sync(&mut sm.pmp, hart, PMP_TEMP as u8);
    }
    SbiRet::invalid_address()
}

/// Whether some valid entry other than the monitor region, the temporary
/// window and the default region overlaps `[addr, addr + len)`.
pub open spec fn overlaps_general(regions: Seq<SecPMPRegion>, addr: u64, len: u64) -> bool {
    exists|i: int| 0 <= i < PENGLAI_PMP_COUNT && !is_reserved(i) && overlaps(#[trigger] regions[i], addr, len)
}

fn check_general_overlap(regions: &Vec<SecPMPRegion>, addr: u64, len: u64) -> (r: bool)
    requires
        table_wf(regions@),
        addr + len <= u64::MAX,
    ensures
        r == overlaps_general(regions@, addr, len),
{
    let mut i: usize = 0;
    while i < PENGLAI_PMP_COUNT
        invariant
            table_wf(regions@),
            addr + len <= u64::MAX,
            i <= PENGLAI_PMP_COUNT,
            forall|j: int| 0 <= j < i && !is_reserved(j) ==> !overlaps(#[trigger] regions@[j], addr, len),
        decreases PENGLAI_PMP_COUNT - i,
    {
        let e = &regions[i];
        if i != PMP_SM && i != PMP_TEMP && i != PMP_DEFAULT && e.is_valid && e.mem_region.is_mem_overlap(
            addr,
            addr + len,
        ) {
            return true;
        }
        i = i + 1;
    }
    false
}

/// Whether `secmem_init` is bound to succeed: nothing stands in the way of
/// the monitor region, every mailbox has room for the three changes it
/// publishes, and the first secure region is well formed and free.
pub open spec fn init_can_succeed(sm: SecMonitor, hart: usize, sbi_start: u64, sbi_end: u64, addr: u64, len: u64) -> bool {
    let sl = (sbi_end - sbi_start) as u64;
    let c = sm.pmp@;
    let rs = sm.regions.region@;
    &&& sbi_start <= sbi_end
    &&& !overlaps_general(rs, sbi_start, sl)
    &&& napot_valid(sbi_start, sl)
    &&& forall|h: int| 0 <= h < c.len() && h != hart ==> (#[trigger] c[h]).mailbox.len() + 3 <= crate::pmpsync::PMP_MAILBOX_SIZE
    &&& c[hart as int].count + 3 * (c.len() - 1) <= u32::MAX
    &&& mem_aligned(addr, len, PENGLAI_SMEM_ALIGN)
    &&& napot_valid(addr, len)
    &&& has_free_slot(sm.bitmap)
    &&& !spans_overlap(sbi_start as nat, sl as nat, addr as nat, len as nat)
    &&& !spans_overlap(
        rs[PMP_TEMP as int].mem_region.start as nat,
        rs[PMP_TEMP as int].mem_region.len as nat,
        addr as nat,
        len as nat,
    )
    &&& forall|i: int| 0 <= i < PENGLAI_PMP_COUNT && !is_reserved(i) ==> !overlaps(#[trigger] rs[i], addr, len)
    &&& exists|i: int| 0 <= i < PENGLAI_PMP_COUNT && #[trigger] unused_general(rs, i)
}

/// Whether every other mailbox has room for the three changes `secmem_init`
/// publishes, the counter of `hart` takes them, and the monitor region can be
/// described by a NAPOT entry.
pub open spec fn init_room(s0: SecMonitor, hart: usize, sbi_start: u64, sbi_end: u64) -> bool {
    let c = s0.pmp@;
    &&& sbi_start <= sbi_end
    &&& napot_valid(sbi_start, (sbi_end - sbi_start) as u64)
    &&& forall|h: int| 0 <= h < c.len() && h != hart ==> (#[trigger] c[h]).mailbox.len() + 3 <= crate::pmpsync::PMP_MAILBOX_SIZE
    &&& c[hart as int].count + 3 * (c.len() - 1) <= u32::MAX
}

/// What `secmem_init` returns and does.
pub open spec fn init_result(
    s0: SecMonitor,
    s1: SecMonitor,
    hart: usize,
    sbi_start: u64,
    sbi_end: u64,
    addr: u64,
    len: u64,
    r: SbiRet,
) -> bool {
    let sl = (sbi_end - sbi_start) as u64;
    &&& overlaps_general(s0.regions.region@, sbi_start, (sbi_end - sbi_start) as u64) ==> r
        == SbiRet::invalid_param_spec() && s1.regions.region@ == s0.regions.region@
        && s1.pmp@ == s0.pmp@ && s1.bitmap == s0.bitmap
    &&& !overlaps_general(s0.regions.region@, sbi_start, (sbi_end - sbi_start) as u64) && !sync_possible(
        s0.pmp@,
        hart,
        sbi_start,
        (sbi_end - sbi_start) as u64,
        PmpRange::NAPOT,
    ) ==> r == SbiRet::failed_spec() && s1.regions.region@ == s0.regions.region@ && s1.pmp@ == s0.pmp@
        && s1.bitmap == s0.bitmap
    &&& init_can_succeed(s0, hart, sbi_start, sbi_end, addr, len) ==> r == SbiRet::success_spec(0)
    &&& r == SbiRet::success_spec(0) ==> {
        let rs = s1.regions.region@;
        &&& rs[PMP_SM as int].is_valid
        &&& rs[PMP_SM as int].slot == PMP_SM
        &&& rs[PMP_SM as int].mem_region.start == sbi_start
        &&& rs[PMP_SM as int].mem_region.len == sbi_end - sbi_start
        &&& rs[PMP_SM as int].hperm == PmpPerm::NONE && rs[PMP_SM as int].eperm == PmpPerm::NONE
        &&& rs[PMP_SM as int].hmode == PmpRange::NAPOT && rs[PMP_SM as int].emode == PmpRange::NAPOT
        &&& !rs[PMP_DEFAULT as int].is_valid ==> rs[PMP_DEFAULT as int].slot == PMP_DEFAULT
            && rs[PMP_DEFAULT as int].mem_region.start == 0 && rs[PMP_DEFAULT as int].mem_region.len == u64::MAX
            && rs[PMP_DEFAULT as int].hperm == PmpPerm::RWX && rs[PMP_DEFAULT as int].hmode == PmpRange::NAPOT
        &&& rs[PMP_TEMP as int].is_valid
        &&& rs[PMP_TEMP as int].slot == PMP_TEMP
        &&& rs[PMP_TEMP as int].hperm == PmpPerm::RWX && rs[PMP_TEMP as int].hmode == PmpRange::NAPOT
        &&& exists|i: int|
            0 <= i < PENGLAI_PMP_COUNT && (#[trigger] rs[i]).is_valid && rs[i].mem_region.start == addr
                && rs[i].mem_region.len == len
    }
    &&& !overlaps_general(s0.regions.region@, sbi_start, sl) && init_room(s0, hart, sbi_start, sbi_end) ==> init_reserved(
        s0,
        s1,
        hart,
        sbi_start,
        sbi_end,
    )
    &&& r == SbiRet::success_spec(0) ==> init_reserved(s0, s1, hart, sbi_start, sbi_end)
    &&& !overlaps_general(s0.regions.region@, sbi_start, sl) && init_room(s0, hart, sbi_start, sbi_end) && mem_aligned(
        addr,
        len,
        PENGLAI_SMEM_ALIGN,
    ) && spans_overlap(sbi_start as nat, sl as nat, addr as nat, len as nat) ==> {
        &&& r == SbiRet::invalid_param_spec()
        &&& s1.bitmap == s0.bitmap
        &&& forall|j: int|
            0 <= j < PENGLAI_PMP_COUNT && !is_reserved(j) ==> #[trigger] s1.regions.region@[j] == s0.regions.region@[j]
    }
    &&& r == SbiRet::success_spec(0) ==> exists|i: usize| #[trigger] init_entry(s0, s1, hart, addr, len, i)
}

/// What `secmem_init` leaves in the reserved entries and in the PMP entries of
/// `hart` once both of their changes are published: the monitor region
/// protected from the host, the temporary window prepared but not programmed,
/// and the default region over all memory, kept out of the overlap checks.
pub open spec fn init_reserved(s0: SecMonitor, s1: SecMonitor, hart: usize, sbi_start: u64, sbi_end: u64) -> bool {
    let sl = (sbi_end - sbi_start) as u64;
    let rs = s1.regions.region@;
    let regs = s1.pmp@[hart as int].regs;
    &&& rs[PMP_SM as int].is_valid
    &&& rs[PMP_SM as int].slot == PMP_SM
    &&& rs[PMP_SM as int].mem_region.start == sbi_start
    &&& rs[PMP_SM as int].mem_region.len == sl
    &&& rs[PMP_SM as int].hperm == PmpPerm::NONE && rs[PMP_SM as int].eperm == PmpPerm::NONE
    &&& rs[PMP_SM as int].hmode == PmpRange::NAPOT && rs[PMP_SM as int].emode == PmpRange::NAPOT
    &&& rs[PMP_TEMP as int].is_valid
    &&& rs[PMP_TEMP as int].slot == PMP_TEMP
    &&& rs[PMP_TEMP as int].hperm == PmpPerm::RWX && rs[PMP_TEMP as int].hmode == PmpRange::NAPOT
    &&& !rs[PMP_DEFAULT as int].is_valid
    &&& rs[PMP_DEFAULT as int].slot == PMP_DEFAULT
    &&& rs[PMP_DEFAULT as int].mem_region.start == 0
    &&& rs[PMP_DEFAULT as int].mem_region.len == u64::MAX
    &&& rs[PMP_DEFAULT as int].hperm == PmpPerm::RWX && rs[PMP_DEFAULT as int].hmode == PmpRange::NAPOT
    &&& regs[PMP_SM as int] == entry_of(config_of(PMP_SM as u8, sbi_start, sl, PmpRange::NAPOT, PmpPerm::NONE))
    &&& regs[PMP_DEFAULT as int] == entry_of(config_of(PMP_DEFAULT as u8, 0, u64::MAX, PmpRange::NAPOT, PmpPerm::RWX))
    &&& regs[PMP_TEMP as int] == s0.pmp@[hart as int].regs[PMP_TEMP as int]
}

/// Whether entry `i` is where `secmem_init` put the first secure region: the
/// first unused entry that is not reserved, now as `secmem_extend` leaves it,
/// with the lowest free slot; no other general entry changes.
pub open spec fn init_entry(s0: SecMonitor, s1: SecMonitor, hart: usize, addr: u64, len: u64, i: usize) -> bool {
    let e = s1.regions.region@[i as int];
    &&& 2 <= i < PMP_DEFAULT
    &&& forall|j: int| 2 <= j < i ==> (#[trigger] s0.regions.region@[j]).is_valid
    &&& !s0.regions.region@[i as int].is_valid
    &&& e.is_valid
    &&& e.hperm == PmpPerm::NONE
    &&& e.hmode == PmpRange::NAPOT
    &&& e.eperm == PmpPerm::RWX
    &&& e.emode == PmpRange::NAPOT
    &&& e.mem_region.start == addr
    &&& e.mem_region.len == len
    &&& e.mem_region.used == 0
    &&& e.mem_region.total == len
    &&& forall|k: nat|
        k < 20 && addr as nat % pow2(k) == 0 && pow2(k) <= len ==> #[trigger] can_serve(e.mem_region.allocator, pow2(k))
    &&& crate::bitmap::alloc_post(s0.bitmap, s1.bitmap, Some(e.slot))
    &&& s1.pmp@[hart as int].regs[e.slot as int] == entry_of(config_of(e.slot, addr, len, PmpRange::NAPOT, PmpPerm::NONE))
    &&& forall|j: int|
        0 <= j < PENGLAI_PMP_COUNT && !is_reserved(j) && j != i ==> #[trigger] s1.regions.region@[j] == s0.regions.region@[j]
}

/// Brings up the monitor: protects the monitor's own memory
/// `[sbi_start, sbi_end)`, programs the default region over all memory,
/// prepares the temporary window and adds `[addr, addr + len)` as the first
/// secure region.
#[verifier::rlimit(100)]
pub fn secmem_init(sm: &mut SecMonitor, hart: usize, sbi_start: u64, sbi_end: u64, addr: u64, len: u64) -> (r: SbiRet)
    requires
        old(sm).wf(),
        hart < old(sm).pmp@.len(),
        sbi_start <= sbi_end,
    ensures
        final(sm).wf(),
        init_result(*old(sm), *final(sm), hart, sbi_start, sbi_end, addr, len, r),
{
    let sm_len = sbi_end - sbi_start;
    if check_general_overlap(sm.regions.region(), sbi_start, sm_len) {
        return SbiRet::invalid_param();
    }
    let ret = tee_pmp_sync(&mut sm.pmp, hart, PMP_SM as u8, sbi_start, sm_len, PmpRange::NAPOT, PmpPerm::NONE);
    if ret != SbiRet::success(0) {
        return SbiRet::failed();
    }
    let ghost r0 = sm.regions.region@;
    let ghost c1 = sm.pmp@;
    let sm_region = SecPMPRegion {
        slot: PMP_SM as u8,
        is_valid: true,
        hperm: PmpPerm::NONE,
        hmode: PmpRange::NAPOT,
        eperm: PmpPerm::NONE,
        emode: PmpRange::NAPOT,
        mem_region: SecmemRegion::new(sbi_start, sm_len),
    };
    sm.regions.region.set(PMP_SM, sm_region);
    proof {
        let r1 = sm.regions.region@;
        assert forall|a: int, b: int|
            0 <= a < r1.len() && 0 <= b < r1.len() && a != b && a != PMP_TEMP && b != PMP_TEMP && a
                != PMP_DEFAULT && b != PMP_DEFAULT && (#[trigger] r1[a]).is_valid && (#[trigger] r1[b]).is_valid implies !spans_overlap(
            r1[a].mem_region.start as nat,
            r1[a].mem_region.len as nat,
            r1[b].mem_region.start as nat,
            r1[b].mem_region.len as nat,
        ) by {
            if a == PMP_SM {
                assert(!overlaps(r0[b], sbi_start, sm_len));
            } else if b == PMP_SM {
                assert(!overlaps(r0[a], sbi_start, sm_len));
            } else {
                assert(r0[a].is_valid && r0[b].is_valid);
            }
        }
        assert forall|a: int| 0 <= a < r1.len() && (#[trigger] r1[a]).is_valid implies bit_set(sm.bitmap.map, r1[a].slot as u64) by {
            if a != PMP_SM {
                assert(r0[a].is_valid);
            }
        }
        assert forall|a: int| 0 <= a < r1.len() implies (#[trigger] r1[a]).wf() by {
            assert(r0[a].wf());
        }
        assert forall|a: int| 0 <= a < PENGLAI_PMP_COUNT implies (#[trigger] r1[a]).slot < PMP_COUNT && (!r1[a].is_valid
            ==> r1[a].mem_region.total == 0) && (!is_reserved(a) ==> r1[a].mem_region.confined()) by {
            assert(r0[a].slot < PMP_COUNT);
        }
    }
    let ret = tee_pmp_sync(&mut sm.pmp, hart, PMP_DEFAULT as u8, 0, u64::MAX, PmpRange::NAPOT, PmpPerm::RWX);
    if ret != SbiRet::success(0) {
        return SbiRet::failed();
    }
    let ghost r1 = sm.regions.region@;
    let default_region = SecPMPRegion {
        slot: PMP_DEFAULT as u8,
        is_valid: false,
        hperm: PmpPerm::RWX,
        hmode: PmpRange::NAPOT,
        eperm: PmpPerm::NONE,
        emode: PmpRange::NAPOT,
        mem_region: SecmemRegion::new(0, u64::MAX),
    };
    sm.regions.region.set(PMP_DEFAULT, default_region);
    sm.regions.region[PMP_TEMP].is_valid = true;
    sm.regions.region[PMP_TEMP].hmode = PmpRange::NAPOT;
    sm.regions.region[PMP_TEMP].hperm = PmpPerm::RWX;
    sm.regions.region[PMP_TEMP].slot = PMP_TEMP as u8;
    proof {
        let r2 = sm.regions.region@;
        assert(bit_set(sm.bitmap.map, PMP_TEMP as u64));
        assert forall|a: int, b: int|
            0 <= a < r2.len() && 0 <= b < r2.len() && a != b && a != PMP_TEMP && b != PMP_TEMP && a
                != PMP_DEFAULT && b != PMP_DEFAULT && (#[trigger] r2[a]).is_valid && (#[trigger] r2[b]).is_valid implies !spans_overlap(
            r2[a].mem_region.start as nat,
            r2[a].mem_region.len as nat,
            r2[b].mem_region.start as nat,
            r2[b].mem_region.len as nat,
        ) by {
            assert(r1[a].is_valid && r1[b].is_valid);
        }
        assert forall|a: int| 0 <= a < r2.len() && (#[trigger] r2[a]).is_valid implies bit_set(sm.bitmap.map, r2[a].slot as u64) by {
            if a != PMP_TEMP {
                assert(r1[a].is_valid);
            }
        }
        assert forall|a: int| 0 <= a < r2.len() implies (#[trigger] r2[a]).wf() by {
            assert(r1[a].wf());
        }
        assert forall|a: int| 0 <= a < PENGLAI_PMP_COUNT implies (#[trigger] r2[a]).slot < PMP_COUNT && (!r2[a].is_valid
            ==> r2[a].mem_region.total == 0) && (!is_reserved(a) ==> r2[a].mem_region.confined()) by {
            assert(r1[a].slot < PMP_COUNT);
        }
    }
    let ghost mid = *sm;
    proof {
        let sl = sm_len;
        assert(c1[hart as int].regs == old(sm).pmp@[hart as int].regs.update(
            PMP_SM as int,
            entry_of(config_of(PMP_SM as u8, sbi_start, sl, PmpRange::NAPOT, PmpPerm::NONE)),
        ));
        assert forall|j: int| 2 <= j < PMP_DEFAULT implies #[trigger] mid.regions.region@[j] == old(sm).regions.region@[j] by {}
        if !overlaps_general(old(sm).regions.region@, sbi_start, sl) && mem_aligned(addr, len, PENGLAI_SMEM_ALIGN)
            && spans_overlap(sbi_start as nat, sl as nat, addr as nat, len as nat) {
            assert(overlaps(mid.regions.region@[PMP_SM as int], addr, len));
        }
        if init_can_succeed(*old(sm), hart, sbi_start, sbi_end, addr, len) {
            let c0 = old(sm).pmp@;
            let c2 = mid.pmp@;
            assert(forall|h: int| 0 <= h < c0.len() && h != hart ==> (#[trigger] c2[h]).mailbox.len() == c0[h].mailbox.len() + 2);
            assert(c2[hart as int].count == c0[hart as int].count + 2 * (c0.len() - 1));
            assert(sync_possible(mid.pmp@, hart, addr, len, PmpRange::NAPOT));
            assert(!mid.regions.region@[PMP_DEFAULT as int].is_valid);
            let w = choose|w: int| 0 <= w < PENGLAI_PMP_COUNT && #[trigger] unused_general(old(sm).regions.region@, w);
            assert(mid.regions.region@[w] == old(sm).regions.region@[w]);
            assert(unused_general(mid.regions.region@, w));
            assert forall|i: int| 0 <= i < PENGLAI_PMP_COUNT implies !overlaps(#[trigger] mid.regions.region@[i], addr, len) by {
                if !is_reserved(i) {
                    assert(mid.regions.region@[i] == old(sm).regions.region@[i]);
                } else if i == PMP_SM {
                    assert(mid.regions.region@[i].mem_region.start == sbi_start);
                    assert(mid.regions.region@[i].mem_region.len == sm_len);
                } else if i == PMP_TEMP {
                    assert(mid.regions.region@[i].mem_region == old(sm).regions.region@[i].mem_region);
                }
            }
        }
    }
    let ret = secmem_extend(sm, hart, addr, len);
    proof {
        if !overlaps_general(old(sm).regions.region@, sbi_start, sm_len) && init_room(*old(sm), hart, sbi_start, sbi_end) {
            assert(init_reserved(*old(sm), mid, hart, sbi_start, sbi_end));
        }
        if ret == SbiRet::success_spec(0) {
            let i = choose|i: usize| extend_at(mid, *sm, hart, addr, len, i);
            let slot = sm.regions.region@[i as int].slot;
            assert(bit_set(mid.bitmap.map, 0) && bit_set(mid.bitmap.map, 1));
            assert(slot != PMP_SM && slot != PMP_TEMP && slot != PMP_DEFAULT);
            assert(unused_general(mid.regions.region@, i as int));
            assert forall|j: int| 2 <= j < i implies (#[trigger] old(sm).regions.region@[j]).is_valid by {
                let p = |k: int| unused_general(mid.regions.region@, k);
                assert(!p(j));
                assert(mid.regions.region@[j] == old(sm).regions.region@[j]);
            }
            assert(mid.regions.region@[i as int] == old(sm).regions.region@[i as int]);
            assert(mid.bitmap == old(sm).bitmap);
            assert(sm.regions.region@[PMP_SM as int] == mid.regions.region@[PMP_SM as int]);
            assert(sm.regions.region@[PMP_TEMP as int] == mid.regions.region@[PMP_TEMP as int]);
            assert(sm.regions.region@[PMP_DEFAULT as int] == mid.regions.region@[PMP_DEFAULT as int]);
            assert(init_reserved(*old(sm), mid, hart, sbi_start, sbi_end));
            assert(init_entry(*old(sm), *sm, hart, addr, len, i));
            assert(init_reserved(*old(sm), *sm, hart, sbi_start, sbi_end));
        }
    }
    ret
}

/// Returning a whole region to the host is not supported: the call succeeds
/// and changes nothing.
pub fn secmem_reclaim() -> (r: SbiRet)
    ensures
        r == SbiRet::success_spec(0),
{
    SbiRet::success(0)
}

/// The bytes that entry `i` accounts for the block of the allocation `a`:
/// its block size where the entry may serve enclave memory and holds it.
pub open spec fn held_bytes(r: Seq<SecPMPRegion>, i: int, a: (u64, u64)) -> nat {
    if serves_memory(r, i) && contains(r[i], a.0, a.1) {
        block_size(a.1 as nat, PAGE_SIZE as nat)
    } else {
        0
    }
}

/// The bytes of the blocks of the allocations in `live` that entry `i` holds.
pub open spec fn live_bytes(r: Seq<SecPMPRegion>, live: Seq<(u64, u64)>, i: int) -> nat
    decreases live.len(),
{
    if live.len() == 0 {
        0
    } else {
        live_bytes(r, live.drop_last(), i) + held_bytes(r, i, live.last())
    }
}

/// Every entry's count of handed-out bytes is its count in `base` plus the
/// blocks of the allocations in `live` that it holds.
pub open spec fn usage_accounts(r: Seq<SecPMPRegion>, base: Seq<nat>, live: Seq<(u64, u64)>) -> bool {
    forall|i: int| 0 <= i < PENGLAI_PMP_COUNT ==> #[trigger] r[i].mem_region.used == base[i] + live_bytes(r, live, i)
}

proof fn lemma_live_bytes_usage_only(r: Seq<SecPMPRegion>, r2: Seq<SecPMPRegion>, live: Seq<(u64, u64)>, i: int)
    requires
        usage_only(r, r2),
        0 <= i < r.len(),
    ensures
        live_bytes(r2, live, i) == live_bytes(r, live, i),
    decreases live.len(),
{
    assert(same_but_usage(r[i], r2[i]));
    if live.len() > 0 {
        lemma_live_bytes_usage_only(r, r2, live.drop_last(), i);
    }
}

proof fn lemma_live_bytes_remove(r: Seq<SecPMPRegion>, live: Seq<(u64, u64)>, m: int, i: int)
    requires
        0 <= m < live.len(),
    ensures
        live_bytes(r, live.remove(m), i) + held_bytes(r, i, live[m]) == live_bytes(r, live, i),
    decreases live.len(),
{
    if m == live.len() - 1 {
        assert(live.remove(m) =~= live.drop_last());
    } else {
        assert(live.remove(m).drop_last() =~= live.drop_last().remove(m));
        assert(live.remove(m).last() == live.last());
        lemma_live_bytes_remove(r, live.drop_last(), m, i);
    }
}

/// At any point the counts account for no live allocation against
/// themselves; so when every allocation made since has been freed, every
/// region's count of handed-out bytes is back where it started.
pub proof fn lemma_accounts_start(r: Seq<SecPMPRegion>)
    requires
        r.len() == PENGLAI_PMP_COUNT,
    ensures
        usage_accounts(r, Seq::new(PENGLAI_PMP_COUNT as nat, |i: int| r[i].mem_region.used as nat), Seq::empty()),
{
}

/// A successful `secmem_alloc` keeps the counts accounted for, with its block
/// added to the live allocations.
pub proof fn lemma_alloc_accounts(
    sm: SecMonitor,
    r1: Seq<SecPMPRegion>,
    base: Seq<nat>,
    live: Seq<(u64, u64)>,
    reqsize: u64,
    ptr: u64,
)
    requires
        sm.wf(),
        reqsize > 0,
        usage_accounts(sm.regions.region@, base, live),
        usage_only(sm.regions.region@, r1),
        secmem_alloc_post(sm.regions.region@, r1, reqsize, Some((ptr, reqsize))),
    ensures
        usage_accounts(r1, base, live.push((ptr, reqsize))),
{
    let r0 = sm.regions.region@;
    let k = served_index(r0, r1, reqsize, ptr);
    assert(first_fit_at(r0, r1, reqsize, ptr, k));
    assert forall|i: int| 0 <= i < PENGLAI_PMP_COUNT implies #[trigger] r1[i].mem_region.used == base[i] + live_bytes(
        r1,
        live.push((ptr, reqsize)),
        i,
    ) by {
        assert(live.push((ptr, reqsize)).drop_last() =~= live);
        lemma_live_bytes_usage_only(r0, r1, live, i);
        assert(same_but_usage(r0[i], r1[i]));
        assert(same_but_usage(r0[k], r1[k]));
        assert(r0[i].mem_region.used == base[i] + live_bytes(r0, live, i));
        if i != k && serves_memory(r1, i) && contains(r1[i], ptr, reqsize) {
            lemma_regions_disjoint(sm, i, k);
            assert(spans_overlap(
                r0[i].mem_region.start as nat,
                r0[i].mem_region.len as nat,
                r0[k].mem_region.start as nat,
                r0[k].mem_region.len as nat,
            ));
        }
    }
}

/// A successful `secmem_free` of a live allocation keeps the counts accounted
/// for, with that allocation taken out of the live ones.
pub proof fn lemma_free_accounts(
    sm: SecMonitor,
    r1: Seq<SecPMPRegion>,
    base: Seq<nat>,
    live: Seq<(u64, u64)>,
    m: int,
)
    requires
        sm.wf(),
        usage_accounts(sm.regions.region@, base, live),
        0 <= m < live.len(),
        usage_only(sm.regions.region@, r1),
        secmem_free_post(sm.regions.region@, r1, live[m].0, live[m].1, SbiRet::success_spec(0)),
    ensures
        usage_accounts(r1, base, live.remove(m)),
{
    let r0 = sm.regions.region@;
    let (addr, len) = live[m];
    let blk = block_size(len as nat, PAGE_SIZE as nat);
    let k = choose|k: usize|
        #[trigger] free_target(r0, addr, len, Some(k)) && frees_block(r0[k as int], addr, len)
            && r1[k as int].mem_region.used == r0[k as int].mem_region.used - blk
            && r1[k as int].mem_region.can_allocate(blk) && forall|j: int|
            0 <= j < PENGLAI_PMP_COUNT && j != k ==> (#[trigger] r1[j]) == r0[j];
    assert(mem_aligned(addr, len, PENGLAI_SMEM_ALIGN));
    assert forall|i: int| 0 <= i < PENGLAI_PMP_COUNT implies #[trigger] r1[i].mem_region.used == base[i] + live_bytes(
        r1,
        live.remove(m),
        i,
    ) by {
        lemma_live_bytes_remove(r0, live, m, i);
        lemma_live_bytes_usage_only(r0, r1, live.remove(m), i);
        assert(r0[i].mem_region.used == base[i] + live_bytes(r0, live, i));
        assert(serves_memory(r0, k as int) && contains(r0[k as int], addr, len));
        if i != k && serves_memory(r0, i) && contains(r0[i], addr, len) {
            lemma_regions_disjoint(sm, i, k as int);
        }
    }
}

} // verus!
