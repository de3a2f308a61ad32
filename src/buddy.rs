//! Buddy allocator behind each secure memory region.
use vstd::prelude::*;
use buddy_system_allocator::FrameAllocator;
use vstd::arithmetic::power2::pow2;

verus! {

/// Largest block order the buddy allocator of a region serves.
pub const SECMEM_MAX_ORDER: usize = 20;

#[verifier::external_type_specification]
#[verifier::external_body]
pub struct ExFrameAllocator<const ORDER: usize>(FrameAllocator<ORDER>);

/// Number of units that a frame allocator has handed out and not taken back.
pub uninterp spec fn frames_allocated(fa: FrameAllocator<20>) -> nat;

/// Number of units that have been added to a frame allocator.
pub uninterp spec fn frames_total(fa: FrameAllocator<20>) -> nat;

/// The free blocks of a frame allocator, by order: the block starting at `a`
/// in the set of order `j` covers `[a, a + 2^j)`.
pub uninterp spec fn frames_free(fa: FrameAllocator<20>) -> Seq<Set<u64>>;

/// Whether some free block of `fa` is at least `blk` units long.
pub open spec fn can_serve(fa: FrameAllocator<20>, blk: nat) -> bool {
    exists|j: nat, a: u64| j < 20 && blk <= pow2(j) && #[trigger] frames_free(fa)[j as int].contains(a)
}

/// Whether every free block of `fa` starts at a multiple of its own size.
pub open spec fn free_aligned(fa: FrameAllocator<20>) -> bool {
    &&& frames_free(fa).len() == 20
    &&& forall|j: nat, a: u64| j < 20 && #[trigger] frames_free(fa)[j as int].contains(a) ==> a as nat % pow2(j) == 0
}

/// Whether every free block of `fa` lies inside `[lo, hi)`.
pub open spec fn blocks_within(fa: FrameAllocator<20>, lo: nat, hi: nat) -> bool {
    forall|j: nat, a: u64| j < 20 && #[trigger] frames_free(fa)[j as int].contains(a) ==> lo <= a && a + pow2(j) <= hi
}

/// Whether `fa` has no free block.
pub open spec fn no_free_blocks(fa: FrameAllocator<20>) -> bool {
    &&& frames_free(fa).len() == 20
    &&& forall|j: int| 0 <= j < 20 ==> #[trigger] frames_free(fa)[j] == Set::<u64>::empty()
}

/// `p` doubled until it reaches `n`.
pub open spec fn pow2_reaching(n: nat, p: nat) -> nat
    decreases (if p <= n {
        n - p
    } else {
        0
    }),
{
    if p == 0 || p >= n {
        p
    } else {
        pow2_reaching(n, 2 * p)
    }
}

/// The smallest power of two that is at least `n` (one for zero).
pub open spec fn next_pow2(n: nat) -> nat {
    pow2_reaching(n, 1)
}

/// The size of the buddy block that serves `size` units at alignment `align`.
pub open spec fn block_size(size: nat, align: nat) -> nat {
    if next_pow2(size) >= align {
        next_pow2(size)
    } else {
        align
    }
}

/// Relies on `FrameAllocator::new`: an allocator with nothing added, nothing
/// handed out and twenty empty free lists.
#[verifier::external_body]
fn frame_allocator_new() -> (r: FrameAllocator<20>)
    ensures
        frames_allocated(r) == 0,
        frames_total(r) == 0,
        no_free_blocks(r),
{
    FrameAllocator::<20>::new()
}

/// Relies on `FrameAllocator::add_frame`: it asserts `start <= end`, covers
/// `[start, end)` with new free blocks, adds `end - start` to its total and
/// leaves its count of handed-out units alone. Each new block is no longer
/// than the lowest set bit of its start (any length at start zero), no longer
/// than the prefix power of two of what is left, and at most `2^19`; so the
/// first block is at least `2^k` long where `start` is a multiple of `2^k`
/// and `[start, end)` holds `2^k` units.
#[verifier::external_body]
fn frame_add(fa: &mut FrameAllocator<20>, start: u64, end: u64)
    requires
        start <= end,
        frames_total(*old(fa)) + (end - start) <= u64::MAX,
    ensures
        frames_allocated(*final(fa)) == frames_allocated(*old(fa)),
        frames_total(*final(fa)) == frames_total(*old(fa)) + (end - start),
        free_aligned(*old(fa)) ==> free_aligned(*final(fa)),
        forall|lo: nat, hi: nat|
            #[trigger] blocks_within(*old(fa), lo, hi) && lo <= start && end <= hi ==> blocks_within(*final(fa), lo, hi),
        forall|k: nat|
            k < 20 && start as nat % pow2(k) == 0 && start + pow2(k) <= end ==> #[trigger] can_serve(*final(fa), pow2(k)),
{
    fa.add_frame(start as usize, end as usize)
}

/// Relies on `FrameAllocator::alloc_aligned`: a block of
/// `max(size.next_power_of_two(), align)` units is handed out and counted, or
/// `None` comes back with nothing changed. `alloc_power_of_two` finds a block
/// exactly when a free list of that order or above is non-empty; it splits the
/// first such block down and hands out its lowest part, which starts at a
/// multiple of the block size where free blocks start at multiples of theirs.
/// The handed-out block lies inside a block that was free and is free no
/// longer. Splitting adds `2^(j-1)` to a free block, which cannot overflow
/// where free blocks start at multiples of their size. The layout is built
/// from `size` and `align`, which `Layout::from_size_align` accepts under the
/// `requires`.
#[verifier::external_body]
fn frame_alloc_aligned(fa: &mut FrameAllocator<20>, size: u64, align: u64) -> (r: Option<u64>)
    requires
        free_aligned(*old(fa)),
        align > 0,
        align & ((align - 1) as u64) == 0,
        size + align <= 0x8000_0000_0000_0000u64,
        frames_allocated(*old(fa)) + block_size(size as nat, align as nat) <= u64::MAX,
    ensures
        frames_total(*final(fa)) == frames_total(*old(fa)),
        r is Some ==> frames_allocated(*final(fa)) == frames_allocated(*old(fa)) + block_size(
            size as nat,
            align as nat,
        ),
        r is None ==> frames_allocated(*final(fa)) == frames_allocated(*old(fa)),
        r is Some <==> can_serve(*old(fa), block_size(size as nat, align as nat)),
        r is None ==> frames_free(*final(fa)) == frames_free(*old(fa)),
        free_aligned(*old(fa)) ==> free_aligned(*final(fa)) && (r matches Some(a) ==> a as nat % block_size(
            size as nat,
            align as nat,
        ) == 0 && a as nat % align as nat == 0),
        forall|lo: nat, hi: nat|
            #[trigger] blocks_within(*old(fa), lo, hi) ==> blocks_within(*final(fa), lo, hi) && (r matches Some(a)
                ==> lo <= a && a + block_size(size as nat, align as nat) <= hi),
        r matches Some(a) ==> exists|j: nat, b: u64|
            j < 20 && #[trigger] frames_free(*old(fa))[j as int].contains(b) && !frames_free(*final(fa))[j as int].contains(b)
                && b <= a && a + block_size(size as nat, align as nat) <= b + pow2(j),
{
    let layout = core::alloc::Layout::from_size_align(size as usize, align as usize).unwrap();
    fa.alloc_aligned(layout).map(|a| a as u64)
}

/// Relies on `FrameAllocator::dealloc_aligned`: the block of
/// `max(size.next_power_of_two(), align)` units at `start` goes back to the
/// free blocks and its units leave the handed-out count, which must hold them.
/// The block is merged with free buddies (`start ^ 2^c`) into one block that
/// covers exactly the merged pieces; merging a block that starts at a multiple
/// of its size gives blocks that start at multiples of theirs. The block's
/// order must be below twenty, the number of free lists, or the final insert
/// indexes past them; it ends up in a free list of at least its own order.
#[verifier::external_body]
fn frame_dealloc_aligned(fa: &mut FrameAllocator<20>, start: u64, size: u64, align: u64)
    requires
        block_size(size as nat, align as nat) <= pow2(19),
        start as nat % block_size(size as nat, align as nat) == 0,
        align > 0,
        align & ((align - 1) as u64) == 0,
        size + align <= 0x8000_0000_0000_0000u64,
        frames_allocated(*old(fa)) >= block_size(size as nat, align as nat),
    ensures
        frames_total(*final(fa)) == frames_total(*old(fa)),
        frames_allocated(*final(fa)) == frames_allocated(*old(fa)) - block_size(
            size as nat,
            align as nat,
        ),
        free_aligned(*old(fa)) ==> free_aligned(*final(fa)),
        can_serve(*final(fa), block_size(size as nat, align as nat)),
        forall|lo: nat, hi: nat|
            #[trigger] blocks_within(*old(fa), lo, hi) && lo <= start && start + block_size(size as nat, align as nat)
                <= hi ==> blocks_within(*final(fa), lo, hi),
{
    let layout = core::alloc::Layout::from_size_align(size as usize, align as usize).unwrap();
    fa.dealloc_aligned(start as usize, layout)
}

/// The smallest power of two that is at least `n`.
pub fn next_power_of_two(n: u64) -> (r: u64)
    requires
        n <= 0x8000_0000_0000_0000u64,
    ensures
        r as nat == next_pow2(n as nat),
{
    let mut p: u64 = 1;
    while p < n
        invariant
            1 <= p,
            n <= 0x8000_0000_0000_0000u64,
            pow2_reaching(n as nat, p as nat) == next_pow2(n as nat),
        decreases (if p <= n {
            n - p
        } else {
            0
        }),
    {
        p = p * 2;
    }
    p
}

/// A secure memory region `[start, start + len)` and the buddy allocator that
/// serves enclave memory out of it, with the allocator's counts of handed-out
/// and added bytes.
pub struct SecmemRegion {
    pub start: u64,
    pub len: u64,
    pub allocator: FrameAllocator<20>,
    pub used: u64,
    pub total: u64,
}

/// Whether the bounds of `[a, a + alen)` and `[b, b + blen)` interleave: each
/// starts before the other ends. For non-empty ranges this is sharing a byte;
/// an empty range strictly inside the other counts too.
pub open spec fn spans_overlap(a: nat, alen: nat, b: nat, blen: nat) -> bool {
    a < b + blen && b < a + alen
}

/// Whether `[a, a + alen)` lies inside `[b, b + blen)`.
pub open spec fn span_contains(b: nat, blen: nat, a: nat, alen: nat) -> bool {
    b <= a && a + alen <= b + blen
}

impl SecmemRegion {
    pub open spec fn wf(&self) -> bool {
        &&& self.start + self.len <= u64::MAX
        &&& self.used == frames_allocated(self.allocator)
        &&& self.total == frames_total(self.allocator)
        &&& free_aligned(self.allocator)
    }

    /// Whether every free block of the allocator lies inside the region.
    pub open spec fn confined(&self) -> bool {
        blocks_within(self.allocator, self.start as nat, (self.start + self.len) as nat)
    }

    /// Whether the region can hand out a block of `blk` bytes.
    pub open spec fn can_allocate(&self, blk: nat) -> bool {
        can_serve(self.allocator, blk) && self.used + blk <= u64::MAX
    }

    /// A region over `[start, start + len)` whose allocator holds nothing yet.
    pub fn new(start: u64, len: u64) -> (r: SecmemRegion)
        requires
            start + len <= u64::MAX,
        ensures
            r.wf(),
            r.start == start,
            r.len == len,
            r.used == 0,
            r.total == 0,
            r.confined(),
            no_free_blocks(r.allocator),
    {
        SecmemRegion { start, len, allocator: frame_allocator_new(), used: 0, total: 0 }
    }

    /// Points the region at `[start, start + len)` and hands that memory to
    /// its allocator.
    pub fn init(&mut self, start: u64, len: u64)
        requires
            old(self).wf(),
            start + len <= u64::MAX,
            old(self).total + len <= u64::MAX,
        ensures
            final(self).wf(),
            final(self).start == start,
            final(self).len == len,
            final(self).used == old(self).used,
            final(self).total == old(self).total + len,
            blocks_within(old(self).allocator, start as nat, (start + len) as nat) ==> final(self).confined(),
            forall|k: nat|
                k < 20 && start as nat % pow2(k) == 0 && pow2(k) <= len ==> #[trigger] can_serve(final(self).allocator, pow2(k)),
    {
        self.start = start;
        self.len = len;
        frame_add(&mut self.allocator, start, start + len);
        self.total = self.total + len;
    }

    /// Takes a block for `size` bytes at alignment `align`; the start of the
    /// block comes back.
    pub fn allocate(&mut self, size: u64, align: u64) -> (r: Result<u64, ()>)
        requires
            old(self).wf(),
            align > 0,
            align & ((align - 1) as u64) == 0,
            size + align <= 0x8000_0000_0000_0000u64,
        ensures
            final(self).wf(),
            final(self).start == old(self).start,
            final(self).len == old(self).len,
            final(self).total == old(self).total,
            r is Ok ==> final(self).used == old(self).used + block_size(size as nat, align as nat),
            r is Err ==> final(self).used == old(self).used,
            r is Ok <==> old(self).can_allocate(block_size(size as nat, align as nat)),
            r is Err ==> frames_free(final(self).allocator) == frames_free(old(self).allocator),
            r matches Ok(a) ==> a as nat % block_size(size as nat, align as nat) == 0 && a as nat % align as nat == 0,
            r matches Ok(a) ==> exists|j: nat, b: u64|
                j < 20 && #[trigger] frames_free(old(self).allocator)[j as int].contains(b)
                    && !frames_free(final(self).allocator)[j as int].contains(b) && b <= a && a + block_size(
                    size as nat,
                    align as nat,
                ) <= b + pow2(j),
            old(self).confined() ==> final(self).confined() && (r matches Ok(a) ==> old(self).start <= a && a
                + block_size(size as nat, align as nat) <= old(self).start + old(self).len),
    {
        let p = next_power_of_two(size);
        let block = if p >= align {
            p
        } else {
            align
        };
        if self.used > u64::MAX - block {
            return Err(());
        }
        match frame_alloc_aligned(&mut self.allocator, size, align) {
            Some(a) => {
                self.used = self.used + block;
                Ok(a)
            },
            None => Err(()),
        }
    }

    /// Gives back the block at `ptr` that served `size` bytes at alignment `align`.
    pub fn dealloc(&mut self, ptr: u64, size: u64, align: u64)
        requires
            old(self).wf(),
            align > 0,
            align & ((align - 1) as u64) == 0,
            size + align <= 0x8000_0000_0000_0000u64,
            old(self).used >= block_size(size as nat, align as nat),
            ptr as nat % block_size(size as nat, align as nat) == 0,
            block_size(size as nat, align as nat) <= pow2(19),
        ensures
            final(self).wf(),
            final(self).start == old(self).start,
            final(self).len == old(self).len,
            final(self).total == old(self).total,
            final(self).used == old(self).used - block_size(size as nat, align as nat),
            final(self).can_allocate(block_size(size as nat, align as nat)),
            old(self).confined() && old(self).start <= ptr && ptr + block_size(size as nat, align as nat)
                <= old(self).start + old(self).len ==> final(self).confined(),
    {
        let p = next_power_of_two(size);
        let block = if p >= align {
            p
        } else {
            align
        };
        frame_dealloc_aligned(&mut self.allocator, ptr, size, align);
        self.used = self.used - block;
    }

    /// Adds the separate chunk `[start, start + len)` to the allocator.
    pub fn extend(&mut self, start: u64, len: u64)
        requires
            old(self).wf(),
            start + len <= u64::MAX,
            old(self).total + len <= u64::MAX,
        ensures
            final(self).wf(),
            final(self).start == old(self).start,
            final(self).len == old(self).len,
            final(self).used == old(self).used,
            final(self).total == old(self).total + len,
    {
        frame_add(&mut self.allocator, start, start + len);
        self.total = self.total + len;
    }

    /// Whether `[start, end)` shares a byte with the region.
    pub fn is_mem_overlap(&self, start: u64, end: u64) -> (r: bool)
        requires
            self.wf(),
        ensures
            r == (self.start < end && start < self.start + self.len),
    {
        self.start < end && self.start + self.len > start
    }

    /// Whether `[start, end)` lies inside the region.
    pub fn is_mem_contained(&self, start: u64, end: u64) -> (r: bool)
        requires
            self.wf(),
        ensures
            r == (self.start <= start && end <= self.start + self.len),
    {
        self.start <= start && end <= self.start + self.len
    }

    /// Bytes of the region's allocator that are handed out.
    pub fn check_used(&self) -> (r: u64)
        requires
            self.wf(),
        ensures
            r as nat == frames_allocated(self.allocator),
    {
        self.used
    }

    /// Bytes of the region's allocator that are not handed out.
    pub fn check_aval(&self) -> (r: u64)
        requires
            self.wf(),
        ensures
            frames_allocated(self.allocator) <= frames_total(self.allocator) ==> r == frames_total(
                self.allocator,
            ) - frames_allocated(self.allocator),
            frames_allocated(self.allocator) > frames_total(self.allocator) ==> r == 0,
    {
        if self.used <= self.total {
            self.total - self.used
        } else {
            0
        }
    }
}

} // verus!
