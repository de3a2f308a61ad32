//! Allocator of PMP slots over a bitmap word.
use vstd::prelude::*;

verus! {

/// Whether bit `i` of `map` is set.
pub open spec fn bit_set(map: u64, i: u64) -> bool {
    (map >> i) & 1u64 == 1u64
}

/// Bitmap of PMP slots: bit `i` is set when slot `i` is in use. Slots are
/// handed out from `[start, end)`.
#[derive(Clone, Copy, Debug, PartialEq, Eq, Structural)]
pub struct PmpBitmap {
    pub map: u64,
    pub start: u8,
    pub end: u8,
}

/// What `allocate` does: it takes the lowest clear slot of `[start, end)` and sets
/// it, or changes nothing when every slot there is set.
pub open spec fn alloc_post(old: PmpBitmap, new: PmpBitmap, r: Option<u8>) -> bool {
    &&& new.start == old.start
    &&& new.end == old.end
    &&& match r {
        None => {
            &&& new.map == old.map
            &&& forall|j: u64| old.start <= j < old.end ==> bit_set(old.map, j)
        },
        Some(i) => {
            &&& old.start <= i < old.end
            &&& !bit_set(old.map, i as u64)
            &&& forall|j: u64| old.start <= j < i ==> bit_set(old.map, j)
            &&& new.map == old.map | (1u64 << (i as u64))
        },
    }
}

/// What `free` does: it clears the bit of `idx` when `mask` holds it.
pub open spec fn free_post(old: PmpBitmap, new: PmpBitmap, idx: u8, mask: u64) -> bool {
    &&& new.start == old.start
    &&& new.end == old.end
    &&& new.map == old.map & !((1u64 << (idx as u64)) & mask)
}

impl PmpBitmap {
    pub open spec fn wf(&self) -> bool {
        self.start <= self.end && self.end < 64
    }

    /// A bitmap over `[pmp_start, pmp_end]` whose slots in `mask` start out in use.
    pub fn new(pmp_start: u8, pmp_end: u8, mask: u64) -> (r: PmpBitmap)
        requires
            pmp_start <= pmp_end < 64,
        ensures
            r.wf(),
            r == (PmpBitmap { map: mask, start: pmp_start, end: pmp_end }),
    {
        PmpBitmap { map: mask, start: pmp_start, end: pmp_end }
    }

    /// Takes the lowest free slot of `[start, end)`.
    pub fn allocate(&mut self) -> (r: Option<u8>)
        requires
            old(self).wf(),
        ensures
            final(self).wf(),
            alloc_post(*old(self), *final(self), r),
    {
        let mut i: u8 = self.start;
        while i < self.end
            invariant
                self.wf(),
                *self == *old(self),
                self.start <= i <= self.end,
                forall|j: u64| self.start <= j < i ==> bit_set(self.map, j),
            decreases self.end - i,
        {
            if (self.map >> (i as u64)) & 1 == 0 {
                self.map = self.map | (1u64 << (i as u64));
                return Some(i);
            }
            let m = self.map;
            assert((m >> (i as u64)) & 1u64 != 0 ==> (m >> (i as u64)) & 1u64 == 1u64) by (bit_vector);
            i = i + 1;
        }
        None
    }

    /// Releases slot `idx`, clearing its bit only where `mask` holds it.
    pub fn free(&mut self, idx: u8, mask: u64)
        requires
            old(self).wf(),
            old(self).start <= idx <= old(self).end,
        ensures
            final(self).wf(),
            free_post(*old(self), *final(self), idx, mask),
    {
        self.map = self.map & !((1u64 << (idx as u64)) & mask);
    }
}

proof fn lemma_bits(map: u64, i: u64, j: u64, mask: u64)
    by (bit_vector)
    requires
        i < 64,
        j < 64,
    ensures
        ((map | (1u64 << i)) >> i) & 1u64 == 1u64,
        (map >> i) & 1u64 == 1u64 ==> ((map | (1u64 << j)) >> i) & 1u64 == 1u64,
        (map >> i) & 1u64 == 1u64 && (i != j || (mask >> i) & 1u64 != 1u64) ==> ((map & !((1u64
            << j) & mask)) >> i) & 1u64 == 1u64,
{
}

/// A slot handed out by `allocate` stays in use: no later `allocate` returns it, and
/// only a `free` of that slot with a mask that holds it clears it.
pub proof fn lemma_slot_held_until_freed(
    b0: PmpBitmap,
    b1: PmpBitmap,
    i: u8,
    b2: PmpBitmap,
    r: Option<u8>,
    b3: PmpBitmap,
    idx: u8,
    mask: u64,
)
    requires
        b0.wf(),
        alloc_post(b0, b1, Some(i)),
        alloc_post(b1, b2, r),
        free_post(b1, b3, idx, mask),
        idx < 64,
    ensures
        bit_set(b1.map, i as u64),
        r != Some(i),
        bit_set(b2.map, i as u64),
        !(idx == i && bit_set(mask, i as u64)) ==> bit_set(b3.map, i as u64),
{
    lemma_bits(b0.map, i as u64, i as u64, mask);
    match r {
        Some(k) => {
            lemma_bits(b1.map, i as u64, k as u64, mask);
        },
        None => {},
    }
    lemma_bits(b1.map, i as u64, idx as u64, mask);
}

} // verus!
