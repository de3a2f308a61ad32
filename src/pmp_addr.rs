//! Encoding of PMP address registers and the per-hart PMP register file.
use vstd::prelude::*;
use vstd::std_specs::bits::u64_trailing_ones;
use vstd::std_specs::bits::axiom_u64_trailing_ones;

verus! {

/// Number of PMP entries of a hart.
pub const PMP_COUNT: usize = 16;

/// Address-matching mode of a PMP entry (the `A` field of its configuration).
#[allow(non_camel_case_types)]
#[derive(Clone, Copy, Debug, PartialEq, Eq, Structural)]
pub enum PmpRange {
    OFF,
    TOR,
    NA4,
    NAPOT,
}

/// Access permission of a PMP entry (its `R`, `W` and `X` bits).
#[allow(non_camel_case_types)]
#[derive(Clone, Copy, Debug, PartialEq, Eq, Structural)]
pub enum PmpPerm {
    NONE,
    R,
    W,
    RW,
    X,
    RX,
    WX,
    RWX,
}

pub open spec fn is_pow2(x: u64) -> bool {
    x != 0 && x & ((x - 1) as u64) == 0
}

/// The region that covers the whole address space.
pub open spec fn is_whole_memory(addr: u64, len: u64) -> bool {
    addr == 0 && len == u64::MAX
}

/// A region that a NAPOT entry can describe: the whole address space, or a
/// power of two of at least eight bytes aligned to its own size.
pub open spec fn napot_valid(addr: u64, len: u64) -> bool {
    is_whole_memory(addr, len) || (is_pow2(len) && len >= 8 && addr & ((len - 1) as u64) == 0)
}

/// What the address register holds for a region under a given mode.
pub open spec fn pmp_addr_of(addr: u64, len: u64, mode: PmpRange) -> u64 {
    match mode {
        PmpRange::NAPOT => {
            if is_whole_memory(addr, len) {
                u64::MAX
            } else {
                (addr | (((len >> 1u64) - 1) as u64)) >> 2u64
            }
        },
        PmpRange::NA4 => addr >> 2u64,
        PmpRange::TOR => addr,
        PmpRange::OFF => 0,
    }
}

/// Number of trailing one bits of an address register.
pub open spec fn napot_order(pmp_addr: u64) -> u32 {
    u64_trailing_ones(pmp_addr)
}

/// The region that a NAPOT address register describes. An order too large for
/// a region of this address width stands for the whole address space.
pub open spec fn napot_region(pmp_addr: u64) -> (u64, u64) {
    let order = napot_order(pmp_addr);
    if order >= 61 {
        (0, u64::MAX)
    } else {
        (
            ((pmp_addr & !(((1u64 << ((order + 1) as u64)) - 1) as u64)) << 2u64) as u64,
            (1u64 << ((order + 3) as u64)) as u64,
        )
    }
}

/// The `(addr, len)` region that an address register describes under a mode.
pub open spec fn region_of_pmp_addr(pmp_addr: u64, mode: PmpRange) -> (u64, u64) {
    match mode {
        PmpRange::NAPOT => napot_region(pmp_addr),
        PmpRange::NA4 => (((pmp_addr << 2u64) as u64), 4),
        PmpRange::TOR => (pmp_addr, 0),
        PmpRange::OFF => (0, 0),
    }
}

/// Whether a NAPOT region is well formed.
pub fn is_napot_valid(addr: u64, len: u64) -> (r: bool)
    ensures
        r == napot_valid(addr, len),
{
    (addr == 0 && len == u64::MAX) || (len != 0 && len & (len - 1) == 0 && len >= 8 && addr & (
    len - 1) == 0)
}

/// Encodes a region into the PMP address-register format.
pub fn encode_pmp_addr(addr: u64, len: u64, mode: PmpRange) -> (r: u64)
    requires
        mode == PmpRange::NAPOT ==> napot_valid(addr, len),
    ensures
        r == pmp_addr_of(addr, len, mode),
{
    match mode {
        PmpRange::NAPOT => {
            if addr == 0 && len == u64::MAX {
                u64::MAX
            } else {
                assert(len >= 8 ==> len >> 1u64 >= 1) by (bit_vector);
                (addr | ((len >> 1) - 1)) >> 2
            }
        },
        PmpRange::NA4 => addr >> 2,
        PmpRange::TOR => addr,
        PmpRange::OFF => 0,
    }
}

/// Decodes an address register back into the `(addr, len)` region it covers.
pub fn decode_pmp_addr(pmp_addr: u64, mode: PmpRange) -> (r: (u64, u64))
    ensures
        r == region_of_pmp_addr(pmp_addr, mode),
{
    match mode {
        PmpRange::NAPOT => {
            let order = pmp_addr.trailing_ones();
            if order >= 61 {
                (0, u64::MAX)
            } else {
                let sh: u64 = (order + 1) as u64;
                assert(sh < 62 ==> 1u64 << sh >= 1) by (bit_vector);
                let mask: u64 = (1u64 << sh) - 1;
                ((pmp_addr & !mask) << 2, 1u64 << (order + 3))
            }
        },
        PmpRange::NA4 => (pmp_addr << 2, 4),
        PmpRange::TOR => (pmp_addr, 0),
        PmpRange::OFF => (0, 0),
    }
}

proof fn lemma_napot_bits(addr: u64, len: u64, t: u64)
    by (bit_vector)
    requires
        len != 0,
        len & ((len - 1) as u64) == 0,
        len >= 8,
        addr & ((len - 1) as u64) == 0,
        t <= 64,
        t < 64 ==> (((addr | (((len >> 1u64) - 1) as u64)) >> 2u64) >> t) & 1u64 == 0,
        (!((addr | (((len >> 1u64) - 1) as u64)) >> 2u64)) << ((64 - t) as u64) == 0,
    ensures
        t < 61,
        len == 1u64 << ((t + 3) as u64),
        (((addr | (((len >> 1u64) - 1) as u64)) >> 2u64) & !(((1u64 << ((t + 1) as u64))
            - 1) as u64)) << 2u64 == addr,
{
}

/// Decoding a well-formed NAPOT region after encoding it gives the region back.
pub proof fn lemma_napot_round_trip(addr: u64, len: u64)
    requires
        napot_valid(addr, len),
    ensures
        region_of_pmp_addr(pmp_addr_of(addr, len, PmpRange::NAPOT), PmpRange::NAPOT) == (addr, len),
{
    let e = pmp_addr_of(addr, len, PmpRange::NAPOT);
    axiom_u64_trailing_ones(e);
    if is_whole_memory(addr, len) {
        assert(e == 0xffff_ffff_ffff_ffffu64);
    } else {
        let t = napot_order(e) as u64;
        lemma_napot_bits(addr, len, t);
    }
}

} // verus!
