//! Host-side entry points: enclave memory requests from the host and the
//! dispatch of host calls. The caller reads and writes host memory; the
//! library decides whether that is allowed and what is read or written.
use vstd::prelude::*;
use crate::pmpsync::{sync_possible, sync_post, config_of, entry_report};
use crate::buddy::block_size;
use crate::pmp_addr::{PmpRange, PmpPerm};
use crate::sbi::SbiRet;
use crate::smm::{
    SecMonitor,
    serves_memory,
    served,
    served_index,
    usage_only,
    secmem_alloc_post,
    contains,
    same_but_usage,
    lemma_handed_out_block_frees,
    MAX_REQUEST,
    PAGE_SIZE,
    PENGLAI_PMP_COUNT,
    SecPMPRegion,
    overlaps,
    first_such,
    is_data_protected,
    secmem_alloc,
    secmem_free,
    secmem_free_post,
    secmem_init,
    secmem_extend,
    secmem_reclaim,
    grant_kernel_access,
    retrive_kernel_access,
    PMP_SM,
    PMP_TEMP,
};

verus! {

/// Host function: allocate enclave memory.
pub const ALLOC_ENCLAVE_MM: usize = 93;

/// Host function: free enclave memory.
pub const FREE_ENCLAVE_MEM: usize = 90;

/// Host function: add a secure region.
pub const MEMORY_EXTEND: usize = 92;

/// Host function: give a secure region back to the host.
pub const MEMORY_RECLAIM: usize = 91;

/// Host function: bring up secure memory management.
pub const MM_INIT: usize = 100;

/// Size in bytes of `EnclaveMemArgs` in host memory.
pub const ENCLAVE_MEM_ARGS_SIZE: u64 = 24;

/// Arguments of an enclave memory request as they sit in host memory.
#[derive(Clone, Copy, Debug, PartialEq, Eq, Structural)]
pub struct EnclaveMemArgs {
    pub reqsize: u64,
    pub rspsize: u64,
    pub addr: u64,
}

/// Takes the enclave-creation flag from `!flag` to `flag`; fails when it
/// already holds `flag`.
pub fn set_enclave_create_flag(creating: &mut bool, flag: bool) -> (r: SbiRet)
    ensures
        *old(creating) != flag ==> *final(creating) == flag && r == SbiRet::success_spec(0),
        *old(creating) == flag ==> *final(creating) == flag && r == SbiRet::failed_spec(),
{
    if *creating != flag {
        *creating = flag;
        SbiRet::success(0)
    } else {
        SbiRet::failed()
    }
}

/// Whether `size` bytes of host memory at `hptr` may be read: the pointer is
/// not null and the bytes overlap no memory of the region table.
pub open spec fn host_readable(sm: SecMonitor, hptr: u64, size: u64) -> bool {
    &&& hptr != 0
    &&& hptr + size <= u64::MAX
    &&& first_such(sm.regions.region@, |e: SecPMPRegion| overlaps(e, hptr, size), None)
}

/// Checks that `size` bytes at host pointer `hptr` may be copied into the
/// monitor.
pub fn host2sm(sm: &SecMonitor, hptr: u64, size: u64) -> (r: bool)
    requires
        sm.wf(),
    ensures
        r == host_readable(*sm, hptr, size),
{
    if hptr == 0 || hptr > u64::MAX - size {
        return false;
    }
    is_data_protected(sm, hptr, size).is_none()
}

/// Whether `size` bytes of host memory at `hptr` may be written: the pointer
/// is not null and the bytes overlap no region of the table but the
/// monitor's own.
pub open spec fn host_writable(sm: SecMonitor, hptr: u64, size: u64) -> bool {
    &&& hptr != 0
    &&& hptr + size <= u64::MAX
    &&& forall|i: int|
        0 <= i < sm.regions.region@.len() && i != PMP_SM ==> !overlaps(#[trigger] sm.regions.region@[i], hptr, size)
}

/// Checks that `size` bytes may be copied from the monitor to host pointer
/// `hptr`.
pub fn sm2host(sm: &SecMonitor, hptr: u64, size: u64) -> (r: SbiRet)
    requires
        sm.wf(),
    ensures
        host_writable(*sm, hptr, size) ==> r == SbiRet::success_spec(0),
        !host_writable(*sm, hptr, size) ==> r == SbiRet::invalid_param_spec(),
{
    if hptr == 0 || hptr > u64::MAX - size {
        return SbiRet::invalid_param();
    }
    let mut i: usize = 0;
    while i < sm.regions.region.len()
        invariant
            sm.wf(),
            hptr + size <= u64::MAX,
            i <= sm.regions.region@.len(),
            forall|j: int| 0 <= j < i && j != PMP_SM ==> !overlaps(#[trigger] sm.regions.region@[j], hptr, size),
        decreases sm.regions.region@.len() - i,
    {
        let e = &sm.regions.region[i];
        if i != PMP_SM && e.is_valid && e.mem_region.is_mem_overlap(hptr, hptr + size) {
            return SbiRet::invalid_param();
        }
        i = i + 1;
    }
    SbiRet::success(0)
}

/// Whether `r1` serves the block for `reqsize` bytes at `addr` out of an
/// entry of `r0` that may serve enclave memory, with the count of that entry
/// grown by the block.
pub open spec fn alloc_served(r0: Seq<SecPMPRegion>, r1: Seq<SecPMPRegion>, reqsize: u64, addr: u64) -> bool {
    exists|i: int|
        0 <= i < PENGLAI_PMP_COUNT && serves_memory(r0, i) && served(#[trigger] r1[i], addr, reqsize)
            && r1[i].mem_region.used == r0[i].mem_region.used + block_size(reqsize as nat, PAGE_SIZE as nat)
}

/// Whether an entry of `r0` that may serve enclave memory holds
/// `[addr, addr + reqsize)`, with `addr` a multiple of the block size.
pub open spec fn servable_at(r0: Seq<SecPMPRegion>, reqsize: u64, addr: u64) -> bool {
    exists|i: int|
        0 <= i < PENGLAI_PMP_COUNT && serves_memory(r0, i) && contains(#[trigger] r0[i], addr, reqsize) && addr as nat
            % block_size(reqsize as nat, PAGE_SIZE as nat) == 0
}

/// Whether every entry's count of handed-out bytes is the same in `r0` and `r1`.
pub open spec fn same_usage(r0: Seq<SecPMPRegion>, r1: Seq<SecPMPRegion>) -> bool {
    forall|i: int| 0 <= i < PENGLAI_PMP_COUNT ==> (#[trigger] r1[i]).mem_region.used == r0[i].mem_region.used
}

/// What `alloc_and_grant` returns and does: it serves `reqsize` bytes, checks
/// that the arguments can go back to `hptr` and opens the temporary window on
/// the block; where either of the last two fails the block is given back.
pub open spec fn grant_post(
    s0: SecMonitor,
    s1: SecMonitor,
    hart: usize,
    hptr: u64,
    reqsize: u64,
    r: (SbiRet, u64),
) -> bool {
    let blk = block_size(reqsize as nat, PAGE_SIZE as nat);
    &&& r.0 == SbiRet::success_spec(0) || r.0 == SbiRet::invalid_param_spec() || r.0 == SbiRet::failed_spec()
    &&& r.0 == SbiRet::invalid_param_spec() ==> s1.pmp@ == s0.pmp@ && same_usage(s0.regions.region@, s1.regions.region@)
        && (reqsize > MAX_REQUEST || forall|i: int|
        0 <= i < PENGLAI_PMP_COUNT && serves_memory(s0.regions.region@, i) ==> !(#[trigger] s0.regions.region@[i]).mem_region.can_allocate(blk))
    &&& reqsize > MAX_REQUEST || (forall|i: int|
        0 <= i < PENGLAI_PMP_COUNT && serves_memory(s0.regions.region@, i) ==> !(#[trigger] s0.regions.region@[i]).mem_region.can_allocate(blk))
        ==> r.0 == SbiRet::invalid_param_spec()
    &&& reqsize <= MAX_REQUEST && (exists|i: int|
        0 <= i < PENGLAI_PMP_COUNT && serves_memory(s0.regions.region@, i) && (#[trigger] s0.regions.region@[i]).mem_region.can_allocate(blk))
        ==> r.0 != SbiRet::invalid_param_spec()
    &&& r.0 == SbiRet::failed_spec() ==> s1.pmp@ == s0.pmp@ && same_usage(s0.regions.region@, s1.regions.region@)
        && (!host_writable(s0, hptr, ENCLAVE_MEM_ARGS_SIZE) || exists|p: u64|
        #[trigger] servable_at(s0.regions.region@, reqsize, p) && !sync_possible(s0.pmp@, hart, p, reqsize, PmpRange::NAPOT))
    &&& r.0 == SbiRet::success_spec(0) ==> {
        &&& alloc_served(s0.regions.region@, s1.regions.region@, reqsize, r.1)
        &&& host_writable(s0, hptr, ENCLAVE_MEM_ARGS_SIZE)
        &&& s1.regions.region@[PMP_TEMP as int].mem_region.start == r.1
        &&& s1.regions.region@[PMP_TEMP as int].mem_region.len == reqsize
        &&& sync_post(s0.pmp@, s1.pmp@, hart, config_of(PMP_TEMP as u8, r.1, reqsize, PmpRange::NAPOT, PmpPerm::RWX))
    }
}

proof fn lemma_first_index_unique(r1: Seq<SecPMPRegion>, addr: u64, len: u64, i: usize)
    requires
        crate::smm::free_target(r1, addr, len, Some(i)),
    ensures
        forall|k: usize| #[trigger] crate::smm::free_target(r1, addr, len, Some(k)) ==> k == i,
        !crate::smm::free_target(r1, addr, len, None),
{
    assert forall|k: usize| #[trigger] crate::smm::free_target(r1, addr, len, Some(k)) implies k == i by {
        if k < i {
            assert(!(serves_memory(r1, k as int) && contains(r1[k as int], addr, len)));
        } else if i < k {
            assert(!(serves_memory(r1, i as int) && contains(r1[i as int], addr, len)));
        }
    }
}

proof fn lemma_writable_kept(s0: SecMonitor, s1: SecMonitor, hptr: u64)
    requires
        usage_only(s0.regions.region@, s1.regions.region@),
    ensures
        host_writable(s1, hptr, ENCLAVE_MEM_ARGS_SIZE) == host_writable(s0, hptr, ENCLAVE_MEM_ARGS_SIZE),
{
    assert forall|k: int| 0 <= k < s0.regions.region@.len() && k != PMP_SM implies (overlaps(
        #[trigger] s1.regions.region@[k],
        hptr,
        ENCLAVE_MEM_ARGS_SIZE,
    ) == overlaps(s0.regions.region@[k], hptr, ENCLAVE_MEM_ARGS_SIZE)) by {
        assert(same_but_usage(s0.regions.region@[k], s1.regions.region@[k]));
    }
}

proof fn lemma_served_facts(r0: Seq<SecPMPRegion>, r1: Seq<SecPMPRegion>, reqsize: u64, addr: u64)
    requires
        r0.len() == PENGLAI_PMP_COUNT,
        usage_only(r0, r1),
        secmem_alloc_post(r0, r1, reqsize, Some((addr, reqsize))),
    ensures
        ({
            let i = served_index(r0, r1, reqsize, addr);
            &&& 0 <= i < PENGLAI_PMP_COUNT
            &&& i != PMP_TEMP
            &&& served(r1[i], addr, reqsize)
            &&& r1[i].mem_region.used == r0[i].mem_region.used + block_size(reqsize as nat, PAGE_SIZE as nat)
            &&& forall|j: int|
                0 <= j < PENGLAI_PMP_COUNT && j != i ==> (#[trigger] r1[j]).mem_region.used == r0[j].mem_region.used
        }),
        alloc_served(r0, r1, reqsize, addr),
        servable_at(r0, reqsize, addr),
{
    let i = served_index(r0, r1, reqsize, addr);
    assert(crate::smm::first_fit_at(r0, r1, reqsize, addr, i));
    assert(served(r1[i], addr, reqsize));
    assert(same_but_usage(r0[i], r1[i]));
    assert(contains(r0[i], addr, reqsize));
}

/// Serves `reqsize` bytes of enclave memory and opens the temporary window
/// on them; the start of the memory comes back.
#[verifier::rlimit(100)]
#[verifier::spinoff_prover]
pub fn alloc_and_grant(sm: &mut SecMonitor, hart: usize, hptr: u64, reqsize: u64) -> (r: (SbiRet, u64))
    requires
        old(sm).wf(),
        hart < old(sm).pmp@.len(),
        reqsize > 0,
    ensures
        final(sm).wf(),
        final(sm).bitmap == old(sm).bitmap,
        grant_post(*old(sm), *final(sm), hart, hptr, reqsize, r),
{
    let ghost s0 = *sm;
    let addr = match secmem_alloc(sm, reqsize) {
        Some((rspaddr, _)) => rspaddr,
        None => {
            return (SbiRet::invalid_param(), 0);
        },
    };
    let ghost s1 = *sm;
    proof {
        lemma_served_facts(s0.regions.region@, s1.regions.region@, reqsize, addr);
        lemma_writable_kept(s0, s1, hptr);
        lemma_handed_out_block_frees(s0, s1.regions.region@, s1.regions.region@, reqsize, addr);
    }
    let ok = sm2host(sm, hptr, ENCLAVE_MEM_ARGS_SIZE) == SbiRet::success(0) && grant_kernel_access(
        sm,
        hart,
        addr,
        reqsize,
    ) == SbiRet::success(0);
    if !ok {
        let ghost s2 = *sm;
        let rel = crate::smm::release_block(sm, addr, reqsize);
        proof {
            let i = served_index(s0.regions.region@, s1.regions.region@, reqsize, addr);
            assert(s2.regions.region@ == s1.regions.region@);
            lemma_first_index_unique(s1.regions.region@, addr, reqsize, i as usize);
            assert(rel == SbiRet::success_spec(0));
            assert(sm.regions.region@[i].mem_region.used == s0.regions.region@[i].mem_region.used);
        }
        return (SbiRet::failed(), 0);
    }
    proof {
        let i = served_index(s0.regions.region@, s1.regions.region@, reqsize, addr);
        assert(i != PMP_TEMP);
        assert(sm.regions.region@[i] == s1.regions.region@[i]);
    }
    (SbiRet::success(0), addr)
}

/// What `alloc_enclave_mem` returns and does, from the monitor `s0` and the
/// flag `c0` to `s1` and `c1`.
pub open spec fn alloc_enclave_post(
    s0: SecMonitor,
    s1: SecMonitor,
    c0: bool,
    c1: bool,
    hart: usize,
    hptr: u64,
    host_args: Option<EnclaveMemArgs>,
    r: (SbiRet, EnclaveMemArgs),
) -> bool {
    let a = host_args->0;
    let bad_request = !host_readable(s0, hptr, ENCLAVE_MEM_ARGS_SIZE) || host_args is None || a.reqsize == 0;
    &&& c0 ==> r.0 == SbiRet::already_started_spec() && c1 && s1.regions.region@ == s0.regions.region@ && s1.pmp@
        == s0.pmp@
    &&& !c0 ==> !c1
    &&& !c0 && bad_request ==> r.0 == SbiRet::invalid_param_spec() && s1.regions.region@ == s0.regions.region@
        && s1.pmp@ == s0.pmp@
    &&& !c0 && !bad_request ==> grant_post(s0, s1, hart, hptr, a.reqsize, (r.0, r.1.addr)) && (r.0
        == SbiRet::success_spec(0) ==> r.1 == EnclaveMemArgs { reqsize: a.reqsize, rspsize: a.reqsize, addr: r.1.addr })
}

/// Allocates enclave memory for the host. `host_args` is what the host holds
/// at `hptr`, where it could be read. On success the second result is what
/// goes back to `hptr`, and the host may access the memory through the
/// temporary window. At most one allocation runs at a time: `creating` is
/// taken for the call and given back on every exit.
pub fn alloc_enclave_mem(
    sm: &mut SecMonitor,
    creating: &mut bool,
    hart: usize,
    hptr: u64,
    host_args: Option<EnclaveMemArgs>,
) -> (r: (SbiRet, EnclaveMemArgs))
    requires
        old(sm).wf(),
        hart < old(sm).pmp@.len(),
    ensures
        final(sm).wf(),
        final(sm).bitmap == old(sm).bitmap,
        alloc_enclave_post(*old(sm), *final(sm), *old(creating), *final(creating), hart, hptr, host_args, r),
{
    let none = EnclaveMemArgs { reqsize: 0, rspsize: 0, addr: 0 };
    if set_enclave_create_flag(creating, true) != SbiRet::success(0) {
        return (SbiRet::already_started(), none);
    }
    let args = match host_args {
        Some(a) => a,
        None => {
            *creating = false;
            return (SbiRet::invalid_param(), none);
        },
    };
    if !host2sm(sm, hptr, ENCLAVE_MEM_ARGS_SIZE) || args.reqsize == 0 {
        *creating = false;
        return (SbiRet::invalid_param(), none);
    }
    let (ret, addr) = alloc_and_grant(sm, hart, hptr, args.reqsize);
    *creating = false;
    if ret == SbiRet::success(0) {
        (ret, EnclaveMemArgs { reqsize: args.reqsize, rspsize: args.reqsize, addr })
    } else {
        (ret, EnclaveMemArgs { reqsize: 0, rspsize: 0, addr })
    }
}

/// What `free_enclave_mem` returns and does.
pub open spec fn free_enclave_post(
    s0: SecMonitor,
    s1: SecMonitor,
    hart: usize,
    hptr: u64,
    host_args: Option<EnclaveMemArgs>,
    r: SbiRet,
) -> bool {
    &&& !host_readable(s0, hptr, ENCLAVE_MEM_ARGS_SIZE) || host_args is None ==> r == SbiRet::invalid_param_spec()
        && s1.regions.region@ == s0.regions.region@ && s1.pmp@ == s0.pmp@
    &&& host_readable(s0, hptr, ENCLAVE_MEM_ARGS_SIZE) && host_args is Some ==> {
        let a = host_args->0;
        let rep = entry_report(s0.pmp@[hart as int].regs[PMP_TEMP as int]);
        let window = rep.1 == PmpRange::NAPOT && rep.0 == (a.addr, a.reqsize);
        &&& (!window || sync_possible(s0.pmp@, hart, 0, 0, PmpRange::OFF)) ==> secmem_free_post(
            s0.regions.region@,
            s1.regions.region@,
            a.addr,
            a.rspsize,
            r,
        )
        &&& (window && !sync_possible(s0.pmp@, hart, 0, 0, PmpRange::OFF)) ==> r == SbiRet::failed_spec()
            && s1.regions.region@ == s0.regions.region@ && s1.pmp@ == s0.pmp@
    }
}

/// What `handle_ecall_fast` returns and does for each host function.
pub open spec fn host_ecall_post(
    s0: SecMonitor,
    s1: SecMonitor,
    c0: bool,
    c1: bool,
    hart: usize,
    sbi_start: u64,
    sbi_end: u64,
    function: usize,
    param: [u64; 6],
    host_args: Option<EnclaveMemArgs>,
    r: (SbiRet, Option<EnclaveMemArgs>),
) -> bool {
    &&& function != ALLOC_ENCLAVE_MM ==> r.1 is None && c1 == c0
    &&& function == ALLOC_ENCLAVE_MM ==> exists|a: EnclaveMemArgs|
        #[trigger] alloc_enclave_post(s0, s1, c0, c1, hart, param[0], host_args, (r.0, a)) && (r.0
            == SbiRet::success_spec(0) ==> r.1 == Some(a)) && (r.0 != SbiRet::success_spec(0) ==> r.1 is None)
    &&& function == FREE_ENCLAVE_MEM ==> free_enclave_post(s0, s1, hart, param[0], host_args, r.0)
    &&& function == MEMORY_EXTEND ==> crate::smm::extend_result(s0, s1, hart, param[0], param[1], r.0)
    &&& function == MEMORY_RECLAIM ==> r.0 == SbiRet::success_spec(0) && s1.regions.region@ == s0.regions.region@
        && s1.pmp@ == s0.pmp@
    &&& function == MM_INIT ==> crate::smm::init_result(s0, s1, hart, sbi_start, sbi_end, param[0], param[1], r.0)
    &&& function != ALLOC_ENCLAVE_MM && function != FREE_ENCLAVE_MEM && function != MEMORY_EXTEND && function
        != MEMORY_RECLAIM && function != MM_INIT ==> r.0 == SbiRet::invalid_param_spec() && s1.regions.region@
        == s0.regions.region@ && s1.pmp@ == s0.pmp@
}

/// Frees enclave memory for the host. `host_args` is what the host holds at
/// `hptr`, where it could be read. A temporary window that still covers the
/// memory is taken back first; where no window matches, the memory is freed
/// all the same.
pub fn free_enclave_mem(sm: &mut SecMonitor, hart: usize, hptr: u64, host_args: Option<EnclaveMemArgs>) -> (r: SbiRet)
    requires
        old(sm).wf(),
        hart < old(sm).pmp@.len(),
    ensures
        final(sm).wf(),
        final(sm).bitmap == old(sm).bitmap,
        free_enclave_post(*old(sm), *final(sm), hart, hptr, host_args, r),
{
    let args = match host_args {
        Some(a) => a,
        None => {
            return SbiRet::invalid_param();
        },
    };
    if !host2sm(sm, hptr, ENCLAVE_MEM_ARGS_SIZE) {
        return SbiRet::invalid_param();
    }
    let ret = retrive_kernel_access(sm, hart, args.addr, args.reqsize);
    if ret == SbiRet::success(0) || ret == SbiRet::invalid_address() {
        return secmem_free(sm, args.addr, args.rspsize);
    }
    SbiRet::failed()
}

/// Runs host function `function` with parameters `param`. For the functions
/// that take a host pointer in `param[0]`, `host_args` is what the host holds
/// there, where it could be read. The second result, when present, is what
/// goes back to `param[0]`.
pub fn handle_ecall_fast(
    sm: &mut SecMonitor,
    creating: &mut bool,
    hart: usize,
    sbi_start: u64,
    sbi_end: u64,
    function: usize,
    param: [u64; 6],
    host_args: Option<EnclaveMemArgs>,
) -> (r: (SbiRet, Option<EnclaveMemArgs>))
    requires
        old(sm).wf(),
        hart < old(sm).pmp@.len(),
        sbi_start <= sbi_end,
    ensures
        final(sm).wf(),
        final(sm).bitmap == old(sm).bitmap || function == MEMORY_EXTEND || function == MM_INIT,
        host_ecall_post(*old(sm), *final(sm), *old(creating), *final(creating), hart, sbi_start, sbi_end, function, param, host_args, r),
{
    let ghost s0 = *sm;
    let ghost c0 = *creating;
    let ghost mut ga = EnclaveMemArgs { reqsize: 0, rspsize: 0, addr: 0 };
    let r = if function == ALLOC_ENCLAVE_MM {
        let (ret, args) = alloc_enclave_mem(sm, creating, hart, param[0], host_args);
        proof {
            ga = args;
        }
        if ret == SbiRet::success(0) {
            (ret, Some(args))
        } else {
            (ret, None)
        }
    } else if function == FREE_ENCLAVE_MEM {
        (free_enclave_mem(sm, hart, param[0], host_args), None)
    } else if function == MEMORY_EXTEND {
        (secmem_extend(sm, hart, param[0], param[1]), None)
    } else if function == MEMORY_RECLAIM {
        (secmem_reclaim(), None)
    } else if function == MM_INIT {
        (secmem_init(sm, hart, sbi_start, sbi_end, param[0], param[1]), None)
    } else {
        (SbiRet::invalid_param(), None)
    };
    assert(function == ALLOC_ENCLAVE_MM ==> alloc_enclave_post(s0, *sm, c0, *creating, hart, param[0], host_args, (r.0, ga)));
    r
}

} // verus!
