use penglai_pmp::host::{
    alloc_enclave_mem, free_enclave_mem, handle_ecall_fast, host2sm, set_enclave_create_flag, sm2host,
    EnclaveMemArgs, ALLOC_ENCLAVE_MM, FREE_ENCLAVE_MEM, MEMORY_EXTEND, MEMORY_RECLAIM, MM_INIT,
};
use penglai_pmp::platform::{PenglaiPlatform, EID_PENGLAI_ENCLAVE, EID_PENGLAI_HOST};
use penglai_pmp::sbi::SbiRet;
use penglai_pmp::smm::{secmem_init, SecMonitor};

const SBI_START: u64 = 0x8000_0000;
const SBI_END: u64 = 0x8000_8000;
const HPTR: u64 = 0x4000_0000;

fn booted() -> SecMonitor {
    let mut sm = SecMonitor::new(2);
    assert_eq!(secmem_init(&mut sm, 0, SBI_START, SBI_END, 0x9000_0000, 0x0010_0000), SbiRet::success(0));
    sm
}

fn request(reqsize: u64) -> Option<EnclaveMemArgs> {
    Some(EnclaveMemArgs { reqsize, rspsize: 0, addr: 0 })
}

#[test]
fn create_flag_is_exclusive() {
    let mut creating = false;
    assert_eq!(set_enclave_create_flag(&mut creating, true), SbiRet::success(0));
    assert_eq!(set_enclave_create_flag(&mut creating, true), SbiRet::failed());
    assert_eq!(set_enclave_create_flag(&mut creating, false), SbiRet::success(0));
    assert!(!creating);
}

#[test]
fn concurrent_alloc_is_already_started() {
    let mut sm = booted();
    let mut creating = false;
    assert_eq!(set_enclave_create_flag(&mut creating, true), SbiRet::success(0));
    let (r, _) = alloc_enclave_mem(&mut sm, &mut creating, 1, HPTR, request(0x1000));
    assert_eq!(r, SbiRet::already_started());
    assert!(creating);
    assert_eq!(sm.regions.region[2].mem_region.check_used(), 0);
}

#[test]
fn alloc_enclave_mem_grants_window() {
    let mut sm = booted();
    let mut creating = false;
    let (r, args) = alloc_enclave_mem(&mut sm, &mut creating, 0, HPTR, request(0x1000));
    assert_eq!(r, SbiRet::success(0));
    assert!(!creating);
    assert_eq!(args.reqsize, 0x1000);
    assert_eq!(args.rspsize, 0x1000);
    assert!(args.addr >= 0x9000_0000 && args.addr < 0x9010_0000);
    assert_eq!(sm.regions.region[1].mem_region.start, args.addr);
    assert_eq!(sm.regions.region[1].mem_region.len, 0x1000);
    let (r2, _) = alloc_enclave_mem(&mut sm, &mut creating, 0, HPTR, request(0x1000));
    assert_eq!(r2, SbiRet::success(0));
}

#[test]
fn alloc_enclave_mem_rejects_bad_requests() {
    let mut sm = booted();
    let mut creating = false;
    assert_eq!(alloc_enclave_mem(&mut sm, &mut creating, 0, HPTR, request(0)).0, SbiRet::invalid_param());
    assert_eq!(alloc_enclave_mem(&mut sm, &mut creating, 0, 0, request(0x1000)).0, SbiRet::invalid_param());
    assert_eq!(alloc_enclave_mem(&mut sm, &mut creating, 0, 0x9000_0000, request(0x1000)).0, SbiRet::invalid_param());
    assert_eq!(alloc_enclave_mem(&mut sm, &mut creating, 0, HPTR, None).0, SbiRet::invalid_param());
    assert_eq!(alloc_enclave_mem(&mut sm, &mut creating, 0, HPTR, request(0x0020_0000)).0, SbiRet::invalid_param());
    assert!(!creating);
}

#[test]
fn alloc_enclave_mem_rolls_back_when_window_fails() {
    let mut sm = booted();
    let mut creating = false;
    let (r, _) = alloc_enclave_mem(&mut sm, &mut creating, 0, HPTR, request(0x3000));
    assert_eq!(r, SbiRet::failed());
    assert!(!creating);
}

#[test]
fn free_enclave_mem_after_alloc() {
    let mut sm = booted();
    let mut creating = false;
    let (_, args) = alloc_enclave_mem(&mut sm, &mut creating, 0, HPTR, request(0x1000));
    assert_eq!(free_enclave_mem(&mut sm, 0, HPTR, Some(args)), SbiRet::success(0));
    assert_eq!(sm.regions.region[2].mem_region.check_used(), 0);
    assert_eq!(free_enclave_mem(&mut sm, 0, 0, Some(args)), SbiRet::invalid_param());
    assert_eq!(free_enclave_mem(&mut sm, 0, HPTR, None), SbiRet::invalid_param());
}

#[test]
fn host_pointer_checks() {
    let sm = booted();
    assert!(host2sm(&sm, HPTR, 24));
    assert!(!host2sm(&sm, 0, 24));
    assert!(!host2sm(&sm, 0x9000_0000, 24));
    assert!(!host2sm(&sm, SBI_START, 24));
    assert!(!host2sm(&sm, u64::MAX - 8, 24));
    assert_eq!(sm2host(&sm, HPTR, 24), SbiRet::success(0));
    assert_eq!(sm2host(&sm, SBI_START, 24), SbiRet::success(0));
    assert_eq!(sm2host(&sm, 0x9000_0000, 24), SbiRet::invalid_param());
    assert_eq!(sm2host(&sm, 0, 24), SbiRet::invalid_param());
}

#[test]
fn dispatch_by_function() {
    let mut sm = SecMonitor::new(2);
    let mut creating = false;
    let mut param = [0u64; 6];
    param[0] = 0x9000_0000;
    param[1] = 0x0010_0000;
    let (r, out) = handle_ecall_fast(&mut sm, &mut creating, 0, SBI_START, SBI_END, MM_INIT, param, None);
    assert_eq!(r, SbiRet::success(0));
    assert!(out.is_none());
    param[0] = HPTR;
    let (r, out) = handle_ecall_fast(&mut sm, &mut creating, 0, SBI_START, SBI_END, ALLOC_ENCLAVE_MM, param, request(0x1000));
    assert_eq!(r, SbiRet::success(0));
    let args = out.unwrap();
    let (r, _) = handle_ecall_fast(&mut sm, &mut creating, 0, SBI_START, SBI_END, FREE_ENCLAVE_MEM, param, Some(args));
    assert_eq!(r, SbiRet::success(0));
    param[0] = 0xA000_0000;
    param[1] = 0x1000;
    let (r, _) = handle_ecall_fast(&mut sm, &mut creating, 0, SBI_START, SBI_END, MEMORY_EXTEND, param, None);
    assert_eq!(r, SbiRet::success(0));
    let (r, _) = handle_ecall_fast(&mut sm, &mut creating, 0, SBI_START, SBI_END, MEMORY_RECLAIM, param, None);
    assert_eq!(r, SbiRet::success(0));
    let (r, _) = handle_ecall_fast(&mut sm, &mut creating, 0, SBI_START, SBI_END, 12345, param, None);
    assert_eq!(r, SbiRet::invalid_param());
}

#[test]
fn platform_routes_extensions() {
    let mut p = PenglaiPlatform::new(2, SBI_START, SBI_END);
    let param = [0u64; 6];
    assert_eq!(p.handle_ecall(0, EID_PENGLAI_ENCLAVE, 0, param, None).0, SbiRet::success(0));
    assert_eq!(p.handle_ecall(0, 0x1234, 0, param, None).0, SbiRet::invalid_param());
    assert_eq!(p.handle_ecall(0, EID_PENGLAI_HOST, 7, param, None).0, SbiRet::invalid_param());
}

#[test]
fn rollback_returns_block_of_odd_size() {
    let mut sm = booted();
    let mut creating = false;
    let (r, _) = alloc_enclave_mem(&mut sm, &mut creating, 0, HPTR, request(0x1800));
    assert_eq!(r, SbiRet::failed());
    assert_eq!(sm.regions.region[2].mem_region.check_used(), 0);
    let (r, _) = alloc_enclave_mem(&mut sm, &mut creating, 0, HPTR, request(0x3000));
    assert_eq!(r, SbiRet::failed());
    assert_eq!(sm.regions.region[2].mem_region.check_used(), 0);
}
