use penglai_pmp::pmp_addr::{PmpPerm, PmpRange};
use penglai_pmp::pmpsync::tee_get_pmp;
use penglai_pmp::sbi::SbiRet;
use penglai_pmp::smm::{
    check_mem_align, check_mem_contained, check_mem_overlap, get_unused_region, grant_kernel_access,
    is_data_protected, retrive_kernel_access, secmem_alloc, secmem_extend, secmem_free, secmem_init,
    secmem_reclaim, PenglaiPmpIdx, SecMonitor, SecRegion,
};

const SBI_START: u64 = 0x8000_0000;
const SBI_END: u64 = 0x8000_8000;

fn booted() -> SecMonitor {
    let mut sm = SecMonitor::new(2);
    assert_eq!(secmem_init(&mut sm, 0, SBI_START, SBI_END, 0x9000_0000, 0x0010_0000), SbiRet::success(0));
    sm
}

#[test]
fn init_overlapping_monitor_fails() {
    let mut sm = SecMonitor::new(2);
    let r = secmem_init(&mut sm, 0, SBI_START, SBI_END, 0x8000_0000, 0x0010_0000);
    assert_eq!(r, SbiRet::invalid_param());
    assert!(!sm.regions.region[2].is_valid);
}

#[test]
fn init_above_monitor_succeeds() {
    let sm = booted();
    let r = &sm.regions.region[2];
    assert!(r.is_valid);
    assert_eq!(r.mem_region.start, 0x9000_0000);
    assert_eq!(r.mem_region.len, 0x0010_0000);
    assert_eq!(r.slot, 2);
    assert_eq!(sm.bitmap.map, 0x8007);
    assert!(sm.regions.region[0].is_valid);
    assert!(sm.regions.region[1].is_valid);
    assert!(!sm.regions.region[15].is_valid);
    assert_eq!(tee_get_pmp(&sm.pmp, 0, 0), ((SBI_START, 0x8000), PmpRange::NAPOT, PmpPerm::NONE));
    assert_eq!(tee_get_pmp(&sm.pmp, 0, 15), ((0, u64::MAX), PmpRange::NAPOT, PmpPerm::RWX));
    assert_eq!(tee_get_pmp(&sm.pmp, 0, 2), ((0x9000_0000, 0x0010_0000), PmpRange::NAPOT, PmpPerm::NONE));
}

#[test]
fn alloc_one_page() {
    let mut sm = booted();
    let (ptr, size) = secmem_alloc(&mut sm, 0x1000).unwrap();
    assert_eq!(size, 0x1000);
    assert_eq!(ptr % 0x1000, 0);
    assert!(ptr >= 0x9000_0000 && ptr < 0x9010_0000);
    assert_eq!(sm.regions.region[2].mem_region.check_used(), 0x1000);
}

#[test]
fn free_then_alloc_again() {
    let mut sm = booted();
    let (ptr, size) = secmem_alloc(&mut sm, 0x1000).unwrap();
    assert_eq!(secmem_free(&mut sm, ptr, size), SbiRet::success(0));
    assert_eq!(sm.regions.region[2].mem_region.check_used(), 0);
    let (again, _) = secmem_alloc(&mut sm, 0x1000).unwrap();
    assert!(again >= 0x9000_0000 && again < 0x9010_0000);
}

#[test]
fn free_misaligned_length() {
    let mut sm = booted();
    assert_eq!(secmem_free(&mut sm, 0x9000_0000, 0x0800), SbiRet::invalid_param());
}

#[test]
fn free_outside_any_region() {
    let mut sm = booted();
    assert_eq!(secmem_free(&mut sm, 0xA000_0000, 0x1000), SbiRet::invalid_param());
    assert_eq!(secmem_free(&mut sm, SBI_START, 0x1000), SbiRet::invalid_param());
}

#[test]
fn free_of_memory_not_handed_out() {
    let mut sm = booted();
    assert_eq!(secmem_free(&mut sm, 0x9000_0000, 0x1000), SbiRet::invalid_param());
}

#[test]
fn alloc_free_pairs_restore_usage() {
    let mut sm = booted();
    let before = sm.regions.region[2].mem_region.check_used();
    let a = secmem_alloc(&mut sm, 0x2000).unwrap();
    let b = secmem_alloc(&mut sm, 0x1000).unwrap();
    assert_eq!(secmem_free(&mut sm, a.0, a.1), SbiRet::success(0));
    assert_eq!(secmem_free(&mut sm, b.0, b.1), SbiRet::success(0));
    assert_eq!(sm.regions.region[2].mem_region.check_used(), before);
}

#[test]
fn alloc_without_regions() {
    let mut sm = SecMonitor::new(1);
    assert_eq!(secmem_alloc(&mut sm, 0x1000), None);
    let mut sm = booted();
    assert_eq!(secmem_alloc(&mut sm, u64::MAX), None);
}

#[test]
fn extend_rejects_bad_regions() {
    let mut sm = booted();
    assert_eq!(secmem_extend(&mut sm, 0, 0xA000_0800, 0x1000), SbiRet::invalid_param());
    assert_eq!(secmem_extend(&mut sm, 0, 0xA000_0000, 0x800), SbiRet::invalid_param());
    assert_eq!(secmem_extend(&mut sm, 0, 0x9008_0000, 0x0010_0000), SbiRet::invalid_param());
    assert_eq!(secmem_extend(&mut sm, 0, 0xA000_0000, 0x3000), SbiRet::failed());
    assert_eq!(sm.bitmap.map, 0x8007);
}

#[test]
fn extend_adds_second_region() {
    let mut sm = booted();
    assert_eq!(secmem_extend(&mut sm, 1, 0xA000_0000, 0x2000), SbiRet::success(0));
    assert!(sm.regions.region[3].is_valid);
    assert_eq!(sm.regions.region[3].slot, 3);
    assert_eq!(sm.regions.region[3].hperm, PmpPerm::NONE);
    assert_eq!(sm.regions.region[3].eperm, PmpPerm::RWX);
    assert_eq!(is_data_protected(&sm, 0xA000_1000, 0x10), Some(3));
}

#[test]
fn extend_runs_out_of_slots() {
    let mut sm = booted();
    for k in 0..12u64 {
        assert_eq!(secmem_extend(&mut sm, 0, 0xA000_0000 + k * 0x1000, 0x1000), SbiRet::success(0));
    }
    assert_eq!(secmem_extend(&mut sm, 0, 0xB000_0000, 0x1000), SbiRet::failed());
    assert_eq!(sm.bitmap.map, 0xFFFF);
}

#[test]
fn grant_and_retrieve_kernel_access() {
    let mut sm = booted();
    assert_eq!(grant_kernel_access(&mut sm, 0, 0x9000_0000, 0x1000), SbiRet::success(0));
    assert_eq!(sm.regions.region[1].mem_region.start, 0x9000_0000);
    assert_eq!(tee_get_pmp(&sm.pmp, 0, 1), ((0x9000_0000, 0x1000), PmpRange::NAPOT, PmpPerm::RWX));
    assert_eq!(retrive_kernel_access(&mut sm, 0, 0x9000_0000, 0x2000), SbiRet::invalid_address());
    assert_eq!(retrive_kernel_access(&mut sm, 0, 0x9000_0000, 0x1000), SbiRet::success(0));
    assert_eq!(tee_get_pmp(&sm.pmp, 0, 1), ((0, 0), PmpRange::OFF, PmpPerm::NONE));
}

#[test]
fn alignment_checks() {
    assert!(check_mem_align(0x1000, 0x1000, 0x1000));
    assert!(!check_mem_align(0x1800, 0x1000, 0x1000));
    assert!(!check_mem_align(0x1000, 0x1800, 0x1000));
    assert!(!check_mem_align(0x1000, 0x0, 0x1000));
    assert!(!check_mem_align(u64::MAX - 0xFFF, 0x2000, 0x1000));
}

#[test]
fn table_lookups() {
    let sm = booted();
    let regions = sm.regions.region();
    assert_eq!(check_mem_overlap(regions, 0x8000_4000, 0x1000), Some(0));
    assert_eq!(check_mem_overlap(regions, 0x9008_0000, 0x0010_0000), Some(2));
    assert_eq!(check_mem_overlap(regions, 0x7000_0000, 0x1000), None);
    assert_eq!(check_mem_contained(regions, 0x9000_1000, 0x1000), Some(2));
    assert_eq!(check_mem_contained(regions, 0x900F_F000, 0x2000), None);
    assert_eq!(get_unused_region(regions), Some(3));
    assert_eq!(get_unused_region(SecRegion::new().region()), Some(0));
}

#[test]
fn reserved_indices() {
    assert_eq!(PenglaiPmpIdx::PmpSM.index(), 0);
    assert_eq!(PenglaiPmpIdx::PmpTemp.index(), 1);
    assert_eq!(PenglaiPmpIdx::PmpDefault.index(), 15);
    assert_eq!(secmem_reclaim(), SbiRet::success(0));
}

#[test]
fn valid_regions_stay_disjoint_and_own_their_slots() {
    let mut sm = booted();
    assert_eq!(secmem_extend(&mut sm, 0, 0xA000_0000, 0x4000), SbiRet::success(0));
    assert_eq!(secmem_extend(&mut sm, 0, 0xA000_2000, 0x2000), SbiRet::invalid_param());
    assert_eq!(secmem_extend(&mut sm, 0, 0xA001_0000, 0x1000), SbiRet::success(0));
    let regions = sm.regions.region();
    for i in 0..16usize {
        let a = &regions[i];
        if !a.is_valid {
            continue;
        }
        assert_ne!(sm.bitmap.map & (1u64 << a.slot), 0);
        for j in 0..16usize {
            let b = &regions[j];
            if i == j || !b.is_valid || i == 1 || j == 1 || i == 15 || j == 15 {
                continue;
            }
            let disjoint = a.mem_region.start + a.mem_region.len <= b.mem_region.start
                || b.mem_region.start + b.mem_region.len <= a.mem_region.start;
            assert!(disjoint);
        }
    }
}

#[test]
fn alloc_is_first_fit_across_regions() {
    let mut sm = booted();
    assert_eq!(secmem_extend(&mut sm, 0, 0xA000_0000, 0x0008_0000), SbiRet::success(0));
    let a = secmem_alloc(&mut sm, 0x0008_0000).unwrap();
    let b = secmem_alloc(&mut sm, 0x0008_0000).unwrap();
    assert!(a.0 >= 0x9000_0000 && a.0 < 0x9010_0000);
    assert!(b.0 >= 0x9000_0000 && b.0 < 0x9010_0000);
    let c = secmem_alloc(&mut sm, 0x1000).unwrap();
    assert!(c.0 >= 0xA000_0000 && c.0 < 0xA008_0000);
    assert_eq!(sm.regions.region[3].mem_region.check_used(), 0x1000);
}

#[test]
fn free_of_misaligned_block() {
    let mut sm = booted();
    let _ = secmem_alloc(&mut sm, 0x2000).unwrap();
    assert_eq!(secmem_free(&mut sm, 0x9000_1000, 0x2000), SbiRet::invalid_param());
    assert_eq!(secmem_free(&mut sm, 0x900F_F000, 0x2000), SbiRet::invalid_param());
}

#[test]
fn init_leaves_temporary_window_unprogrammed() {
    let sm = booted();
    assert_eq!(tee_get_pmp(&sm.pmp, 0, 1), ((0, 0), PmpRange::OFF, PmpPerm::NONE));
    assert_eq!(tee_get_pmp(&sm.pmp, 1, 1), ((0, 0), PmpRange::OFF, PmpPerm::NONE));
}

#[test]
fn free_of_block_larger_than_any_allocation() {
    let mut sm = booted();
    let a = secmem_alloc(&mut sm, 0x0008_0000).unwrap();
    let b = secmem_alloc(&mut sm, 0x0008_0000).unwrap();
    assert_eq!(sm.regions.region[2].mem_region.check_used(), 0x0010_0000);
    assert_eq!(secmem_free(&mut sm, 0x9000_0000, 0x0010_0000), SbiRet::invalid_param());
    assert_eq!(secmem_free(&mut sm, a.0, a.1), SbiRet::success(0));
    assert_eq!(secmem_free(&mut sm, b.0, b.1), SbiRet::success(0));
    assert_eq!(sm.regions.region[2].mem_region.check_used(), 0);
}

#[test]
fn extend_skips_reserved_entries() {
    let mut sm = SecMonitor::new(1);
    assert_eq!(secmem_extend(&mut sm, 0, 0xA000_0000, 0x1000), SbiRet::success(0));
    assert!(!sm.regions.region[0].is_valid);
    assert!(!sm.regions.region[1].is_valid);
    assert!(sm.regions.region[2].is_valid);
}

#[test]
fn window_uses_its_own_entry_before_init() {
    let mut sm = SecMonitor::new(1);
    assert_eq!(grant_kernel_access(&mut sm, 0, 0x4000, 0x1000), SbiRet::success(0));
    assert_eq!(tee_get_pmp(&sm.pmp, 0, 1), ((0x4000, 0x1000), PmpRange::NAPOT, PmpPerm::RWX));
    assert_eq!(tee_get_pmp(&sm.pmp, 0, 0), ((0, 0), PmpRange::OFF, PmpPerm::NONE));
}
