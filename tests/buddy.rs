use penglai_pmp::buddy::{next_power_of_two, SecmemRegion};

#[test]
fn next_power_of_two_values() {
    assert_eq!(next_power_of_two(0), 1);
    assert_eq!(next_power_of_two(1), 1);
    assert_eq!(next_power_of_two(3), 4);
    assert_eq!(next_power_of_two(0x1000), 0x1000);
    assert_eq!(next_power_of_two(0x1001), 0x2000);
}

#[test]
fn region_counts_follow_allocations() {
    let mut r = SecmemRegion::new(0x9000_0000, 0);
    r.init(0x9000_0000, 0x0010_0000);
    assert_eq!(r.check_used(), 0);
    assert_eq!(r.check_aval(), 0x0010_0000);
    let p = r.allocate(0x1800, 0x1000).unwrap();
    assert_eq!(p % 0x2000, 0);
    assert!(p >= 0x9000_0000 && p + 0x2000 <= 0x9010_0000);
    assert_eq!(r.check_used(), 0x2000);
    assert_eq!(r.check_aval(), 0x0010_0000 - 0x2000);
    r.dealloc(p, 0x1800, 0x1000);
    assert_eq!(r.check_used(), 0);
}

#[test]
fn region_refuses_oversized_block() {
    let mut r = SecmemRegion::new(0x9000_0000, 0);
    r.init(0x9000_0000, 0x0010_0000);
    assert!(r.allocate(0x0010_0000, 0x1000).is_err());
    assert_eq!(r.check_used(), 0);
}

#[test]
fn region_extend_adds_memory() {
    let mut r = SecmemRegion::new(0x9000_0000, 0);
    r.init(0x9000_0000, 0x1000);
    assert!(r.allocate(0x1000, 0x1000).is_ok());
    assert!(r.allocate(0x1000, 0x1000).is_err());
    r.extend(0xA000_0000, 0x1000);
    assert_eq!(r.allocate(0x1000, 0x1000), Ok(0xA000_0000));
    assert_eq!(r.check_aval(), 0);
}

#[test]
fn region_overlap_and_containment() {
    let r = SecmemRegion::new(0x1000, 0x1000);
    assert!(r.is_mem_overlap(0x1800, 0x2800));
    assert!(!r.is_mem_overlap(0x2000, 0x3000));
    assert!(r.is_mem_contained(0x1000, 0x2000));
    assert!(!r.is_mem_contained(0x1800, 0x2800));
}
