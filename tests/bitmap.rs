use penglai_pmp::bitmap::PmpBitmap;

#[test]
fn allocate_skips_reserved_slots() {
    let mut b = PmpBitmap::new(0, 15, 0x8003);
    assert_eq!(b.allocate(), Some(2));
    assert_eq!(b.allocate(), Some(3));
    assert_eq!(b.map, 0x800F);
}

#[test]
fn allocate_until_full() {
    let mut b = PmpBitmap::new(0, 15, 0x8003);
    for expected in 2u8..15 {
        assert_eq!(b.allocate(), Some(expected));
    }
    assert_eq!(b.allocate(), None);
    assert_eq!(b.map, 0xFFFF);
}

#[test]
fn slot_not_reissued_until_freed() {
    let mut b = PmpBitmap::new(0, 15, 0x8003);
    let i = b.allocate().unwrap();
    let j = b.allocate().unwrap();
    assert_ne!(i, j);
    b.free(i, 0);
    assert_ne!(b.allocate(), Some(i));
    b.free(i, !0x8003u64);
    assert_eq!(b.allocate(), Some(i));
}

#[test]
fn free_respects_mask() {
    let mut b = PmpBitmap::new(0, 15, 0x8003);
    b.free(1, !0x8003u64);
    assert_eq!(b.map, 0x8003);
    b.free(1, u64::MAX);
    assert_eq!(b.map, 0x8001);
}
