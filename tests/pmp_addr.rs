use penglai_pmp::pmp_addr::{decode_pmp_addr, encode_pmp_addr, is_napot_valid, PmpRange};

#[test]
fn napot_encode_literal() {
    assert_eq!(encode_pmp_addr(0x8000_0000, 0x0001_0000, PmpRange::NAPOT), 0x2000_1FFF);
}

#[test]
fn napot_decode_literal() {
    assert_eq!(decode_pmp_addr(0x2000_1FFF, PmpRange::NAPOT), (0x8000_0000, 0x0001_0000));
}

#[test]
fn napot_round_trip_values() {
    let cases: [(u64, u64); 5] = [
        (0x9000_0000, 0x0010_0000),
        (0x0, 0x8),
        (0x1000, 0x1000),
        (0x8000_0000, 0x8000),
        (0x4000_0000_0000_0000, 0x4000_0000_0000_0000),
    ];
    for (addr, len) in cases {
        assert!(is_napot_valid(addr, len));
        let enc = encode_pmp_addr(addr, len, PmpRange::NAPOT);
        assert_eq!(decode_pmp_addr(enc, PmpRange::NAPOT), (addr, len));
    }
}

#[test]
fn napot_whole_memory() {
    assert_eq!(encode_pmp_addr(0, u64::MAX, PmpRange::NAPOT), u64::MAX);
    assert_eq!(decode_pmp_addr(u64::MAX, PmpRange::NAPOT), (0, u64::MAX));
}

#[test]
fn napot_smallest_region() {
    assert_eq!(encode_pmp_addr(0x1000, 8, PmpRange::NAPOT), 0x400);
    assert_eq!(decode_pmp_addr(0x400, PmpRange::NAPOT), (0x1000, 8));
}

#[test]
fn other_modes() {
    assert_eq!(encode_pmp_addr(0x1000, 4, PmpRange::NA4), 0x400);
    assert_eq!(decode_pmp_addr(0x400, PmpRange::NA4), (0x1000, 4));
    assert_eq!(encode_pmp_addr(0x1234, 0, PmpRange::TOR), 0x1234);
    assert_eq!(decode_pmp_addr(0x1234, PmpRange::TOR), (0x1234, 0));
    assert_eq!(encode_pmp_addr(0x1234, 0x10, PmpRange::OFF), 0);
    assert_eq!(decode_pmp_addr(0x1234, PmpRange::OFF), (0, 0));
}

#[test]
fn napot_validity() {
    assert!(!is_napot_valid(0x1000, 0x3000));
    assert!(!is_napot_valid(0x1800, 0x1000));
    assert!(!is_napot_valid(0x0, 4));
    assert!(!is_napot_valid(0x0, 0));
    assert!(is_napot_valid(0x2000, 0x2000));
}
