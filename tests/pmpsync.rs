use penglai_pmp::pmp_addr::{PmpPerm, PmpRange};
use penglai_pmp::pmpsync::{
    ipi_handler, tee_get_pmp, tee_pmp_clean_sync, tee_pmp_sync, PmpCluster, PmpConfig, PmpSyncCell,
    PMP_MAILBOX_SIZE,
};
use penglai_pmp::sbi::SbiRet;

#[test]
fn sync_reaches_every_hart_after_handlers() {
    let mut c = PmpCluster::new(3);
    let r = tee_pmp_sync(&mut c, 0, 4, 0x8000_0000, 0x0001_0000, PmpRange::NAPOT, PmpPerm::RW);
    assert_eq!(r, SbiRet::success(0));
    assert_eq!(c.harts[0].sync.wait_sync_count, 2);
    assert!(!c.harts[0].sync.is_sync());
    assert_eq!(c.harts[1].sync.mailbox.len(), 1);
    ipi_handler(&mut c, 1);
    ipi_handler(&mut c, 2);
    let expected = ((0x8000_0000u64, 0x0001_0000u64), PmpRange::NAPOT, PmpPerm::RW);
    for h in 0..3 {
        assert_eq!(tee_get_pmp(&c, h, 4), expected);
    }
    assert!(c.harts[0].sync.is_sync());
    assert!(c.harts[1].sync.is_empty());
}

#[test]
fn sync_local_entry_before_handlers() {
    let mut c = PmpCluster::new(2);
    tee_pmp_sync(&mut c, 1, 3, 0x1000, 0x1000, PmpRange::NAPOT, PmpPerm::R);
    assert_eq!(tee_get_pmp(&c, 1, 3), ((0x1000, 0x1000), PmpRange::NAPOT, PmpPerm::R));
    assert_eq!(tee_get_pmp(&c, 0, 3), ((0, 0), PmpRange::OFF, PmpPerm::NONE));
}

#[test]
fn sync_rejects_bad_napot_region() {
    let mut c = PmpCluster::new(2);
    let r = tee_pmp_sync(&mut c, 0, 3, 0x1000, 0x3000, PmpRange::NAPOT, PmpPerm::R);
    assert_eq!(r, SbiRet::failed());
    assert!(c.harts[1].sync.is_empty());
    assert!(c.harts[0].sync.is_sync());
}

#[test]
fn sync_fails_on_full_mailbox() {
    let mut c = PmpCluster::new(2);
    for _ in 0..PMP_MAILBOX_SIZE {
        assert_eq!(tee_pmp_sync(&mut c, 0, 2, 0x2000, 0x1000, PmpRange::NAPOT, PmpPerm::R), SbiRet::success(0));
    }
    let r = tee_pmp_sync(&mut c, 0, 2, 0x4000, 0x1000, PmpRange::NAPOT, PmpPerm::R);
    assert_eq!(r, SbiRet::failed());
    assert_eq!(c.harts[0].sync.wait_sync_count as usize, PMP_MAILBOX_SIZE);
    ipi_handler(&mut c, 1);
    assert!(c.harts[0].sync.is_sync());
}

#[test]
fn clean_sync_turns_entry_off() {
    let mut c = PmpCluster::new(2);
    tee_pmp_sync(&mut c, 0, 1, 0x1000, 0x1000, PmpRange::NAPOT, PmpPerm::RWX);
    assert_eq!(tee_pmp_clean_sync(&mut c, 0, 1), SbiRet::success(0));
    ipi_handler(&mut c, 1);
    assert_eq!(tee_get_pmp(&c, 1, 1), ((0, 0), PmpRange::OFF, PmpPerm::NONE));
    assert_eq!(tee_get_pmp(&c, 0, 1), ((0, 0), PmpRange::OFF, PmpPerm::NONE));
}

#[test]
fn handler_applies_changes_in_order() {
    let mut c = PmpCluster::new(2);
    tee_pmp_sync(&mut c, 0, 5, 0x1000, 0x1000, PmpRange::NAPOT, PmpPerm::R);
    tee_pmp_sync(&mut c, 0, 5, 0x4000, 0x4000, PmpRange::NAPOT, PmpPerm::W);
    ipi_handler(&mut c, 1);
    assert_eq!(tee_get_pmp(&c, 1, 5), ((0x4000, 0x4000), PmpRange::NAPOT, PmpPerm::W));
}

#[test]
fn cell_mailbox_is_fifo() {
    let mut cell = PmpSyncCell::new();
    let a = PmpConfig { pmp_addr: 1, pmp_mode: PmpRange::TOR, pmp_perm: PmpPerm::R, pmp_idx: 2 };
    let b = PmpConfig { pmp_addr: 2, pmp_mode: PmpRange::TOR, pmp_perm: PmpPerm::W, pmp_idx: 3 };
    assert!(cell.set(a, 7));
    assert!(cell.set(b, 8));
    assert_eq!(cell.get(), Some((a, 7)));
    assert_eq!(cell.get(), Some((b, 8)));
    assert_eq!(cell.get(), None);
    cell.add();
    assert!(!cell.is_sync());
    cell.sub();
    cell.sub();
    assert!(cell.is_sync());
}

#[test]
fn dump_reports_every_entry() {
    let mut c = PmpCluster::new(1);
    tee_pmp_sync(&mut c, 0, 7, 0x2000, 0x2000, PmpRange::NAPOT, PmpPerm::RX);
    let d = penglai_pmp::pmpsync::dump_pmps(&c, 0);
    assert_eq!(d.len(), 16);
    assert_eq!(d[7], ((0x2000, 0x2000), PmpRange::NAPOT, PmpPerm::RX));
    assert_eq!(d[0], ((0, 0), PmpRange::OFF, PmpPerm::NONE));
}

#[test]
fn pending_harts_lists_waiting_mailboxes() {
    let mut c = PmpCluster::new(3);
    assert!(penglai_pmp::pmpsync::pending_harts(&c).is_empty());
    tee_pmp_sync(&mut c, 1, 2, 0x1000, 0x1000, PmpRange::NAPOT, PmpPerm::R);
    assert_eq!(penglai_pmp::pmpsync::pending_harts(&c), vec![0, 2]);
    ipi_handler(&mut c, 0);
    assert_eq!(penglai_pmp::pmpsync::pending_harts(&c), vec![2]);
}

#[test]
fn pmpcfg_positions() {
    assert_eq!(penglai_pmp::pmpsync::pmpcfg_position(0), (false, 0));
    assert_eq!(penglai_pmp::pmpsync::pmpcfg_position(7), (false, 7));
    assert_eq!(penglai_pmp::pmpsync::pmpcfg_position(8), (true, 0));
    assert_eq!(penglai_pmp::pmpsync::pmpcfg_position(15), (true, 7));
}
