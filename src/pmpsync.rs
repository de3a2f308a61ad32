//! Cluster-wide PMP synchronisation: every hart keeps a PMP register file and a
//! mailbox of PMP changes published by other harts, and a count of its own
//! published changes that other harts have not applied yet.
use vstd::prelude::*;
use crate::pmp_addr::{
    PmpRange,
    PmpPerm,
    PMP_COUNT,
    napot_valid,
    pmp_addr_of,
    region_of_pmp_addr,
    encode_pmp_addr,
    decode_pmp_addr,
    is_napot_valid,
};
use crate::sbi::SbiRet;

verus! {

/// Number of PMP changes a hart's mailbox holds.
pub const PMP_MAILBOX_SIZE: usize = 16;

/// A PMP change as it travels between harts.
#[derive(Clone, Copy, Debug, PartialEq, Eq, Structural)]
pub struct PmpConfig {
    pub pmp_addr: u64,
    pub pmp_mode: PmpRange,
    pub pmp_perm: PmpPerm,
    pub pmp_idx: u8,
}

/// One PMP entry of a hart: its address register and its configuration.
#[derive(Clone, Copy, Debug, PartialEq, Eq, Structural)]
pub struct PmpEntry {
    pub addr: u64,
    pub range: PmpRange,
    pub perm: PmpPerm,
}

pub open spec fn entry_of(cfg: PmpConfig) -> PmpEntry {
    PmpEntry { addr: cfg.pmp_addr, range: cfg.pmp_mode, perm: cfg.pmp_perm }
}

/// What `tee_get_pmp` reports of an entry: its region, mode and permission.
pub open spec fn entry_report(e: PmpEntry) -> ((u64, u64), PmpRange, PmpPerm) {
    (region_of_pmp_addr(e.addr, e.range), e.range, e.perm)
}

/// The register file after applying the changes of a mailbox in order.
pub open spec fn drained(regs: Seq<PmpEntry>, mb: Seq<(PmpConfig, usize)>) -> Seq<PmpEntry>
    decreases mb.len(),
{
    if mb.len() == 0 {
        regs
    } else {
        let c = mb.last().0;
        drained(regs, mb.drop_last()).update(c.pmp_idx as int, entry_of(c))
    }
}

/// Number of changes in a mailbox that hart `h` published.
pub open spec fn sent_by(mb: Seq<(PmpConfig, usize)>, h: usize) -> nat
    decreases mb.len(),
{
    if mb.len() == 0 {
        0
    } else {
        sent_by(mb.drop_last(), h) + if mb.last().1 == h {
            1nat
        } else {
            0nat
        }
    }
}

/// `a - b`, or zero where `b` is larger.
pub open spec fn minus_or_zero(a: nat, b: nat) -> nat {
    if a >= b {
        (a - b) as nat
    } else {
        0
    }
}

/// Mailbox and counter of one hart.
pub struct PmpSyncCell {
    /// Changes to apply here, each with the hart that published it.
    pub mailbox: Vec<(PmpConfig, usize)>,
    /// Changes published by this hart that are not applied everywhere yet.
    pub wait_sync_count: u32,
}

pub open spec fn mailbox_wf(mb: Seq<(PmpConfig, usize)>) -> bool {
    &&& mb.len() <= PMP_MAILBOX_SIZE
    &&& forall|k: int| 0 <= k < mb.len() ==> (#[trigger] mb[k]).0.pmp_idx < PMP_COUNT
}

impl PmpSyncCell {
    pub open spec fn wf(&self) -> bool {
        mailbox_wf(self.mailbox@)
    }

    pub fn new() -> (r: PmpSyncCell)
        ensures
            r.wf(),
            r.mailbox@.len() == 0,
            r.wait_sync_count == 0,
    {
        PmpSyncCell { mailbox: Vec::new(), wait_sync_count: 0 }
    }

    /// Whether every change this hart published has been applied.
    pub fn is_sync(&self) -> (r: bool)
        ensures
            r == (self.wait_sync_count == 0),
    {
        self.wait_sync_count == 0
    }

    /// Counts one more published change.
    pub fn add(&mut self)
        requires
            old(self).wait_sync_count < u32::MAX,
        ensures
            final(self).wait_sync_count == old(self).wait_sync_count + 1,
            final(self).mailbox@ == old(self).mailbox@,
    {
        self.wait_sync_count = self.wait_sync_count + 1;
    }

    /// Counts one published change as applied.
    pub fn sub(&mut self)
        ensures
            final(self).wait_sync_count == minus_or_zero(old(self).wait_sync_count as nat, 1),
            final(self).mailbox@ == old(self).mailbox@,
    {
        if self.wait_sync_count > 0 {
            self.wait_sync_count = self.wait_sync_count - 1;
        }
    }

    pub fn is_empty(&self) -> (r: bool)
        ensures
            r == (self.mailbox@.len() == 0),
    {
        self.mailbox.len() == 0
    }

    /// Takes the oldest change out of the mailbox.
    pub fn get(&mut self) -> (r: Option<(PmpConfig, usize)>)
        requires
            old(self).wf(),
        ensures
            final(self).wf(),
            final(self).wait_sync_count == old(self).wait_sync_count,
            old(self).mailbox@.len() == 0 ==> r is None && final(self).mailbox@ == old(self).mailbox@,
            old(self).mailbox@.len() > 0 ==> r == Some(old(self).mailbox@[0])
                && final(self).mailbox@ == old(self).mailbox@.drop_first(),
    {
        if self.mailbox.len() == 0 {
            None
        } else {
            Some(self.mailbox.remove(0))
        }
    }

    /// Puts a change published by hart `sender` into the mailbox; `false` when
    /// the mailbox is full.
    pub fn set(&mut self, ctx: PmpConfig, sender: usize) -> (r: bool)
        requires
            old(self).wf(),
            ctx.pmp_idx < PMP_COUNT,
        ensures
            final(self).wf(),
            final(self).wait_sync_count == old(self).wait_sync_count,
            r == (old(self).mailbox@.len() < PMP_MAILBOX_SIZE),
            r ==> final(self).mailbox@ == old(self).mailbox@.push((ctx, sender)),
            !r ==> final(self).mailbox@ == old(self).mailbox@,
    {
        if self.mailbox.len() >= PMP_MAILBOX_SIZE {
            return false;
        }
        self.mailbox.push((ctx, sender));
        true
    }
}

/// A hart's PMP register file and its synchronisation cell.
pub struct PmpHart {
    pub regs: Vec<PmpEntry>,
    pub sync: PmpSyncCell,
}

/// What a hart holds, as values.
pub struct HartView {
    pub regs: Seq<PmpEntry>,
    pub mailbox: Seq<(PmpConfig, usize)>,
    pub count: u32,
}

pub open spec fn hart_view(h: PmpHart) -> HartView {
    HartView { regs: h.regs@, mailbox: h.sync.mailbox@, count: h.sync.wait_sync_count }
}

pub open spec fn hart_view_wf(h: HartView) -> bool {
    h.regs.len() == PMP_COUNT && mailbox_wf(h.mailbox)
}

/// All harts of the machine.
pub struct PmpCluster {
    pub harts: Vec<PmpHart>,
}

impl View for PmpCluster {
    type V = Seq<HartView>;

    open spec fn view(&self) -> Seq<HartView> {
        self.harts@.map_values(|h: PmpHart| hart_view(h))
    }
}

/// What `tee_pmp_sync` does to the cluster when it succeeds: every other hart
/// finds the change at the end of its mailbox, the publishing hart counts them
/// and has the change in its own register file.
pub open spec fn sync_post(c0: Seq<HartView>, c1: Seq<HartView>, hart: usize, cfg: PmpConfig) -> bool {
    &&& c1.len() == c0.len()
    &&& forall|h: int|
        0 <= h < c0.len() && h != hart ==> {
            &&& (#[trigger] c1[h]).mailbox == c0[h].mailbox.push((cfg, hart))
            &&& c1[h].regs == c0[h].regs
            &&& c1[h].count == c0[h].count
        }
    &&& c1[hart as int].regs == c0[hart as int].regs.update(cfg.pmp_idx as int, entry_of(cfg))
    &&& c1[hart as int].mailbox == c0[hart as int].mailbox
    &&& c1[hart as int].count == c0[hart as int].count + (c0.len() - 1)
}

impl PmpCluster {
    pub open spec fn wf(&self) -> bool {
        &&& self@.len() > 0
        &&& forall|h: int| 0 <= h < self@.len() ==> hart_view_wf(#[trigger] self@[h])
    }

    /// A cluster of `n` harts with every PMP entry off and empty mailboxes.
    pub fn new(n: usize) -> (r: PmpCluster)
        requires
            n > 0,
        ensures
            r.wf(),
            r@.len() == n,
            forall|h: int|
                0 <= h < n ==> {
                    &&& (#[trigger] r@[h]).mailbox.len() == 0
                    &&& r@[h].count == 0
                    &&& forall|i: int|
                        0 <= i < PMP_COUNT ==> r@[h].regs[i] == (PmpEntry {
                            addr: 0,
                            range: PmpRange::OFF,
                            perm: PmpPerm::NONE,
                        })
                },
    {
        let mut harts: Vec<PmpHart> = Vec::new();
        let mut k: usize = 0;
        while k < n
            invariant
                k <= n,
                harts@.len() == k,
                forall|h: int|
                    0 <= h < k ==> {
                        &&& hart_view_wf(hart_view(#[trigger] harts@[h]))
                        &&& harts@[h].sync.mailbox@.len() == 0
                        &&& harts@[h].sync.wait_sync_count == 0
                        &&& forall|i: int|
                            0 <= i < PMP_COUNT ==> harts@[h].regs@[i] == (PmpEntry {
                                addr: 0,
                                range: PmpRange::OFF,
                                perm: PmpPerm::NONE,
                            })
                    },
            decreases n - k,
        {
            let mut regs: Vec<PmpEntry> = Vec::new();
            let mut i: usize = 0;
            while i < PMP_COUNT
                invariant
                    i <= PMP_COUNT,
                    regs@.len() == i,
                    forall|j: int|
                        0 <= j < i ==> regs@[j] == (PmpEntry {
                            addr: 0,
                            range: PmpRange::OFF,
                            perm: PmpPerm::NONE,
                        }),
                decreases PMP_COUNT - i,
            {
                regs.push(PmpEntry { addr: 0, range: PmpRange::OFF, perm: PmpPerm::NONE });
                i = i + 1;
            }
            harts.push(PmpHart { regs, sync: PmpSyncCell::new() });
            k = k + 1;
        }
        PmpCluster { harts }
    }

    /// Puts a change into the mailbox of hart `h`, which has room for it.
    fn push_mail(&mut self, h: usize, cfg: PmpConfig, sender: usize)
        requires
            old(self).wf(),
            h < old(self)@.len(),
            (cfg.pmp_idx as usize) < PMP_COUNT,
            old(self)@[h as int].mailbox.len() < PMP_MAILBOX_SIZE,
        ensures
            final(self).wf(),
            final(self)@ == old(self)@.update(
                h as int,
                HartView { mailbox: old(self)@[h as int].mailbox.push((cfg, sender)), ..old(self)@[h as int] },
            ),
    {
        assert(self@[h as int] == hart_view(self.harts@[h as int]));
        let _ = self.harts[h].sync.set(cfg, sender);
        proof {
            let v = HartView { mailbox: old(self)@[h as int].mailbox.push((cfg, sender)), ..old(self)@[h as int] };
            assert(self@ =~= old(self)@.update(h as int, v));
            assert forall|g: int| 0 <= g < self@.len() implies hart_view_wf(#[trigger] self@[g]) by {
                assert(hart_view_wf(old(self)@[g]));
            }
        }
    }

    /// Writes PMP entry `idx` of hart `h`.
    fn set_hart_reg(&mut self, h: usize, idx: u8, addr: u64, range: PmpRange, perm: PmpPerm)
        requires
            old(self).wf(),
            h < old(self)@.len(),
            (idx as usize) < PMP_COUNT,
        ensures
            final(self).wf(),
            final(self)@ == old(self)@.update(
                h as int,
                HartView {
                    regs: old(self)@[h as int].regs.update(idx as int, PmpEntry { addr, range, perm }),
                    ..old(self)@[h as int]
                },
            ),
    {
        assert(self@[h as int] == hart_view(self.harts@[h as int]));
        assert(hart_view_wf(self@[h as int]));
        set_pmp_reg(&mut self.harts[h].regs, idx, addr, range, perm);
        proof {
            let v = HartView {
                regs: old(self)@[h as int].regs.update(idx as int, PmpEntry { addr, range, perm }),
                ..old(self)@[h as int]
            };
            assert(self@ =~= old(self)@.update(h as int, v));
            assert forall|g: int| 0 <= g < self@.len() implies hart_view_wf(#[trigger] self@[g]) by {
                assert(hart_view_wf(old(self)@[g]));
            }
        }
    }

    /// Sets the counter of hart `h`.
    fn set_count(&mut self, h: usize, count: u32)
        requires
            old(self).wf(),
            h < old(self)@.len(),
        ensures
            final(self).wf(),
            final(self)@ == old(self)@.update(h as int, HartView { count, ..old(self)@[h as int] }),
    {
        assert(self@[h as int] == hart_view(self.harts@[h as int]));
        self.harts[h].sync.wait_sync_count = count;
        proof {
            assert(self@ =~= old(self)@.update(h as int, HartView { count, ..old(self)@[h as int] }));
            assert forall|g: int| 0 <= g < self@.len() implies hart_view_wf(#[trigger] self@[g]) by {
                assert(hart_view_wf(old(self)@[g]));
            }
        }
    }

    /// Takes the whole mailbox of hart `h`, leaving it empty.
    fn take_mailbox(&mut self, h: usize) -> (r: Vec<(PmpConfig, usize)>)
        requires
            old(self).wf(),
            h < old(self)@.len(),
        ensures
            final(self).wf(),
            r@ == old(self)@[h as int].mailbox,
            final(self)@ == old(self)@.update(h as int, HartView { mailbox: Seq::empty(), ..old(self)@[h as int] }),
    {
        assert(self@[h as int] == hart_view(self.harts@[h as int]));
        let mut mb: Vec<(PmpConfig, usize)> = Vec::new();
        core::mem::swap(&mut mb, &mut self.harts[h].sync.mailbox);
        proof {
            let v = HartView { mailbox: Seq::empty(), ..old(self)@[h as int] };
            assert(self@[h as int].mailbox =~= Seq::<(PmpConfig, usize)>::empty());
            assert(self@ =~= old(self)@.update(h as int, v));
            assert forall|g: int| 0 <= g < self@.len() implies hart_view_wf(#[trigger] self@[g]) by {
                assert(hart_view_wf(old(self)@[g]));
            }
        }
        mb
    }

    /// Mailbox length and counter of hart `h`.
    fn hart_state(&self, h: usize) -> (r: (usize, u32))
        requires
            h < self@.len(),
        ensures
            r.0 == self@[h as int].mailbox.len(),
            r.1 == self@[h as int].count,
    {
        assert(self@[h as int] == hart_view(self.harts@[h as int]));
        (self.harts[h].sync.mailbox.len(), self.harts[h].sync.wait_sync_count)
    }
}

/// Whether every hart but `hart` has room in its mailbox.
pub open spec fn room_elsewhere(c: Seq<HartView>, hart: usize) -> bool {
    forall|h: int| 0 <= h < c.len() && h != hart ==> (#[trigger] c[h]).mailbox.len() < PMP_MAILBOX_SIZE
}

/// Whether `tee_pmp_sync` can publish: the region can be encoded, every other
/// mailbox has room and the publishing hart's counter does not overflow.
pub open spec fn sync_possible(c: Seq<HartView>, hart: usize, addr: u64, len: u64, mode: PmpRange) -> bool {
    &&& mode == PmpRange::NAPOT ==> napot_valid(addr, len)
    &&& room_elsewhere(c, hart)
    &&& c[hart as int].count + (c.len() - 1) <= u32::MAX
}

pub open spec fn config_of(idx: u8, addr: u64, len: u64, mode: PmpRange, perm: PmpPerm) -> PmpConfig {
    PmpConfig { pmp_addr: pmp_addr_of(addr, len, mode), pmp_mode: mode, pmp_perm: perm, pmp_idx: idx }
}

/// What `tee_pmp_sync` returns and does: it publishes the change when it can,
/// and otherwise fails with nothing changed.
pub open spec fn sync_result(
    c0: Seq<HartView>,
    c1: Seq<HartView>,
    hart: usize,
    idx: u8,
    addr: u64,
    len: u64,
    mode: PmpRange,
    perm: PmpPerm,
    r: SbiRet,
) -> bool {
    &&& sync_possible(c0, hart, addr, len, mode) ==> r == SbiRet::success_spec(0) && sync_post(
        c0,
        c1,
        hart,
        config_of(idx, addr, len, mode, perm),
    )
    &&& !sync_possible(c0, hart, addr, len, mode) ==> r == SbiRet::failed_spec() && c1 == c0
}

/// Where the configuration of PMP entry `idx` sits: in `pmpcfg2` (`true`) or
/// `pmpcfg0` (`false`), and at which entry of that register.
pub fn pmpcfg_position(idx: usize) -> (r: (bool, usize))
    requires
        idx < PMP_COUNT,
    ensures
        r == (idx >= 8, idx % 8),
{
    if idx < 8 {
        (false, idx)
    } else {
        (true, idx - 8)
    }
}

/// Writes PMP entry `idx` of a register file.
pub fn set_pmp_reg(regs: &mut Vec<PmpEntry>, idx: u8, addr: u64, range: PmpRange, perm: PmpPerm)
    requires
        (idx as usize) < old(regs)@.len(),
    ensures
        final(regs)@ == old(regs)@.update(idx as int, PmpEntry { addr, range, perm }),
{
    regs.set(idx as usize, PmpEntry { addr, range, perm });
}

/// Reads PMP entry `idx` of a register file.
pub fn get_pmp_reg(regs: &Vec<PmpEntry>, idx: u8) -> (r: PmpEntry)
    requires
        (idx as usize) < regs@.len(),
    ensures
        r == regs@[idx as int],
{
    regs[idx as usize]
}

/// Sets PMP entry `idx` on every hart: the change goes into the mailbox of
/// every other hart and into the register file of `hart`, which publishes it.
/// The caller then sends an IPI to the other harts. On failure nothing changes.
pub fn tee_pmp_sync(
    cluster: &mut PmpCluster,
    hart: usize,
    idx: u8,
    addr: u64,
    len: u64,
    mode: PmpRange,
    perm: PmpPerm,
) -> (r: SbiRet)
    requires
        old(cluster).wf(),
        hart < old(cluster)@.len(),
        (idx as usize) < PMP_COUNT,
    ensures
        final(cluster).wf(),
        sync_possible(old(cluster)@, hart, addr, len, mode) ==> r == SbiRet::success_spec(0)
            && sync_post(old(cluster)@, final(cluster)@, hart, config_of(idx, addr, len, mode, perm)),
        !sync_possible(old(cluster)@, hart, addr, len, mode) ==> r == SbiRet::failed_spec()
            && final(cluster)@ == old(cluster)@,
{
    if mode == PmpRange::NAPOT && !is_napot_valid(addr, len) {
        return SbiRet::failed();
    }
    let n = cluster.harts.len();
    let mut h: usize = 0;
    while h < n
        invariant
            cluster.wf(),
            *cluster == *old(cluster),
            n == cluster@.len(),
            h <= n,
            forall|g: int| 0 <= g < h && g != hart ==> (#[trigger] cluster@[g]).mailbox.len() < PMP_MAILBOX_SIZE,
        decreases n - h,
    {
        let (room, _) = cluster.hart_state(h);
        if h != hart && room >= PMP_MAILBOX_SIZE {
            return SbiRet::failed();
        }
        h = h + 1;
    }
    let (_, count) = cluster.hart_state(hart);
    if (n - 1) as u64 > (u32::MAX - count) as u64 {
        return SbiRet::failed();
    }
    let pmp_addr = encode_pmp_addr(addr, len, mode);
    let cfg = PmpConfig { pmp_addr, pmp_mode: mode, pmp_perm: perm, pmp_idx: idx };
    let ghost c0 = cluster@;
    let mut h: usize = 0;
    while h < n
        invariant
            cluster.wf(),
            n == cluster@.len(),
            n == c0.len(),
            hart < n,
            h <= n,
            (idx as usize) < PMP_COUNT,
            cfg == config_of(idx, addr, len, mode, perm),
            room_elsewhere(c0, hart),
            forall|g: int|
                0 <= g < h && g != hart ==> {
                    &&& (#[trigger] cluster@[g]).mailbox == c0[g].mailbox.push((cfg, hart))
                    &&& cluster@[g].regs == c0[g].regs
                    &&& cluster@[g].count == c0[g].count
                },
            forall|g: int| 0 <= g < n && (h <= g || g == hart) ==> #[trigger] cluster@[g] == c0[g],
        decreases n - h,
    {
        if h != hart {
            cluster.push_mail(h, cfg, hart);
        }
        h = h + 1;
    }
    cluster.set_count(hart, count + (n - 1) as u32);
    cluster.set_hart_reg(hart, idx, pmp_addr, mode, perm);
    SbiRet::success(0)
}

/// Clears PMP entry `idx` on every hart.
pub fn tee_pmp_clean_sync(cluster: &mut PmpCluster, hart: usize, idx: u8) -> (r: SbiRet)
    requires
        old(cluster).wf(),
        hart < old(cluster)@.len(),
        (idx as usize) < PMP_COUNT,
    ensures
        final(cluster).wf(),
        sync_possible(old(cluster)@, hart, 0, 0, PmpRange::OFF) ==> r == SbiRet::success_spec(0)
            && sync_post(old(cluster)@, final(cluster)@, hart, config_of(idx, 0, 0, PmpRange::OFF, PmpPerm::NONE)),
        !sync_possible(old(cluster)@, hart, 0, 0, PmpRange::OFF) ==> r == SbiRet::failed_spec()
            && final(cluster)@ == old(cluster)@,
{
    tee_pmp_sync(cluster, hart, idx, 0, 0, PmpRange::OFF, PmpPerm::NONE)
}

/// Region, mode and permission of PMP entry `idx` of `hart`.
pub fn tee_get_pmp(cluster: &PmpCluster, hart: usize, idx: u8) -> (r: ((u64, u64), PmpRange, PmpPerm))
    requires
        cluster.wf(),
        hart < cluster@.len(),
        (idx as usize) < PMP_COUNT,
    ensures
        r == entry_report(cluster@[hart as int].regs[idx as int]),
{
    assert(cluster@[hart as int] == hart_view(cluster.harts@[hart as int]));
    let e = get_pmp_reg(&cluster.harts[hart].regs, idx);
    (decode_pmp_addr(e.addr, e.range), e.range, e.perm)
}

/// The harts, in order, with changes waiting in their mailbox: those that
/// need an IPI.
pub fn pending_harts(cluster: &PmpCluster) -> (r: Vec<usize>)
    ensures
        forall|k: int| 0 <= k < r@.len() ==> (#[trigger] r@[k]) < cluster@.len() && cluster@[r@[k] as int].mailbox.len() > 0,
        forall|k: int, l: int| 0 <= k < l < r@.len() ==> r@[k] < r@[l],
        forall|h: int| 0 <= h < cluster@.len() && (#[trigger] cluster@[h]).mailbox.len() > 0 ==> r@.contains(h as usize),
{
    let mut out: Vec<usize> = Vec::new();
    let mut h: usize = 0;
    while h < cluster.harts.len()
        invariant
            h <= cluster@.len(),
            forall|k: int| 0 <= k < out@.len() ==> (#[trigger] out@[k]) < h && cluster@[out@[k] as int].mailbox.len() > 0,
            forall|k: int, l: int| 0 <= k < l < out@.len() ==> out@[k] < out@[l],
            forall|g: int| 0 <= g < h && (#[trigger] cluster@[g]).mailbox.len() > 0 ==> out@.contains(g as usize),
        decreases cluster@.len() - h,
    {
        assert(cluster@[h as int] == hart_view(cluster.harts@[h as int]));
        if cluster.harts[h].sync.mailbox.len() > 0 {
            let ghost before = out@;
            out.push(h);
            proof {
                assert forall|g: int| 0 <= g <= h && (#[trigger] cluster@[g]).mailbox.len() > 0 implies out@.contains(g as usize) by {
                    if g < h {
                        let k = choose|k: int| 0 <= k < before.len() && before[k] == g as usize;
                        assert(out@[k] == g as usize);
                    } else {
                        assert(out@[out@.len() - 1] == h);
                    }
                }
            }
        }
        h = h + 1;
    }
    out
}

/// Reports region, mode and permission of every PMP entry of `hart`.
pub fn dump_pmps(cluster: &PmpCluster, hart: usize) -> (r: Vec<((u64, u64), PmpRange, PmpPerm)>)
    requires
        cluster.wf(),
        hart < cluster@.len(),
    ensures
        r@.len() == PMP_COUNT,
        forall|i: int| 0 <= i < PMP_COUNT ==> #[trigger] r@[i] == entry_report(cluster@[hart as int].regs[i]),
{
    let mut out: Vec<((u64, u64), PmpRange, PmpPerm)> = Vec::new();
    let mut i: usize = 0;
    while i < PMP_COUNT
        invariant
            cluster.wf(),
            hart < cluster@.len(),
            i <= PMP_COUNT,
            out@.len() == i,
            forall|j: int| 0 <= j < i ==> #[trigger] out@[j] == entry_report(cluster@[hart as int].regs[j]),
        decreases PMP_COUNT - i,
    {
        out.push(tee_get_pmp(cluster, hart, i as u8));
        i = i + 1;
    }
    out
}

/// Applies, in order, every change waiting in the mailbox of `hart` to its
/// register file, and counts each one as applied at the hart that published it.
pub fn ipi_handler(cluster: &mut PmpCluster, hart: usize)
    requires
        old(cluster).wf(),
        hart < old(cluster)@.len(),
    ensures
        final(cluster).wf(),
        final(cluster)@.len() == old(cluster)@.len(),
        final(cluster)@[hart as int].regs == drained(old(cluster)@[hart as int].regs, old(cluster)@[hart as int].mailbox),
        final(cluster)@[hart as int].mailbox.len() == 0,
        forall|g: int|
            0 <= g < old(cluster)@.len() && g != hart ==> (#[trigger] final(cluster)@[g]).regs == old(cluster)@[g].regs
                && final(cluster)@[g].mailbox == old(cluster)@[g].mailbox,
        forall|g: int|
            0 <= g < old(cluster)@.len() ==> (#[trigger] final(cluster)@[g]).count == minus_or_zero(
                old(cluster)@[g].count as nat,
                sent_by(old(cluster)@[hart as int].mailbox, g as usize),
            ),
{
    let ghost c0 = cluster@;
    let n = cluster.harts.len();
    let mb = cluster.take_mailbox(hart);
    let mut k: usize = 0;
    while k < mb.len()
        invariant
            cluster.wf(),
            n == cluster@.len(),
            n == c0.len(),
            hart < n,
            k <= mb@.len(),
            mb@ == c0[hart as int].mailbox,
            forall|g: int| 0 <= g < n ==> hart_view_wf(#[trigger] c0[g]),
            cluster@[hart as int].regs == drained(c0[hart as int].regs, mb@.take(k as int)),
            cluster@[hart as int].mailbox.len() == 0,
            forall|g: int|
                0 <= g < n && g != hart ==> (#[trigger] cluster@[g]).regs == c0[g].regs
                    && cluster@[g].mailbox == c0[g].mailbox,
            forall|g: int|
                0 <= g < n ==> (#[trigger] cluster@[g]).count == minus_or_zero(
                    c0[g].count as nat,
                    sent_by(mb@.take(k as int), g as usize),
                ),
        decreases mb@.len() - k,
    {
        let (cfg, sender) = mb[k];
        proof {
            assert(mb@.take(k + 1).drop_last() =~= mb@.take(k as int));
            assert(mb@.take(k + 1).last() == mb@[k as int]);
            assert(mailbox_wf(c0[hart as int].mailbox));
            assert(mb@[k as int].0.pmp_idx < PMP_COUNT);
        }
        cluster.set_hart_reg(hart, cfg.pmp_idx, cfg.pmp_addr, cfg.pmp_mode, cfg.pmp_perm);
        if sender < n {
            let (_, c) = cluster.hart_state(sender);
            if c > 0 {
                cluster.set_count(sender, c - 1);
            }
        }
        k = k + 1;
    }
    proof {
        assert(mb@.take(mb@.len() as int) =~= mb@);
    }
}

proof fn lemma_drained_len(regs: Seq<PmpEntry>, mb: Seq<(PmpConfig, usize)>)
    requires
        regs.len() == PMP_COUNT,
        mailbox_wf(mb),
    ensures
        drained(regs, mb).len() == regs.len(),
    decreases mb.len(),
{
    if mb.len() > 0 {
        assert(mb.last() == mb[mb.len() - 1]);
        lemma_drained_len(regs, mb.drop_last());
    }
}

/// After a successful `tee_pmp_sync` from `hart`, every other hart that
/// applies its mailbox ends up with the same PMP entry, and reports the same
/// region, mode and permission for it, as the publishing hart.
pub proof fn lemma_sync_agrees_after_handlers(c0: Seq<HartView>, c1: Seq<HartView>, hart: usize, cfg: PmpConfig)
    requires
        hart < c0.len(),
        (cfg.pmp_idx as usize) < PMP_COUNT,
        forall|h: int| 0 <= h < c0.len() ==> hart_view_wf(#[trigger] c0[h]),
        sync_post(c0, c1, hart, cfg),
    ensures
        c1[hart as int].regs[cfg.pmp_idx as int] == entry_of(cfg),
        forall|h: int|
            0 <= h < c1.len() && h != hart ==> drained((#[trigger] c1[h]).regs, c1[h].mailbox)[cfg.pmp_idx as int]
                == c1[hart as int].regs[cfg.pmp_idx as int]
                && entry_report(drained(c1[h].regs, c1[h].mailbox)[cfg.pmp_idx as int])
                == entry_report(c1[hart as int].regs[cfg.pmp_idx as int]),
{
    assert(hart_view_wf(c0[hart as int]));
    assert forall|h: int| 0 <= h < c1.len() && h != hart implies drained((#[trigger] c1[h]).regs, c1[h].mailbox)[cfg.pmp_idx as int]
        == c1[hart as int].regs[cfg.pmp_idx as int] by {
        assert(hart_view_wf(c0[h]));
        let mb = c1[h].mailbox;
        assert(mb.drop_last() =~= c0[h].mailbox);
        lemma_drained_len(c1[h].regs, mb.drop_last());
    }
}

} // verus!
