//! The processor's side of one block: a machine that the device and the files drive.
//!
//! A block goes through its stages in order. When the router is read, the pool makes room
//! for the routed experts. When the pages are looked up, their reads are planned. When the
//! addresses are known, the table is published and the device runs the resident experts
//! meanwhile. The misses are released when every expert that stays in the table is readable.

use crate::number::Real32;
use crate::qwen4_exp::gpu::residency;
use crate::qwen4_exp::gpu::residency::copy_pool;
use crate::qwen4_exp::gpu::residency::{Additions, Held, Landed, Pool, PoolError, ReadPlan, Refused};
use crate::qwen4_exp::gpu::streaming;
use crate::qwen4_exp::gpu::streaming::{
    cut_late, finish_miss_reads, lookahead_entry, miss_read, miss_record_bytes, plan_block, publish_active,
    publish_slots, settle_lookahead, wait_for_deadline, weight_row, BlockPlan, BlockSignals, Deadline, LaEntry,
    MissRead, MissStore,
};
use std::collections::VecDeque;
use vstd::prelude::*;

verus! {

/// What a pool holds after records came into memory.
pub open spec fn settled(pool: Held, rids: Seq<usize>) -> Held {
    match pool {
        Held::Resident { members, budget } => Held::Resident { members: residency::set::finished(members, budget, rids), budget },
        Held::Copy { slots, default_kind } => pool,
    }
}

/// Whether every record is one of the pool's file.
pub open spec fn known(pool: Pool, rids: Seq<usize>) -> bool {
    forall|i: int| 0 <= i < rids.len() ==> (#[trigger] rids[i]) < pool.records()
}

/// Whether the set changed since it was last committed.
pub open spec fn uncommitted(pool: Pool) -> bool {
    pool matches Pool::Resident(s) && s.dirty
}

/// Whether these are the records that joined a pool when `rids` came into memory, and whether
/// the device's set has to be committed for it.
pub open spec fn joins(pool: Pool, rids: Seq<usize>, joined: Additions) -> bool {
    match pool {
        Pool::Resident(s) => {
            &&& residency::set::finished(s@, s.budget as int, rids).members == s@.members + joined.added@
            &&& joined.commit == (s.dirty || joined.added@.len() > 0)
        },
        Pool::Copy(_) => joined.added@.len() == 0 && !joined.commit,
    }
}

/// What the pool granted for records, after those that were being read joined it.
#[derive(Debug)]
pub struct Admission {
    pub joined: Additions,
    pub need: Vec<usize>,
    pub evicted: Vec<usize>,
}

/// Whether these are the records of a background read that joined a pool; without such a read
/// the device's set is not touched.
pub open spec fn joins_behind(pool: Pool, pending: Seq<usize>, joined: Additions) -> bool {
    if pending.len() > 0 {
        joins(pool, pending, joined)
    } else {
        joined.added@.len() == 0 && !joined.commit
    }
}

/// The records of a background read join the pool, and then the pool makes room for others.
/// A refusal comes with what joined before it.
pub fn let_in(pool: &mut Pool, pending: &[usize], rids: &[usize], step: u64) -> (r: Result<
    Admission,
    (Additions, Refused),
>)
    requires
        old(pool).wf(),
        known(*old(pool), pending@),
        known(*old(pool), rids@),
    ensures
        final(pool).wf(),
        final(pool).records() == old(pool).records(),
        final(pool).same_pool(*old(pool)),
        ({
            let grant = settled(old(pool)@, pending@).acquire(rids@, step);
            &&& final(pool)@ == grant.pool
            &&& match r {
                Ok(a) => !grant.full && a.need@ == grant.need && a.evicted@ == grant.evicted,
                Err((_, refused)) => {
                    &&& grant.full
                    &&& refused.evicted@ == grant.evicted
                    &&& refused.error == if *old(pool) is Copy {
                        PoolError::PoolTooSmall
                    } else {
                        PoolError::BudgetTooSmall
                    }
                },
            }
        }),
        match r {
            Ok(a) => joins_behind(*old(pool), pending@, a.joined),
            Err((joined, _)) => joins_behind(*old(pool), pending@, joined),
        },
        uncommitted(*final(pool)) == ((pending@.len() == 0 && uncommitted(*old(pool))) || settled(
            old(pool)@,
            pending@,
        ).acquire(rids@, step).evicted.len() > 0),
{
    let joined: Additions = if pending.len() > 0 {
        pool.finish(pending)
    } else {
        Additions { added: Vec::new(), commit: false }
    };
    assert(pool@ == settled(old(pool)@, pending@));
    match pool.acquire(rids, step) {
        Ok(granted) => Ok(Admission { joined, need: granted.need, evicted: granted.evicted }),
        Err(refused) => Err((joined, refused)),
    }
}

/// The prediction that was made for a block, where the next one in line is for it.
pub fn take_prediction(queue: &mut VecDeque<(usize, Vec<u32>)>, slot_row: usize) -> (r: Option<Vec<u32>>)
    ensures
        if old(queue)@.len() > 0 && old(queue)@[0].0 == slot_row {
            r == Some(old(queue)@[0].1) && final(queue)@ == old(queue)@.skip(1)
        } else {
            r is None && final(queue)@ == old(queue)@
        },
{
    if queue.len() == 0 || queue[0].0 != slot_row {
        return None;
    }
    match queue.pop_front() {
        Some((_, experts)) => {
            assert(queue@ =~= old(queue)@.skip(1));
            Some(experts)
        },
        None => None,
    }
}

/// Keeps a prediction for the block behind `slot_row`, where one was made, until that block
/// is served.
pub fn remember_prediction(queue: &mut VecDeque<(usize, Vec<u32>)>, slot_row: usize, ahead: Option<Vec<u32>>)
    requires
        ahead is Some ==> slot_row < usize::MAX,
    ensures
        final(queue)@ == match ahead {
            None => old(queue)@,
            Some(e) => old(queue)@.push(((slot_row + 1) as usize, e)),
        },
{
    if let Some(experts) = ahead {
        queue.push_back((slot_row + 1, experts));
    }
}

/// Predictions, settled against a block's routed experts.
pub open spec fn settled_entries(entries: Seq<LaEntry>, union: Seq<u32>) -> Seq<LaEntry> {
    entries.map_values(|e: LaEntry| LaEntry { hit: union.contains(e.expert), ..e })
}

/// Settles the open predictions and moves them to the log.
pub fn settle_predictions(open: &mut Vec<LaEntry>, log: &mut Vec<LaEntry>, union: &[u32])
    ensures
        final(open)@.len() == 0,
        final(log)@ == old(log)@ + settled_entries(old(open)@, union@),
{
    let ghost entries = open@;
    let ghost before = log@;
    let mut i: usize = 0;
    assert(log@ =~= before + settled_entries(entries, union@).take(0));
    while i < open.len()
        invariant
            i <= open@.len(),
            open@ == entries,
            log@ == before + settled_entries(entries, union@).take(i as int),
        decreases open@.len() - i,
    {
        log.push(settle_lookahead(&open[i], union));
        assert(log@ =~= before + settled_entries(entries, union@).take(i + 1));
        i = i + 1;
    }
    assert(settled_entries(entries, union@).take(i as int) =~= settled_entries(entries, union@));
    open.clear();
}

/// The log entries of predicted experts, given their records: for each its greatest weight and
/// best rank among the predicted routes, and whether the pool holds it.
pub open spec fn prediction_entries(
    pool: Pool,
    step: u64,
    layer: usize,
    experts: Seq<u32>,
    rids: Seq<usize>,
    idx: Seq<u32>,
    weights: Seq<Real32>,
    k: usize,
) -> Seq<LaEntry> {
    Seq::new(
        experts.len(),
        |i: int|
            LaEntry {
                step,
                layer,
                expert: experts[i],
                weight: streaming::strongest(idx, weights, experts[i], idx.len() as int),
                rank: streaming::best_rank(idx, k as int, experts[i], idx.len() as int),
                resident: pool.member(rids[i] as int),
                hit: false,
            },
    )
}

pub fn predictions(
    pool: &Pool,
    step: u64,
    layer: usize,
    experts: &[u32],
    rids: &[usize],
    idx: &[u32],
    weights: &[Real32],
    k: usize,
) -> (r: Vec<LaEntry>)
    requires
        pool.wf(),
        known(*pool, rids@),
        experts@.len() == rids@.len(),
        idx@.len() == weights@.len(),
        0 < k <= u32::MAX,
    ensures
        r@ == prediction_entries(*pool, step, layer, experts@, rids@, idx@, weights@, k),
{
    let ghost wanted = prediction_entries(*pool, step, layer, experts@, rids@, idx@, weights@, k);
    let mut out: Vec<LaEntry> = Vec::new();
    let mut i: usize = 0;
    assert(out@ =~= wanted.take(0));
    while i < experts.len()
        invariant
            i <= experts@.len(),
            pool.wf(),
            known(*pool, rids@),
            experts@.len() == rids@.len(),
            idx@.len() == weights@.len(),
            0 < k <= u32::MAX,
            wanted == prediction_entries(*pool, step, layer, experts@, rids@, idx@, weights@, k),
            out@ == wanted.take(i as int),
        decreases experts@.len() - i,
    {
        let resident: bool = pool.is_member(rids[i]);
        out.push(lookahead_entry(step, layer, experts[i], idx, weights, k, resident));
        assert(out@ =~= wanted.take(i + 1));
        i = i + 1;
    }
    assert(out@ =~= wanted);
    out
}

/// Where a block stands.
#[derive(Debug, Clone, Copy, PartialEq, Eq, Structural)]
pub enum Stage {
    /// The device has not routed the rows.
    Router,
    /// The pool has made room; which pages are in memory is not known.
    Pages,
    /// The reads are planned; the records' addresses are not known.
    Addresses,
    /// The device runs the resident experts, and reads land one by one.
    Deadline,
    /// Weak stragglers were cut; the reads of the others are waited for.
    Landing,
    /// The device runs the resident experts, and a thread reads the others.
    Reading,
    /// Every expert that stays in the table is readable.
    Landed,
    /// The device runs the others.
    Released,
}

/// One block's service.
#[derive(Debug)]
pub struct Service {
    pub signals: BlockSignals,
    /// Below this weight a late expert may be cut; zero where none may.
    pub cut_weight: Real32,
    /// The developer's switch that leaves records unread.
    pub fake: bool,
    pub stage: Stage,
    pub union: Vec<u32>,
    pub rids: Vec<usize>,
    pub need: Vec<usize>,
    pub plan: BlockPlan,
    pub mode: MissRead,
    /// The experts at the front of the table that the device is to run.
    pub active: usize,
}

impl Service {
    /// The lists of a routed block belong together.
    pub open spec fn wf(self) -> bool {
        &&& self.union@.len() == self.rids@.len()
        &&& self.plan.order@.len() == self.rids@.len()
        &&& self.plan.missing@.len() == self.rids@.len()
        &&& self.plan.wmax@.len() == self.rids@.len()
        &&& self.plan.n_res <= self.active <= self.plan.order@.len()
        &&& forall|u: int| 0 <= u < self.plan.order@.len() ==> (#[trigger] self.plan.order@[u]) < self.rids@.len()
        &&& forall|u: int|
            0 <= u < self.plan.order@.len() ==> (u >= self.plan.n_res <==> self.need@.contains(
                self.rids@[#[trigger] self.plan.order@[u] as int],
            ))
    }

    /// The pool has a place for every record of the block.
    pub open spec fn held_by(self, pool: Pool) -> bool {
        &&& pool.wf()
        &&& known(pool, self.rids@)
        &&& known(pool, self.need@)
        &&& pool is Copy ==> forall|i: int| 0 <= i < self.rids@.len() ==> pool.member(#[trigger] self.rids@[i] as int)
        &&& pool is Copy ==> forall|i: int| 0 <= i < self.need@.len() ==> pool.member(#[trigger] self.need@[i] as int)
    }

    /// Everything but the stage.
    pub open spec fn same_block(self, other: Service) -> bool {
        &&& self.signals == other.signals
        &&& self.cut_weight == other.cut_weight
        &&& self.fake == other.fake
        &&& self.union == other.union
        &&& self.rids == other.rids
        &&& self.need == other.need
        &&& self.plan == other.plan
    }

    /// The deadline policy is in force.
    pub open spec fn has_deadline(self) -> bool {
        (Real32 { bits: 0 }).lt(self.cut_weight) && !self.fake
    }

    /// Every expert that stays in the table is readable, given the reads that landed.
    pub open spec fn readable(self, flags: Seq<Landed>) -> bool {
        forall|u: int|
            self.plan.n_res <= u < self.active ==> streaming::record_landed(
                self.need@,
                flags,
                self.rids@[#[trigger] self.plan.order@[u] as int],
            )
    }

    /// The records that join the pool behind the block: under the deadline policy only those
    /// whose reads landed.
    pub open spec fn done(self, flags: Seq<Landed>) -> Seq<usize> {
        if self.has_deadline() {
            streaming::landed_records(self.need@, flags)
        } else {
            self.need@
        }
    }

    /// The block took these routes: the experts `union`, their records, and those of them
    /// that are needed.
    pub open spec fn took(
        self,
        before: Service,
        union: Seq<u32>,
        rids: Seq<usize>,
        need: Seq<usize>,
        idx: Seq<u32>,
        weights: Seq<Real32>,
    ) -> bool {
        &&& self.wf()
        &&& self.stage == Stage::Pages
        &&& self.signals == before.signals
        &&& self.cut_weight == before.cut_weight
        &&& self.fake == before.fake
        &&& self.union@ == union
        &&& self.rids@ == rids
        &&& self.need@ == need
        &&& self.plan.of(union, rids, need, idx, weights)
        &&& self.active == rids.len()
    }

    pub fn new(seq: u64, cut_weight: Real32, fake: bool) -> (r: Service)
        requires
            seq + 3 <= u64::MAX,
        ensures
            r.stage == Stage::Router,
            r.signals.router_ready == seq,
            r.signals.resident_ready == seq + 1,
            r.signals.resident_done == seq + 2,
            r.signals.misses_ready == seq + 3,
            r.cut_weight == cut_weight,
            r.fake == fake,
            r.rids@.len() == 0,
            r.need@.len() == 0,
            r.active == 0,
            r.wf(),
    {
        let plan = BlockPlan { missing: Vec::new(), wmax: Vec::new(), order: Vec::new(), n_res: 0 };
        Service {
            signals: BlockSignals::new(seq),
            cut_weight,
            fake,
            stage: Stage::Router,
            union: Vec::new(),
            rids: Vec::new(),
            need: Vec::new(),
            plan,
            mode: MissRead::Nothing,
            active: 0,
        }
    }

    /// The router was read: what the layer before read for this one joins the pool, the pool
    /// makes room for the routed experts, and their order is fixed. A pool that is too small
    /// leaves the block where it was.
    pub fn routed(
        &mut self,
        pool: &mut Pool,
        pending: &[usize],
        union: Vec<u32>,
        rids: Vec<usize>,
        idx: &[u32],
        weights: &[Real32],
        step: u64,
    ) -> (r: Result<(Additions, Vec<usize>), (Additions, Refused)>)
        requires
            old(self).stage == Stage::Router,
            old(pool).wf(),
            known(*old(pool), pending@),
            known(*old(pool), rids@),
            union@.len() == rids@.len(),
            idx@.len() == weights@.len(),
        ensures
            final(pool).wf(),
            final(pool).records() == old(pool).records(),
            final(pool).same_pool(*old(pool)),
            final(pool)@ == settled(old(pool)@, pending@).acquire(rids@, step).pool,
            uncommitted(*final(pool)) == ((pending@.len() == 0 && uncommitted(*old(pool))) || settled(
                old(pool)@,
                pending@,
            ).acquire(rids@, step).evicted.len() > 0),
            match r {
                Ok((joined, evicted)) => {
                    let grant = settled(old(pool)@, pending@).acquire(rids@, step);
                    &&& !grant.full
                    &&& joins_behind(*old(pool), pending@, joined)
                    &&& evicted@ == grant.evicted
                    &&& final(self).took(*old(self), union@, rids@, grant.need, idx@, weights@)
                    &&& final(self).held_by(*final(pool))
                },
                Err((joined, refused)) => {
                    let grant = settled(old(pool)@, pending@).acquire(rids@, step);
                    &&& grant.full
                    &&& joins_behind(*old(pool), pending@, joined)
                    &&& refused.evicted@ == grant.evicted
                    &&& refused.error == if *old(pool) is Copy {
                        PoolError::PoolTooSmall
                    } else {
                        PoolError::BudgetTooSmall
                    }
                    &&& *final(self) == *old(self)
                },
            },
    {
        let ghost before = settled(pool@, pending@);
        let admitted = let_in(pool, pending, rids.as_slice(), step);
        match admitted {
            Err(e) => Err(e),
            Ok(a) => {
                let plan = plan_block(union.as_slice(), rids.as_slice(), a.need.as_slice(), idx, weights);
                proof {
                    lemma_ranking_whole(plan, union@, rids@, a.need@, idx@, weights@);
                    lemma_granted(*old(pool), *pool, pending@, rids@, step);
                }
                self.active = plan.order.len();
                self.union = union;
                self.rids = rids;
                self.need = a.need;
                self.plan = plan;
                self.mode = MissRead::Nothing;
                self.stage = Stage::Pages;
                Ok((a.joined, a.evicted))
            },
        }
    }

    /// The pages were looked up: the misses get their precision, and their reads are
    /// planned. The results are the plan, how many records need no read, and the bytes of one
    /// miss.
    pub fn planned(
        &mut self,
        pool: &mut Pool,
        cached: &[bool],
        store: Option<MissStore>,
        all_low_bits: bool,
        record_stride: usize,
    ) -> (r: (ReadPlan, usize, usize))
        requires
            old(self).stage == Stage::Pages,
            old(self).wf(),
            old(self).held_by(*old(pool)),
            *old(pool) is Resident ==> cached@.len() == old(self).need@.len(),
        ensures
            final(self).wf(),
            final(self).same_block(*old(self)),
            final(self).active == old(self).active,
            final(self).stage == Stage::Addresses,
            final(self).held_by(*final(pool)),
            final(pool).same_pool(*old(pool)),
            final(self).mode == if r.0.items@.len() == 0 || old(self).fake {
                MissRead::Nothing
            } else if old(self).has_deadline() {
                MissRead::PerRecord
            } else {
                MissRead::Batch
            },
            r.2 == match store {
                Some(s) => s.stride,
                None => record_stride,
            },
            match (*old(pool), *final(pool)) {
                (Pool::Resident(a), Pool::Resident(b)) => {
                    &&& a == b
                    &&& r.0.items@ == residency::page_reads(
                        a,
                        old(self).need@,
                        cached@,
                        old(self).need@.len(),
                    )
                    &&& r.1 == old(self).need@.len() - r.0.items@.len()
                    &&& !r.0.low_file
                    &&& r.0.stride == a.stride
                },
                (Pool::Copy(a), Pool::Copy(b)) => {
                    &&& b.same_shape(a)
                    &&& r.0.stride == a.stride
                    &&& r.0.low_file == (b.low_file && exists|i: int|
                        0 <= i < old(self).need@.len() && b.slot_kind@[b.rec_slot@[#[trigger] old(self).need@[i] as int]->0 as int]
                            != 0)
                    &&& b@ == match store {
                        Some(s) => if all_low_bits || !a.low_file {
                            a@
                        } else {
                            streaming::with_kinds(a@, old(self).need@, if s.bits == 2 { 2 } else { 1 })
                        },
                        None => a@,
                    }
                    &&& r.0.items@ == Seq::new(
                        old(self).need@.len(),
                        |i: int| residency::slot_read(b, old(self).need@[i] as int, i),
                    )
                    &&& r.1 == 0
                },
                _ => false,
            },
            forall|i: int| 0 <= i < r.0.items@.len() ==> (#[trigger] r.0.items@[i]).need_index < old(self).need@.len(),
    {
        let bytes: usize = miss_record_bytes(pool, store, all_low_bits, record_stride, self.need.as_slice());
        proof {
            lemma_kinds_keep_members(*old(pool), *pool, store, all_low_bits, self.need@, self.rids@);
            lemma_kinds_keep_members(*old(pool), *pool, store, all_low_bits, self.need@, self.need@);
        }
        let (plan, warm) = pool.plan_reads(self.need.as_slice(), cached);
        self.mode = miss_read(plan.is_empty(), self.fake, self.cut_weight);
        self.stage = Stage::Addresses;
        (plan, warm, bytes)
    }

    /// The records of the table, in its order.
    pub fn records(&self) -> (r: Vec<usize>)
        requires
            self.wf(),
        ensures
            r@ == Seq::new(self.plan.order@.len(), |u: int| self.rids@[self.plan.order@[u] as int]),
    {
        let mut out: Vec<usize> = Vec::new();
        let mut u: usize = 0;
        while u < self.plan.order.len()
            invariant
                u <= self.plan.order@.len(),
                self.wf(),
                out@ == Seq::new(u as nat, |k: int| self.rids@[self.plan.order@[k] as int]),
            decreases self.plan.order@.len() - u,
        {
            out.push(self.rids[self.plan.order[u]]);
            assert(out@ =~= Seq::new((u + 1) as nat, |k: int| self.rids@[self.plan.order@[k] as int]));
            u = u + 1;
        }
        out
    }

    /// The weight map of a block of rows that choose `k` experts each.
    pub fn weight_map(&self, idx: &[u32], weights: &[Real32], rows: usize, k: usize) -> (r: Vec<Vec<Real32>>)
        requires
            self.wf(),
            idx@.len() == weights@.len(),
            rows * k == idx@.len(),
        ensures
            r@.len() == rows,
            forall|b: int|
                0 <= b < rows ==> (#[trigger] r@[b])@ == Seq::new(
                    self.plan.order@.len(),
                    |u: int|
                        streaming::row_weight(
                            idx@.subrange(b * k, b * k + k),
                            weights@.subrange(b * k, b * k + k),
                            self.union@[self.plan.order@[u] as int],
                            0,
                        ),
                ),
    {
        let len: usize = idx.len();
        let mut out: Vec<Vec<Real32>> = Vec::new();
        let mut b: usize = 0;
        while b < rows
            invariant
                b <= rows,
                self.wf(),
                idx@.len() == weights@.len(),
                rows * k == idx@.len(),
                idx@.len() == len,
                out@.len() == b,
                forall|c: int|
                    0 <= c < b ==> (#[trigger] out@[c])@ == Seq::new(
                        self.plan.order@.len(),
                        |u: int|
                            streaming::row_weight(
                                idx@.subrange(c * k, c * k + k),
                                weights@.subrange(c * k, c * k + k),
                                self.union@[self.plan.order@[u] as int],
                                0,
                            ),
                    ),
            decreases rows - b,
        {
            assert(b * k + k <= rows * k && 0 <= b * k) by (nonlinear_arith)
                requires
                    b + 1 <= rows,
                    k >= 0,
            ;
            let from: usize = b * k;
            let row = weight_row(
                vstd::slice::slice_subrange(idx, from, from + k),
                vstd::slice::slice_subrange(weights, from, from + k),
                self.union.as_slice(),
                self.plan.order.as_slice(),
            );
            out.push(row);
            b = b + 1;
        }
        out
    }

    /// The addresses are known: the table is published, and the device may run the resident
    /// experts. The result is the value to signal.
    pub fn published(&mut self, row: &mut Vec<u64>, addresses: &[u64]) -> (r: u64)
        requires
            old(self).stage == Stage::Addresses,
            old(self).wf(),
            addresses@.len() == old(self).plan.order@.len(),
            addresses@.len() + 2 <= old(row)@.len(),
        ensures
            r == old(self).signals.resident_ready,
            final(self).wf(),
            final(self).same_block(*old(self)),
            final(self).active == old(self).active,
            final(self).mode == old(self).mode,
            final(self).stage == match old(self).mode {
                MissRead::Nothing => Stage::Landed,
                MissRead::PerRecord => Stage::Deadline,
                MissRead::Batch => Stage::Reading,
            },
            final(row)@.len() == old(row)@.len(),
            forall|u: int| #![trigger final(row)@[u]] 0 <= u < addresses@.len() ==> final(row)@[u] == addresses@[u],
            forall|u: int|
                #![trigger final(row)@[u]]
                addresses@.len() <= u < old(row)@.len() - 2 ==> final(row)@[u] == old(row)@[u],
            final(row)@[old(row)@.len() - 2] == old(self).plan.n_res,
            final(row)@[old(row)@.len() - 1] == addresses@.len(),
    {
        publish_slots(row, addresses, self.plan.n_res);
        self.stage = match self.mode {
            MissRead::Nothing => Stage::Landed,
            MissRead::PerRecord => Stage::Deadline,
            MissRead::Batch => Stage::Reading,
        };
        self.signals.resident_ready
    }

    /// One look at the reads and at the device. When the device is done with the resident
    /// experts first, the late weak ones are cut off the table.
    pub fn look(&mut self, row: &mut Vec<u64>, flags: &[Landed], resident_done: bool, elapsed_seconds: u64) -> (r: Deadline)
        requires
            old(self).stage == Stage::Deadline,
            old(self).wf(),
            old(self).active == old(self).plan.order@.len(),
            flags@.len() == old(self).need@.len(),
            old(row)@.len() > 0,
        ensures
            final(self).wf(),
            final(self).same_block(*old(self)),
            final(self).mode == old(self).mode,
            r == if streaming::all_landed(flags@) {
                Deadline::Landed
            } else if resident_done {
                Deadline::Cut
            } else if elapsed_seconds > streaming::BLOCK_SECONDS {
                Deadline::Hung
            } else {
                Deadline::Again
            },
            match r {
                Deadline::Landed => {
                    &&& final(self).stage == Stage::Landed
                    &&& final(self).active == old(self).active
                    &&& final(self).readable(flags@)
                    &&& final(row)@ == old(row)@
                },
                Deadline::Cut => {
                    &&& final(self).stage == Stage::Landing
                    &&& streaming::is_cut(
                        old(self).plan.order@,
                        old(self).plan.n_res as int,
                        old(self).need@,
                        flags@,
                        old(self).rids@,
                        old(self).plan.wmax@,
                        old(self).cut_weight,
                        final(self).active as int,
                    )
                    &&& final(row)@ == old(row)@.update(old(row)@.len() - 1, final(self).active as u64)
                },
                _ => *final(self) == *old(self) && final(row)@ == old(row)@,
            },
    {
        let decision: Deadline = wait_for_deadline(flags, resident_done, elapsed_seconds);
        match decision {
            Deadline::Landed => {
                proof {
                    assert forall|u: int| self.plan.n_res <= u < self.active implies streaming::record_landed(
                        self.need@,
                        flags@,
                        self.rids@[#[trigger] self.plan.order@[u] as int],
                    ) by {
                        streaming::lemma_first_place(self.need@, self.rids@[self.plan.order@[u] as int]);
                    }
                }
                self.stage = Stage::Landed;
            },
            Deadline::Cut => {
                let active: usize = cut_late(
                    self.plan.order.as_slice(),
                    self.plan.n_res,
                    self.need.as_slice(),
                    flags,
                    self.rids.as_slice(),
                    self.plan.wmax.as_slice(),
                    self.cut_weight,
                );
                publish_active(row, active);
                self.active = active;
                self.stage = Stage::Landing;
            },
            _ => {},
        }
        decision
    }

    /// The place among the needed records of the first expert that stays and is not readable
    /// yet; where there is none, everything has landed.
    pub fn straggler(&mut self, flags: &[Landed]) -> (r: Option<usize>)
        requires
            old(self).stage == Stage::Landing,
            old(self).wf(),
            flags@.len() == old(self).need@.len(),
        ensures
            final(self).wf(),
            final(self).same_block(*old(self)),
            final(self).mode == old(self).mode,
            final(self).active == old(self).active,
            match r {
                Some(i) => {
                    &&& *final(self) == *old(self)
                    &&& i < flags@.len()
                    &&& !flags@[i as int].landed
                    &&& exists|u: int|
                        old(self).plan.n_res <= u < old(self).active && i == streaming::first_place(
                            old(self).need@,
                            old(self).rids@[#[trigger] old(self).plan.order@[u] as int],
                            0,
                        ) && forall|v: int|
                            old(self).plan.n_res <= v < u ==> streaming::record_landed(
                                old(self).need@,
                                flags@,
                                old(self).rids@[#[trigger] old(self).plan.order@[v] as int],
                            )
                },
                None => final(self).stage == Stage::Landed && final(self).readable(flags@),
            },
    {
        let mut u: usize = self.plan.n_res;
        while u < self.active
            invariant
                self.wf(),
                *self == *old(self),
                flags@.len() == self.need@.len(),
                self.plan.n_res <= u <= self.active,
                forall|v: int|
                    self.plan.n_res <= v < u ==> streaming::record_landed(
                        self.need@,
                        flags@,
                        self.rids@[#[trigger] self.plan.order@[v] as int],
                    ),
            decreases self.active - u,
        {
            let rid: usize = self.rids[self.plan.order[u]];
            let at: usize = streaming::place_of(self.need.as_slice(), rid);
            if !flags[at].done() {
                assert(at == streaming::first_place(
                    self.need@,
                    self.rids@[self.plan.order@[u as int] as int],
                    0,
                ));
                return Some(at);
            }
            u = u + 1;
        }
        self.stage = Stage::Landed;
        None
    }

    /// The thread that reads the misses has ended.
    pub fn joined(&mut self)
        requires
            old(self).stage == Stage::Reading,
            old(self).wf(),
        ensures
            *final(self) == (Service { stage: Stage::Landed, ..*old(self) }),
    {
        self.stage = Stage::Landed;
    }

    /// The records whose reads were cut and go on until the step ends, the weakest first.
    pub open spec fn cut_from_table(self) -> Seq<usize> {
        Seq::new(
            (self.plan.order@.len() - self.active) as nat,
            |i: int| self.rids@[self.plan.order@[self.plan.order@.len() - 1 - i] as int],
        )
    }

    pub fn cut_records(&self) -> (r: Vec<usize>)
        requires
            self.wf(),
        ensures
            r@ == self.cut_from_table(),
    {
        let mut out: Vec<usize> = Vec::new();
        let n: usize = self.plan.order.len();
        let mut u: usize = n;
        while u > self.active
            invariant
                self.wf(),
                n == self.plan.order@.len(),
                self.active <= u <= n,
                out@ == Seq::new((n - u) as nat, |i: int| self.rids@[self.plan.order@[n - 1 - i] as int]),
            decreases u,
        {
            out.push(self.rids[self.plan.order[u - 1]]);
            u = u - 1;
            assert(out@ =~= Seq::new((n - u) as nat, |i: int| self.rids@[self.plan.order@[n - 1 - i] as int]));
        }
        out
    }

    /// Everything is readable: what was read joins the pool, and the device may run the rest.
    /// The results are what joined and the value to signal.
    pub fn released(&mut self, pool: &mut Pool, flags: &[Landed]) -> (r: (Additions, u64))
        requires
            old(self).stage == Stage::Landed,
            old(self).wf(),
            old(pool).wf(),
            known(*old(pool), old(self).need@),
            flags@.len() == 0 || flags@.len() == old(self).need@.len(),
        ensures
            *final(self) == (Service { stage: Stage::Released, ..*old(self) }),
            r.1 == old(self).signals.misses_ready,
            final(pool).wf(),
            final(pool).records() == old(pool).records(),
            final(pool).same_pool(*old(pool)),
            final(pool)@ == settled(old(pool)@, old(self).done(flags@)),
            joins(*old(pool), old(self).done(flags@), r.0),
            *final(pool) matches Pool::Resident(s) ==> !s.dirty,
            *old(pool) is Copy ==> *final(pool) == *old(pool),
    {
        let deadline: bool = (Real32 { bits: 0 }).below(&self.cut_weight) && !self.fake;
        let done: Vec<usize> = finish_miss_reads(self.need.as_slice(), flags, deadline);
        assert forall|i: int| 0 <= i < done@.len() implies (#[trigger] done@[i]) < pool.records() by {
            if deadline {
                streaming::lemma_landed_listed(self.need@, flags@, i);
                assert(self.need@.contains(done@[i]));
            }
        }
        let added = pool.finish(done.as_slice());
        self.stage = Stage::Released;
        (added, self.signals.misses_ready)
    }
}

proof fn lemma_ranking_whole(
    plan: BlockPlan,
    union: Seq<u32>,
    rids: Seq<usize>,
    need: Seq<usize>,
    idx: Seq<u32>,
    weights: Seq<Real32>,
)
    requires
        plan.of(union, rids, need, idx, weights),
        union.len() == rids.len(),
    ensures
        plan.order@.len() == rids.len(),
        plan.missing@.len() == rids.len(),
        plan.wmax@.len() == rids.len(),
        forall|u: int| 0 <= u < plan.order@.len() ==> (#[trigger] plan.order@[u]) < rids.len(),
        forall|u: int|
            0 <= u < plan.order@.len() ==> (u >= plan.n_res <==> need.contains(
                rids[#[trigger] plan.order@[u] as int],
            )),
{
}

proof fn lemma_kinds_keep_slots(slots: copy_pool::Slots, need: Seq<usize>, kind: u8)
    ensures
        streaming::with_kinds(slots, need, kind).rec_slot == slots.rec_slot,
    decreases need.len(),
{
    if need.len() > 0 {
        lemma_kinds_keep_slots(slots, need.drop_last(), kind);
    }
}

/// A record keeps its slot when the precision of misses is chosen.
proof fn lemma_kinds_keep_members(
    before: Pool,
    after: Pool,
    store: Option<MissStore>,
    all_low_bits: bool,
    need: Seq<usize>,
    rids: Seq<usize>,
)
    requires
        match (before, after) {
            (Pool::Resident(a), Pool::Resident(b)) => a == b,
            (Pool::Copy(a), Pool::Copy(b)) => b@ == match store {
                Some(s) => if all_low_bits || !a.low_file {
                    a@
                } else {
                    streaming::with_kinds(a@, need, if s.bits == 2 { 2 } else { 1 })
                },
                None => a@,
            },
            _ => false,
        },
        before is Copy ==> forall|i: int| 0 <= i < rids.len() ==> before.member(#[trigger] rids[i] as int),
    ensures
        after is Copy == before is Copy,
        after is Copy ==> forall|i: int| 0 <= i < rids.len() ==> after.member(#[trigger] rids[i] as int),
{
    match before {
        Pool::Copy(a) => {
            lemma_kinds_keep_slots(a@, need, 1);
            lemma_kinds_keep_slots(a@, need, 2);
            assert forall|i: int| 0 <= i < rids.len() implies after.member(#[trigger] rids[i] as int) by {
                assert(before.member(rids[i] as int));
            }
        },
        Pool::Resident(_) => {},
    }
}

/// A granted admission leaves every record known, and in a copy pool in a slot.
pub proof fn lemma_granted(start: Pool, after: Pool, pending: Seq<usize>, rids: Seq<usize>, step: u64)
    requires
        start.wf(),
        after.wf(),
        after.records() == start.records(),
        after is Copy == start is Copy,
        known(start, rids),
        after@ == settled(start@, pending).acquire(rids, step).pool,
        !settled(start@, pending).acquire(rids, step).full,
    ensures
        ({
            let need = settled(start@, pending).acquire(rids, step).need;
            &&& known(after, rids)
            &&& known(after, need)
            &&& after is Copy ==> forall|i: int| 0 <= i < rids.len() ==> after.member(#[trigger] rids[i] as int)
            &&& after is Copy ==> forall|i: int| 0 <= i < need.len() ==> after.member(#[trigger] need[i] as int)
        }),
{
    let grant = settled(start@, pending).acquire(rids, step);
    match start {
        Pool::Copy(c) => {
            assert forall|i: int| 0 <= i < rids.len() implies after.member(#[trigger] rids[i] as int) by {
                copy_pool::law_acquired_records_resident(c@, rids, step, c.default_kind, i);
            }
            assert forall|i: int| 0 <= i < grant.need.len() implies rids.contains(#[trigger] grant.need[i]) by {
                copy_pool::lemma_need_is_asked(c@, rids, step, c.default_kind, i);
            }
        },
        Pool::Resident(s) => {
            assert forall|i: int| 0 <= i < grant.need.len() implies rids.contains(#[trigger] grant.need[i]) by {
                residency::set::lemma_need_is_asked(
                    residency::set::finished(s@, s.budget as int, pending).lapsed(step),
                    s.budget as int,
                    rids,
                    step,
                    i,
                );
            }
        },
    }
    assert forall|i: int| 0 <= i < grant.need.len() implies (#[trigger] grant.need[i]) < after.records() by {
        assert(rids.contains(grant.need[i]));
        let k = choose|k: int| 0 <= k < rids.len() && rids[k] == grant.need[i];
        assert(rids[k] < start.records());
    }
    if start is Copy {
        assert forall|i: int| 0 <= i < grant.need.len() implies after.member(#[trigger] grant.need[i] as int) by {
            assert(rids.contains(grant.need[i]));
            let k = choose|k: int| 0 <= k < rids.len() && rids[k] == grant.need[i];
            assert(after.member(rids[k] as int));
        }
    }
}

/// When the misses of a block are released, every expert whose record was held or whose read
/// landed is usable, whatever was read ahead for the next block at the same step.
pub proof fn law_released_experts_usable(
    pool: Pool,
    rids: Seq<usize>,
    step: u64,
    ahead: Seq<usize>,
    done: Seq<usize>,
    i: int,
)
    requires
        pool.wf(),
        known(pool, rids),
        known(pool, ahead),
        known(pool, done),
        !pool@.acquire(rids, step).full,
        0 <= i < rids.len(),
        pool@.acquire(rids, step).need.contains(rids[i]) ==> done.contains(rids[i]),
    ensures
        settled(pool@.acquire(rids, step).pool.acquire(ahead, step).pool, done).member(rids[i] as int),
{
    let x = rids[i];
    match pool {
        Pool::Copy(c) => {
            copy_pool::law_acquired_records_resident(c@, rids, step, c.default_kind, i);
            copy_pool::law_acquired_slots_one_to_one(c@, rids, step, c.default_kind);
            let after = copy_pool::acquired(c@, rids, step, c.default_kind).slots;
            copy_pool::law_used_this_step_is_kept(after, ahead, step, c.default_kind, x as int);
        },
        Pool::Resident(s) => {
            let budget = s.budget as int;
            let start = s@.lapsed(step);
            residency::set::lemma_lapsed(s@, step);
            residency::set::law_reserved_records_accounted(start, budget, rids, step, i);
            residency::set::lemma_reserved_wf(start, budget, rids, step);
            let after = residency::set::reserved(start, budget, rids, step).members;
            residency::set::lemma_lapsed(after, step);
            let later = residency::set::reserved(after.lapsed(step), budget, ahead, step).members;
            residency::set::lemma_reserved_wf(after.lapsed(step), budget, ahead, step);
            if after.members.contains(x) {
                residency::set::law_member_used_this_step_stays(after.lapsed(step), budget, ahead, step, x);
            } else {
                let need = residency::set::reserved(start, budget, rids, step).need;
                let k = choose|k: int| 0 <= k < need.len() && need[k] == x;
                residency::set::lemma_need_waits(start, budget, rids, step, k);
                residency::set::lemma_waiting_stays(after.lapsed(step), budget, ahead, step, x);
            }
            residency::set::law_finished_records_are_members(later, budget, done, x);
        },
    }
}

/// What a pool still needs in memory is of its file.
proof fn lemma_granted_records(pool: Pool, rids: Seq<usize>, step: u64)
    requires
        known(pool, rids),
    ensures
        known(pool, pool@.acquire(rids, step).need),
{
    let need = pool@.acquire(rids, step).need;
    assert forall|i: int| 0 <= i < need.len() implies (#[trigger] need[i]) < pool.records() by {
        match pool {
            Pool::Copy(c) => copy_pool::lemma_need_is_asked(c@, rids, step, c.default_kind, i),
            Pool::Resident(s) => residency::set::lemma_need_is_asked(s@.lapsed(step), s.budget as int, rids, step, i),
        }
        let k = choose|k: int| 0 <= k < rids.len() && rids[k] == need[i];
        assert(rids[k] < pool.records());
    }
}

/// When a block is released, every expert that stays in its table is usable: it was held, or
/// its read landed; cut experts are not in the table.
pub proof fn law_active_experts_usable(
    service: Service,
    pool: Pool,
    step: u64,
    ahead: Seq<usize>,
    flags: Seq<Landed>,
    u: int,
)
    requires
        service.wf(),
        pool.wf(),
        known(pool, service.rids@),
        known(pool, ahead),
        !pool@.acquire(service.rids@, step).full,
        service.need@ == pool@.acquire(service.rids@, step).need,
        flags.len() == 0 || (flags.len() == service.need@.len() && service.readable(flags)),
        0 <= u < service.active,
    ensures
        settled(
            pool@.acquire(service.rids@, step).pool.acquire(ahead, step).pool,
            service.done(flags),
        ).member(service.rids@[service.plan.order@[u] as int] as int),
{
    let i = service.plan.order@[u] as int;
    let x = service.rids@[i];
    if service.need@.contains(x) {
        if service.has_deadline() {
            streaming::lemma_first_place(service.need@, x);
            streaming::lemma_landed_kept(service.need@, flags, streaming::first_place(service.need@, x, 0));
        }
        assert(service.done(flags).contains(x));
    }
    lemma_granted_records(pool, service.rids@, step);
    assert forall|k: int| 0 <= k < service.done(flags).len() implies (#[trigger] service.done(flags)[k])
        < pool.records() by {
        if service.has_deadline() {
            streaming::lemma_landed_listed(service.need@, flags, k);
            let m = choose|m: int| 0 <= m < service.need@.len() && service.need@[m] == service.done(flags)[k];
            assert(service.need@[m] < pool.records());
        }
    }
    law_released_experts_usable(pool, service.rids@, step, ahead, service.done(flags), i);
}

/// A routed block keeps its experts and records as they were given; an expert misses exactly where
/// its record is needed, and all of them are active. A refused one is left as it was.
pub proof fn law_block_routed(
    s: &mut Service,
    pool: &mut Pool,
    pending: &[usize],
    union: Vec<u32>,
    rids: Vec<usize>,
    idx: &[u32],
    weights: &[Real32],
    step: u64,
    r: Result<(Additions, Vec<usize>), (Additions, Refused)>,
    i: int,
)
    requires
        call_ensures(Service::routed, (s, pool, pending, union, rids, idx, weights, step), r),
        union@.len() == rids@.len(),
        0 <= i < rids@.len(),
    ensures
        r is Ok ==> {
            &&& final(s).union@ == union@ && final(s).rids@ == rids@
            &&& final(s).plan.missing@[i] <==> final(s).need@.contains(rids@[i])
            &&& final(s).active == rids@.len()
            &&& final(s).stage is Pages
            &&& final(s).signals == old(s).signals && final(s).cut_weight == old(s).cut_weight && final(s).fake == old(s).fake
            &&& *final(pool) is Copy ==> final(pool).member(rids@[i] as int)
        },
        r matches Err((_, refused)) ==> *final(s) == *old(s) && (*old(pool) is Copy ==> refused.error is PoolTooSmall) && (
        *old(pool) is Resident ==> refused.error is BudgetTooSmall),
{
    if r is Ok && *final(pool) is Copy {
        assert(final(pool).member(final(s).rids@[i] as int));
    }
}

/// Misses have a deadline exactly where weak experts may be cut and reading is not pretended.
pub proof fn law_published(s: &mut Service, row: &mut Vec<u64>, addresses: &[u64], r: u64)
    requires
        call_ensures(Service::published, (s, row, addresses), r),
        old(s).wf(),
        addresses@.len() + 2 <= old(row)@.len(),
    ensures
        r == old(s).signals.resident_ready,
        old(s).mode is Nothing <==> final(s).stage is Landed,
        old(s).mode is PerRecord <==> final(s).stage is Deadline,
        old(s).mode is Batch <==> final(s).stage is Reading,
        final(row)@.len() == old(row)@.len(),
        final(row)@.take(addresses@.len() as int) == addresses@,
        final(row)@[old(row)@.len() - 2] == old(s).plan.n_res,
        final(row)@.last() == addresses@.len(),
{
    assert(final(row)@.take(addresses@.len() as int) =~= addresses@);
}

/// At the deadline what is late and weak is cut, as many as the row then tells; where all has landed,
/// or residents still work, nothing is cut.
pub proof fn law_block_looked_at(
    s: &mut Service,
    row: &mut Vec<u64>,
    flags: &[Landed],
    resident_done: bool,
    elapsed_seconds: u64,
    r: Deadline,
)
    requires
        call_ensures(Service::look, (s, row, flags, resident_done, elapsed_seconds), r),
        old(row)@.len() > 0,
    ensures
        r is Landed <==> forall|i: int| 0 <= i < flags@.len() ==> (#[trigger] flags@[i]).landed,
        r is Landed ==> final(s).stage is Landed && final(s).active == old(s).active && final(row)@ == old(row)@,
        r is Cut ==> {
            &&& resident_done
            &&& final(s).stage is Landing
            &&& old(s).plan.n_res <= final(s).active <= old(s).plan.order@.len()
            &&& final(row)@ == old(row)@.update(old(row)@.len() - 1, final(s).active as u64)
            &&& forall|u: int|
                final(s).active <= u < old(s).plan.order@.len() ==> old(s).plan.wmax@[#[trigger] old(s).plan.order@[u] as int].lt(
                    old(s).cut_weight,
                )
        },
        r is Again || r is Hung ==> *final(s) == *old(s) && final(row)@ == old(row)@,
        r is Hung ==> elapsed_seconds > 30,
{
    if r is Cut {
        assert forall|u: int| final(s).active <= u < old(s).plan.order@.len() implies old(s).plan.wmax@[#[trigger] old(
            s
        ).plan.order@[u] as int].lt(old(s).cut_weight) by {
            assert(streaming::may_cut(
                old(s).need@,
                flags@,
                old(s).rids@,
                old(s).plan.wmax@,
                old(s).cut_weight,
                old(s).plan.order@[u] as int,
            ));
        }
    }
}

/// What was cut is the end of the order, last first.
pub proof fn law_cut_records(s: Service, r: Vec<usize>, i: int)
    requires
        call_ensures(Service::cut_records, (&s,), r),
        s.wf(),
        0 <= i < s.plan.order@.len() - s.active,
    ensures
        r@.len() == s.plan.order@.len() - s.active,
        r@[i] == s.rids@[s.plan.order@[s.plan.order@.len() - 1 - i] as int],
{
}

/// A block's records stand in the order of its plan.
pub proof fn law_block_records(s: Service, r: Vec<usize>, u: int)
    requires
        call_ensures(Service::records, (&s,), r),
        s.wf(),
        0 <= u < s.plan.order@.len(),
    ensures
        r@.len() == s.plan.order@.len(),
        r@[u] == s.rids@[s.plan.order@[u] as int],
{
}

/// A released block ends with the signal that its misses are there; what joins the pool was needed
/// and, where there was a deadline, has landed.
pub proof fn law_block_released(s: &mut Service, pool: &mut Pool, flags: &[Landed], r: (Additions, u64), rid: usize)
    requires
        call_ensures(Service::released, (s, pool, flags), r),
        old(s).wf(),
        old(pool).wf(),
        known(*old(pool), old(s).need@),
        flags@.len() == old(s).need@.len(),
    ensures
        r.1 == old(s).signals.misses_ready,
        final(s).stage is Released,
        *old(pool) is Copy ==> *final(pool) == *old(pool),
        *old(pool) is Resident && old(pool).member(rid as int) ==> final(pool).member(rid as int),
        *old(pool) is Resident && final(pool).member(rid as int) && !old(pool).member(rid as int) ==> old(s).done(
            flags@,
        ).contains(rid),
{
    if *old(pool) is Resident {
        let a = (*old(pool))->Resident_0;
        let b = (*final(pool))->Resident_0;
        let rids = old(s).done(flags@);
        let after = residency::set::finished(a@, a.budget as int, rids);
        assert(b@ == after);
        if after.members.contains(rid) {
            residency::set::lemma_finished_only_asked(a@, a.budget as int, rids, rid);
        }
        if a@.members.contains(rid) {
            assert forall|i: int| 0 <= i < rids.len() implies (#[trigger] rids[i]) < a@.last_used.len() by {
                if old(s).has_deadline() {
                    streaming::lemma_landed_listed(old(s).need@, flags@, i);
                }
            }
            residency::set::law_finished_records_are_members(a@, a.budget as int, rids, rid);
        }
    }
}

} // verus!
