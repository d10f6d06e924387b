//! What a step keeps between its blocks: the expert pool, the reads that are under way, and
//! the predictions that were not met yet.

use crate::number::Real32;
use crate::qwen4_exp::gpu::residency;
use crate::qwen4_exp::gpu::residency::{Additions, Landed, Pool, PoolError, ReadPlan, Refused};
use crate::qwen4_exp::gpu::service;
use crate::qwen4_exp::gpu::service::{
    let_in, predictions, remember_prediction, settle_predictions, take_prediction, Service, Stage,
};
use crate::qwen4_exp::gpu::streaming;
use crate::qwen4_exp::gpu::streaming::{prediction_hits, prefetch, LaEntry, Prefetch};
use std::collections::VecDeque;
use vstd::prelude::*;

verus! {

/// The distinct experts of routes, each where it comes first.
pub open spec fn distinct(idx: Seq<u32>) -> Seq<u32>
    decreases idx.len(),
{
    if idx.len() == 0 {
        Seq::empty()
    } else {
        let before = distinct(idx.drop_last());
        if before.contains(idx.last()) {
            before
        } else {
            before.push(idx.last())
        }
    }
}

/// The distinct experts of routes are those that occur, each once.
pub proof fn law_union_is_the_routed_set(idx: Seq<u32>)
    ensures
        forall|e: u32| #[trigger] distinct(idx).contains(e) <==> idx.contains(e),
        forall|i: int, j: int|
            0 <= i < j < distinct(idx).len() ==> #[trigger] distinct(idx)[i] != #[trigger] distinct(idx)[j],
        distinct(idx).len() <= idx.len(),
    decreases idx.len(),
{
    if idx.len() > 0 {
        let head = idx.drop_last();
        let before = distinct(head);
        law_union_is_the_routed_set(head);
        assert forall|e: u32| #[trigger] distinct(idx).contains(e) <==> idx.contains(e) by {
            if idx.contains(e) {
                let k = choose|k: int| 0 <= k < idx.len() && idx[k] == e;
                if k < head.len() {
                    assert(head[k] == e);
                    assert(before.contains(e));
                    let m = choose|m: int| 0 <= m < before.len() && before[m] == e;
                    assert(distinct(idx)[m] == e);
                } else if !before.contains(idx.last()) {
                    assert(distinct(idx)[before.len() as int] == e);
                }
            }
            if distinct(idx).contains(e) {
                let m = choose|m: int| 0 <= m < distinct(idx).len() && distinct(idx)[m] == e;
                if m < before.len() {
                    assert(before[m] == e);
                    assert(before.contains(e));
                    assert(head.contains(e));
                    let k = choose|k: int| 0 <= k < head.len() && head[k] == e;
                    assert(idx[k] == e);
                } else {
                    assert(idx[idx.len() - 1] == e);
                }
            }
        }
        assert forall|i: int, j: int| 0 <= i < j < distinct(idx).len() implies #[trigger] distinct(idx)[i]
            != #[trigger] distinct(idx)[j] by {
            assert(before.contains(before[i]));
        }
    }
}

/// The experts that the rows of a block chose, each once.
pub fn union_of(idx: &[u32]) -> (r: Vec<u32>)
    ensures
        r@ == distinct(idx@),
{
    let mut out: Vec<u32> = Vec::new();
    let mut i: usize = 0;
    assert(idx@.take(0) =~= Seq::<u32>::empty());
    while i < idx.len()
        invariant
            i <= idx@.len(),
            out@ == distinct(idx@.take(i as int)),
        decreases idx@.len() - i,
    {
        let e: u32 = idx[i];
        assert(idx@.take(i + 1).drop_last() =~= idx@.take(i as int));
        let mut seen: bool = false;
        let mut k: usize = 0;
        while k < out.len()
            invariant
                k <= out@.len(),
                seen == out@.take(k as int).contains(e),
            decreases out@.len() - k,
        {
            proof {
                let before = out@.take(k as int);
                assert(out@.take(k + 1) =~= before.push(out@[k as int]));
                if before.contains(e) {
                    let m = choose|m: int| 0 <= m < before.len() && before[m] == e;
                    assert(out@.take(k + 1)[m] == e);
                }
                if out@[k as int] == e {
                    assert(out@.take(k + 1)[k as int] == e);
                }
            }
            if out[k] == e {
                seen = true;
            }
            k = k + 1;
        }
        assert(out@.take(k as int) =~= out@);
        if !seen {
            out.push(e);
        }
        i = i + 1;
    }
    assert(idx@.take(i as int) =~= idx@);
    out
}

/// The records of a layer's experts, in a file of so many experts for each layer.
pub open spec fn records_of(layer: int, per_layer: int, experts: Seq<u32>) -> Seq<usize> {
    Seq::new(experts.len(), |i: int| (layer * per_layer + experts[i]) as usize)
}

pub fn record_ids(layer: usize, per_layer: usize, experts: &[u32]) -> (r: Vec<usize>)
    requires
        layer * per_layer <= usize::MAX,
        forall|i: int| 0 <= i < experts@.len() ==> layer * per_layer + (#[trigger] experts@[i]) <= usize::MAX,
    ensures
        r@ == records_of(layer as int, per_layer as int, experts@),
{
    let base: usize = layer * per_layer;
    let mut out: Vec<usize> = Vec::new();
    let mut i: usize = 0;
    while i < experts.len()
        invariant
            i <= experts@.len(),
            base == layer * per_layer,
            forall|k: int| 0 <= k < experts@.len() ==> layer * per_layer + (#[trigger] experts@[k]) <= usize::MAX,
            out@.len() == i,
            forall|k: int| 0 <= k < i ==> #[trigger] out@[k] == records_of(layer as int, per_layer as int, experts@)[k],
        decreases experts@.len() - i,
    {
        out.push(base + experts[i] as usize);
        i = i + 1;
    }
    assert(out@ =~= records_of(layer as int, per_layer as int, experts@));
    out
}

/// What came of a block's routes: what joined the pool and what left it, and how many of the
/// routed experts a prediction named, of how many.
#[derive(Debug)]
pub struct Arrival {
    pub joined: Additions,
    pub evicted: Vec<usize>,
    pub hits: usize,
    pub total: usize,
}

/// What a step keeps between its blocks.
#[derive(Debug)]
pub struct Streaming {
    pub pool: Pool,
    pub layers: usize,
    /// The experts of each layer.
    pub experts: usize,
    /// The experts of each row.
    pub k: usize,
    /// The developer's switch that leaves records unread.
    pub fake: bool,
    /// Whether predictions are logged.
    pub logs: bool,
    /// The records of a background read, until it is joined.
    pub pending: Vec<usize>,
    /// The records whose reads were cut and go on until the step ends.
    pub inflight: Vec<usize>,
    /// Predicted experts, each with the row of the table that they are for.
    pub predicted: VecDeque<(usize, Vec<u32>)>,
    /// The logged predictions whose block has not been routed.
    pub open: Vec<LaEntry>,
    /// The logged predictions whose block has.
    pub log: Vec<LaEntry>,
}

/// What is left of predictions when the block of `slot_row` is served.
pub open spec fn unmet(queue: Seq<(usize, Vec<u32>)>, slot_row: usize) -> Seq<(usize, Vec<u32>)> {
    if queue.len() > 0 && queue[0].0 == slot_row {
        queue.skip(1)
    } else {
        queue
    }
}

/// The hits of the prediction for `slot_row` among the routed experts, and how many there
/// are; nothing is counted without such a prediction.
pub open spec fn hits_of(queue: Seq<(usize, Vec<u32>)>, slot_row: usize, union: Seq<u32>) -> (int, int) {
    if queue.len() > 0 && queue[0].0 == slot_row {
        (streaming::hit_count(union, queue[0].1@) as int, union.len() as int)
    } else {
        (0, 0)
    }
}

impl Streaming {
    /// The pool is over the file of all layers' experts, and what is being read is in it.
    pub open spec fn wf(self) -> bool {
        &&& self.pool.wf()
        &&& self.pool.records() == self.layers * self.experts
        &&& 0 < self.k <= u32::MAX
        &&& service::known(self.pool, self.pending@)
        &&& service::known(self.pool, self.inflight@)
        &&& self.pool is Copy ==> forall|i: int|
            0 <= i < self.pending@.len() ==> self.pool.member(#[trigger] self.pending@[i] as int)
    }

    /// The same file, pool and switches.
    pub open spec fn same_file(self, other: Streaming) -> bool {
        &&& self.pool.same_pool(other.pool)
        &&& self.layers == other.layers
        &&& self.experts == other.experts
        &&& self.k == other.k
        &&& self.fake == other.fake
        &&& self.logs == other.logs
    }

    /// The same logged predictions.
    pub open spec fn same_log(self, other: Streaming) -> bool {
        self.open == other.open && self.log == other.log
    }

    /// What is logged of the routes that were predicted for `layer` and the table's row `row`.
    pub open spec fn logged(self, layer: usize, row: usize, idx: Seq<u32>, weights: Seq<Real32>, step: u64) -> Seq<
        LaEntry,
    > {
        if self.logs {
            service::prediction_entries(
                self.pool,
                step,
                row,
                distinct(idx),
                self.wanted(layer, idx),
                idx,
                weights,
                self.k,
            )
        } else {
            Seq::empty()
        }
    }

    /// Whether every route names an expert of a layer.
    pub open spec fn routes_known(self, layer: usize, idx: Seq<u32>) -> bool {
        &&& layer < self.layers
        &&& forall|i: int| 0 <= i < idx.len() ==> (#[trigger] idx[i]) < self.experts
    }

    /// The records of the distinct experts of routes.
    pub open spec fn wanted(self, layer: usize, idx: Seq<u32>) -> Seq<usize> {
        records_of(layer as int, self.experts as int, distinct(idx))
    }

    proof fn lemma_wanted(self, layer: usize, idx: Seq<u32>)
        requires
            self.wf(),
            self.routes_known(layer, idx),
        ensures
            layer * self.experts <= usize::MAX,
            forall|i: int|
                0 <= i < distinct(idx).len() ==> layer * self.experts + (#[trigger] distinct(idx)[i]) < self.pool.records(),
            self.pool.records() <= usize::MAX,
            service::known(self.pool, self.wanted(layer, idx)),
    {
        law_union_is_the_routed_set(idx);
        let e = self.experts as int;
        assert(layer * e + e <= self.layers * e && 0 <= layer * e) by (nonlinear_arith)
            requires
                0 <= layer,
                layer + 1 <= self.layers,
                e >= 0,
        ;
        assert(self.pool.records() <= usize::MAX) by {
            match self.pool {
                Pool::Resident(s) => {
                    assert(s.last_used@.len() == s.last_used.len());
                },
                Pool::Copy(c) => {
                    assert(c.rec_slot@.len() == c.rec_slot.len());
                },
            }
        }
        assert forall|i: int| 0 <= i < distinct(idx).len() implies layer * self.experts + (#[trigger] distinct(idx)[i])
            < self.pool.records() by {
            assert(distinct(idx).contains(distinct(idx)[i]));
            let k = choose|k: int| 0 <= k < idx.len() && idx[k] == distinct(idx)[i];
            assert(idx[k] < self.experts);
        }
    }

    pub fn new(pool: Pool, layers: usize, experts: usize, k: usize, fake: bool, logs: bool) -> (r: Streaming)
        requires
            pool.wf(),
            pool.records() == layers * experts,
            0 < k <= u32::MAX,
        ensures
            r.wf(),
            r.pool == pool,
            r.layers == layers,
            r.experts == experts,
            r.k == k,
            r.fake == fake,
            r.logs == logs,
            r.pending@.len() == 0,
            r.inflight@.len() == 0,
            r.predicted@.len() == 0,
            r.open@.len() == 0,
            r.log@.len() == 0,
    {
        Streaming {
            pool,
            layers,
            experts,
            k,
            fake,
            logs,
            pending: Vec::new(),
            inflight: Vec::new(),
            predicted: VecDeque::new(),
            open: Vec::new(),
            log: Vec::new(),
        }
    }

    /// A block's routes were read: the prediction for the block is met and the logged ones are
    /// settled, the background read joins the pool, and the pool makes room for the routed
    /// experts.
    pub fn arrived(
        &mut self,
        block: &mut Service,
        layer: usize,
        slot_row: usize,
        idx: &[u32],
        weights: &[Real32],
        step: u64,
    ) -> (r: Result<Arrival, (Additions, Refused)>)
        requires
            old(self).wf(),
            old(block).stage == Stage::Router,
            old(self).routes_known(layer, idx@),
            idx@.len() == weights@.len(),
        ensures
            final(self).wf(),
            final(self).same_file(*old(self)),
            final(self).pending@.len() == 0,
            final(self).inflight == old(self).inflight,
            final(self).predicted@ == unmet(old(self).predicted@, slot_row),
            final(self).open@.len() == 0,
            final(self).log@ == old(self).log@ + service::settled_entries(old(self).open@, distinct(idx@)),
            ({
                let union = distinct(idx@);
                let rids = old(self).wanted(layer, idx@);
                let pending = old(self).pending@;
                let grant = service::settled(old(self).pool@, pending).acquire(rids, step);
                &&& final(self).pool@ == grant.pool
                &&& service::uncommitted(final(self).pool) == ((pending.len() == 0 && service::uncommitted(
                    old(self).pool,
                )) || grant.evicted.len() > 0)
                &&& match r {
                    Ok(a) => {
                        &&& !grant.full
                        &&& service::joins_behind(old(self).pool, pending, a.joined)
                        &&& a.evicted@ == grant.evicted
                        &&& (a.hits as int, a.total as int) == hits_of(old(self).predicted@, slot_row, union)
                        &&& final(block).took(*old(block), union, rids, grant.need, idx@, weights@)
                        &&& final(block).held_by(final(self).pool)
                    },
                    Err((joined, refused)) => {
                        &&& grant.full
                        &&& service::joins_behind(old(self).pool, pending, joined)
                        &&& refused.evicted@ == grant.evicted
                        &&& refused.error == if old(self).pool is Copy {
                            PoolError::PoolTooSmall
                        } else {
                            PoolError::BudgetTooSmall
                        }
                        &&& *final(block) == *old(block)
                    },
                }
            }),
    {
        proof {
            self.lemma_wanted(layer, idx@);
        }
        let union = union_of(idx);
        let prediction = take_prediction(&mut self.predicted, slot_row);
        let (hits, total) = prediction_hits(union.as_slice(), prediction.as_ref());
        settle_predictions(&mut self.open, &mut self.log, union.as_slice());
        let rids = record_ids(layer, self.experts, union.as_slice());
        let mut pending: Vec<usize> = Vec::new();
        std::mem::swap(&mut pending, &mut self.pending);
        match block.routed(&mut self.pool, pending.as_slice(), union, rids, idx, weights, step) {
            Ok((joined, evicted)) => Ok(Arrival { joined, evicted, hits, total }),
            Err(e) => Err(e),
        }
    }

    /// Makes room for the experts that were predicted for the next block, once the background
    /// read before them joined the pool, and keeps and logs the prediction for that block.
    /// Without a prediction nothing changes. The results are what joined the pool and what left
    /// it.
    pub fn look_ahead(&mut self, slot_row: usize, ahead: Option<(usize, &[u32], &[Real32])>, step: u64) -> (r: Result<
        Option<(Additions, Vec<usize>)>,
        (Additions, Refused),
    >)
        requires
            old(self).wf(),
            ahead matches Some((layer, idx, weights)) ==> old(self).routes_known(layer, idx@) && idx@.len()
                == weights@.len() && slot_row < usize::MAX,
        ensures
            final(self).wf(),
            final(self).same_file(*old(self)),
            final(self).inflight == old(self).inflight,
            match ahead {
                None => r is Ok && r->Ok_0 is None && *final(self) == *old(self),
                Some((layer, idx, weights)) => {
                    let pending = old(self).pending@;
                    let grant = service::settled(old(self).pool@, pending).acquire(old(self).wanted(layer, idx@), step);
                    &&& final(self).log == old(self).log
                    &&& final(self).open@ == old(self).open@ + old(self).logged(
                        layer,
                        (slot_row + 1) as usize,
                        idx@,
                        weights@,
                        step,
                    )
                    &&& final(self).pool@ == grant.pool
                    &&& service::uncommitted(final(self).pool) == ((pending.len() == 0 && service::uncommitted(
                        old(self).pool,
                    )) || grant.evicted.len() > 0)
                    &&& match r {
                        Ok(done) => {
                            &&& !grant.full
                            &&& done matches Some((joined, evicted)) && service::joins_behind(
                                old(self).pool,
                                pending,
                                joined,
                            ) && evicted@ == grant.evicted
                            &&& final(self).pending@ == grant.need
                            &&& final(self).predicted@.len() == old(self).predicted@.len() + 1
                            &&& final(self).predicted@.drop_last() == old(self).predicted@
                            &&& final(self).predicted@.last().0 == slot_row + 1
                            &&& final(self).predicted@.last().1@ == distinct(idx@)
                        },
                        Err((joined, refused)) => {
                            &&& grant.full
                            &&& service::joins_behind(old(self).pool, pending, joined)
                            &&& refused.evicted@ == grant.evicted
                            &&& refused.error == if old(self).pool is Copy {
                                PoolError::PoolTooSmall
                            } else {
                                PoolError::BudgetTooSmall
                            }
                            &&& final(self).pending@.len() == 0
                            &&& final(self).predicted == old(self).predicted
                        },
                    }
                },
            },
    {
        let (layer, idx, weights): (usize, &[u32], &[Real32]) = match ahead {
            Some(given) => given,
            None => return Ok(None),
        };
        proof {
            self.lemma_wanted(layer, idx@);
        }
        let union = union_of(idx);
        let rids = record_ids(layer, self.experts, union.as_slice());
        if self.logs {
            let mut entries = predictions(
                &self.pool,
                step,
                slot_row + 1,
                union.as_slice(),
                rids.as_slice(),
                idx,
                weights,
                self.k,
            );
            self.open.append(&mut entries);
        }
        assert(self.open@ =~= old(self).open@ + old(self).logged(layer, (slot_row + 1) as usize, idx@, weights@, step));
        let mut pending: Vec<usize> = Vec::new();
        std::mem::swap(&mut pending, &mut self.pending);
        match let_in(&mut self.pool, pending.as_slice(), rids.as_slice(), step) {
            Ok(granted) => {
                proof {
                    service::lemma_granted(old(self).pool, self.pool, pending@, rids@, step);
                }
                self.pending = granted.need;
                remember_prediction(&mut self.predicted, slot_row, Some(union));
                assert(self.predicted@.drop_last() =~= old(self).predicted@);
                Ok(Some((granted.joined, granted.evicted)))
            },
            Err(e) => Err(e),
        }
    }

    /// The background read of the predicted records, how many records it reads, and how many
    /// need none: nothing, and none, where no record is awaited. `cached` says of each record of
    /// a set whether its pages are in memory. Under the developer's switch the reads are counted
    /// and not made.
    pub fn read_ahead(&self, cached: &[bool]) -> (r: (Option<ReadPlan>, usize, usize))
        requires
            self.wf(),
            self.pool is Resident ==> cached@.len() == self.pending@.len(),
        ensures
            ({
                let reads = match self.pool {
                    Pool::Resident(s) => residency::page_reads(s, self.pending@, cached@, self.pending@.len()),
                    Pool::Copy(c) => Seq::new(
                        self.pending@.len(),
                        |i: int| residency::slot_read(c, self.pending@[i] as int, i),
                    ),
                };
                &&& r.1 == reads.len()
                &&& r.2 == if self.pool is Resident {
                    self.pending@.len() - reads.len()
                } else {
                    0
                }
                &&& self.pending@.len() == 0 ==> r.1 == 0
                &&& r.0 is Some <==> self.pending@.len() > 0 && !self.fake
                &&& r.0 matches Some(plan) ==> {
                    &&& plan.items@ == reads
                    &&& match self.pool {
                        Pool::Resident(s) => plan.stride == s.stride && !plan.low_file,
                        Pool::Copy(c) => plan.stride == c.stride && plan.low_file == (c.low_file && exists|i: int|
                            0 <= i < self.pending@.len()
                                && c.slot_kind@[c.rec_slot@[#[trigger] self.pending@[i] as int]->0 as int] != 0),
                    }
                    &&& forall|i: int|
                        0 <= i < plan.items@.len() ==> (#[trigger] plan.items@[i]).need_index < self.pending@.len()
                }
            }),
    {
        if self.pending.len() == 0 {
            return (None, 0, 0);
        }
        let (plan, warm) = self.pool.plan_reads(self.pending.as_slice(), cached);
        match prefetch(self.pending.as_slice(), plan.len(), self.fake) {
            Prefetch::Nothing => (None, 0, 0),
            Prefetch::Unread { reads } => (None, reads, warm),
            Prefetch::Background { reads } => (Some(plan), reads, warm),
        }
    }

    /// The reads that a block cut stay under way until the step ends.
    pub fn cut(&mut self, block: &Service)
        requires
            old(self).wf(),
            block.wf(),
            service::known(old(self).pool, block.rids@),
        ensures
            final(self).wf(),
            final(self).inflight@ == old(self).inflight@ + block.cut_from_table(),
            final(self).same_log(*old(self)),
            final(self).pool == old(self).pool,
            final(self).same_file(*old(self)),
            final(self).pending == old(self).pending,
            final(self).predicted == old(self).predicted,
    {
        let ghost before = self.inflight@;
        let list = block.cut_records();
        let mut i: usize = 0;
        assert(before + list@.take(0) =~= before);
        while i < list.len()
            invariant
                i <= list@.len(),
                self.inflight@ == before + list@.take(i as int),
                self.pool == old(self).pool,
                self.layers == old(self).layers,
                self.experts == old(self).experts,
                self.k == old(self).k,
                self.fake == old(self).fake,
                self.logs == old(self).logs,
                self.same_log(*old(self)),
                self.pending == old(self).pending,
                self.predicted == old(self).predicted,
            decreases list@.len() - i,
        {
            self.inflight.push(list[i]);
            assert(self.inflight@ =~= before + list@.take(i + 1));
            i = i + 1;
        }
        assert(list@.take(i as int) =~= list@);
        assert(service::known(self.pool, self.inflight@)) by {
            assert forall|k: int| 0 <= k < self.inflight@.len() implies (#[trigger] self.inflight@[k])
                < self.pool.records() by {
                if k < before.len() {
                    assert(self.inflight@[k] == before[k]);
                } else {
                    let at = block.plan.order@[block.plan.order@.len() - 1 - (k - before.len())] as int;
                    assert(self.inflight@[k] == block.rids@[at]);
                }
            }
        }
    }

    /// Everything of a block is readable: what was read joins the pool. The results are what
    /// joined and the value to signal.
    pub fn released(&mut self, block: &mut Service, flags: &[Landed]) -> (r: (Additions, u64))
        requires
            old(self).wf(),
            old(block).stage == Stage::Landed,
            old(block).wf(),
            service::known(old(self).pool, old(block).need@),
            flags@.len() == 0 || flags@.len() == old(block).need@.len(),
        ensures
            final(self).wf(),
            final(self).same_file(*old(self)),
            final(self).same_log(*old(self)),
            final(self).pending == old(self).pending,
            final(self).inflight == old(self).inflight,
            final(self).predicted == old(self).predicted,
            *final(block) == (Service { stage: Stage::Released, ..*old(block) }),
            r.1 == old(block).signals.misses_ready,
            final(self).pool@ == service::settled(old(self).pool@, old(block).done(flags@)),
            service::joins(old(self).pool, old(block).done(flags@), r.0),
            !service::uncommitted(final(self).pool),
            old(self).pool is Copy ==> final(self).pool == old(self).pool,
    {
        block.released(&mut self.pool, flags)
    }

    /// The reads that were cut have ended: their records join the pool. Nothing where none was
    /// cut.
    pub fn join_inflight(&mut self) -> (r: Option<Additions>)
        requires
            old(self).wf(),
        ensures
            final(self).wf(),
            final(self).same_file(*old(self)),
            final(self).pending == old(self).pending,
            final(self).predicted == old(self).predicted,
            final(self).same_log(*old(self)),
            final(self).inflight@.len() == 0,
            final(self).pool@ == service::settled(old(self).pool@, old(self).inflight@),
            old(self).pool is Copy ==> final(self).pool == old(self).pool,
            match r {
                Some(added) => old(self).inflight@.len() > 0 && service::joins(
                    old(self).pool,
                    old(self).inflight@,
                    added,
                ) && !service::uncommitted(final(self).pool),
                None => old(self).inflight@.len() == 0 && final(self).pool == old(self).pool,
            },
    {
        if self.inflight.len() == 0 {
            return None;
        }
        let mut list: Vec<usize> = Vec::new();
        std::mem::swap(&mut list, &mut self.inflight);
        Some(self.pool.finish(list.as_slice()))
    }
}

/// What the blocks of a step counted.
#[derive(Debug, Clone, Copy, PartialEq, Eq, Structural)]
pub struct StepCounts {
    /// Routed experts that the pool did not hold, and the bytes of their records.
    pub misses: usize,
    pub miss_bytes: usize,
    /// Records that needed no read, of those and of the predicted ones.
    pub warm: usize,
    /// Experts that were cut.
    pub cut: usize,
    /// Predicted experts that were routed, of how many.
    pub hits: usize,
    pub total: usize,
    /// Records read ahead.
    pub issued: usize,
}

impl StepCounts {
    /// What one block adds: `record_bytes` for each record that it missed.
    pub open spec fn of_block(block: Service, record_bytes: int, warm: int, hits: int, total: int, issued: int) -> (
        int,
        int,
        int,
        int,
        int,
        int,
        int,
    ) {
        (
            block.need@.len() as int,
            block.need@.len() * record_bytes,
            warm,
            block.plan.order@.len() - block.active,
            hits,
            total,
            issued,
        )
    }

    /// Counts a block that was served. Nothing is counted, and the result is false, where a
    /// count would not be a machine number.
    pub fn served(
        &mut self,
        block: &Service,
        record_bytes: usize,
        warm: usize,
        hits: usize,
        total: usize,
        issued: usize,
    ) -> (r: bool)
        requires
            block.wf(),
        ensures
            ({
                let (a, b) = (*old(self), *final(self));
                let (misses, bytes, warm, cut, hits, total, issued) = StepCounts::of_block(
                    *block,
                    record_bytes as int,
                    warm as int,
                    hits as int,
                    total as int,
                    issued as int,
                );
                &&& r <==> a.misses + misses <= usize::MAX && a.miss_bytes + bytes <= usize::MAX && a.warm + warm
                    <= usize::MAX && a.cut + cut <= usize::MAX && a.hits + hits <= usize::MAX && a.total + total
                    <= usize::MAX && a.issued + issued <= usize::MAX
                &&& r ==> b == (StepCounts {
                    misses: (a.misses + misses) as usize,
                    miss_bytes: (a.miss_bytes + bytes) as usize,
                    warm: (a.warm + warm) as usize,
                    cut: (a.cut + cut) as usize,
                    hits: (a.hits + hits) as usize,
                    total: (a.total + total) as usize,
                    issued: (a.issued + issued) as usize,
                })
                &&& !r ==> b == a
            }),
    {
        let misses: usize = block.need.len();
        let cut: usize = block.plan.order.len() - block.active;
        let bytes: usize = match misses.checked_mul(record_bytes) {
            Some(n) => n,
            None => return false,
        };
        match (
            self.misses.checked_add(misses),
            self.miss_bytes.checked_add(bytes),
            self.warm.checked_add(warm),
            self.cut.checked_add(cut),
            self.hits.checked_add(hits),
            self.total.checked_add(total),
            self.issued.checked_add(issued),
        ) {
            (Some(misses), Some(miss_bytes), Some(warm), Some(cut), Some(hits), Some(total), Some(issued)) => {
                *self = StepCounts { misses, miss_bytes, warm, cut, hits, total, issued };
                true
            },
            _ => false,
        }
    }
}

impl Default for StepCounts {
    fn default() -> (r: StepCounts)
        ensures
            r == (StepCounts { misses: 0, miss_bytes: 0, warm: 0, cut: 0, hits: 0, total: 0, issued: 0 }),
    {
        StepCounts { misses: 0, miss_bytes: 0, warm: 0, cut: 0, hits: 0, total: 0, issued: 0 }
    }
}

/// A prediction is met by the block that it was made for: where no other is open, the block
/// behind `slot_row` counts its hits against exactly the experts that were predicted for it, and
/// leaves no prediction open.
pub proof fn law_prediction_met(queue: Seq<(usize, Vec<u32>)>, slot_row: usize, predicted: Vec<u32>, union: Seq<u32>)
    requires
        queue.len() == 0,
        slot_row < usize::MAX,
    ensures
        ({
            let next = (slot_row + 1) as usize;
            let open = queue.push((next, predicted));
            &&& unmet(open, next) == queue
            &&& hits_of(open, next, union) == (streaming::hit_count(union, predicted@) as int, union.len() as int)
        }),
{
    let next = (slot_row + 1) as usize;
    assert(unmet(queue.push((next, predicted)), next) =~= queue);
}

/// What a block predicts is logged once for each expert, and marked by what the next block
/// routes: where nothing else is open, the log grows by one entry for each predicted expert,
/// which is a hit exactly where the expert is routed.
pub proof fn law_logged_predictions_settle(
    start: Streaming,
    layer: usize,
    row: usize,
    idx: Seq<u32>,
    weights: Seq<Real32>,
    step: u64,
    routed: Seq<u32>,
    log: Seq<LaEntry>,
    i: int,
)
    requires
        start.logs,
        start.open@.len() == 0,
        log == start.log@ + service::settled_entries(
            start.open@ + start.logged(layer, row, idx, weights, step),
            distinct(routed),
        ),
        0 <= i < distinct(idx).len(),
    ensures
        log.len() == start.log@.len() + distinct(idx).len(),
        log.take(start.log@.len() as int) == start.log@,
        ({
            let e = log[start.log@.len() + i];
            &&& e.expert == distinct(idx)[i]
            &&& e.hit <==> routed.contains(e.expert)
            &&& e.resident == start.pool.member(start.wanted(layer, idx)[i] as int)
            &&& (e.step, e.layer) == (step, row)
        }),
{
    law_union_is_the_routed_set(routed);
    assert(start.open@ + start.logged(layer, row, idx, weights, step) =~= start.logged(layer, row, idx, weights, step));
    assert(log.take(start.log@.len() as int) =~= start.log@);
}

/// The union of a block lists each routed expert once, where it is first routed, and no other.
pub proof fn law_union_of(idx: &[u32], r: Vec<u32>, x: u32)
    requires
        call_ensures(union_of, (idx,), r),
    ensures
        r@.contains(x) <==> idx@.contains(x),
        forall|i: int, j: int| 0 <= i < j < r@.len() ==> #[trigger] r@[i] != #[trigger] r@[j],
        idx@.len() > 0 ==> r@.len() > 0 && r@[0] == idx@[0],
{
    lemma_distinct(idx@, x);
}

proof fn lemma_distinct(idx: Seq<u32>, x: u32)
    ensures
        distinct(idx).contains(x) <==> idx.contains(x),
        forall|i: int, j: int| 0 <= i < j < distinct(idx).len() ==> #[trigger] distinct(idx)[i] != #[trigger] distinct(idx)[j],
        idx.len() > 0 ==> distinct(idx).len() > 0 && distinct(idx)[0] == idx[0],
    decreases idx.len(),
{
    if idx.len() > 0 {
        let head = idx.drop_last();
        lemma_distinct(head, x);
        lemma_distinct(head, idx.last());
        let before = distinct(head);
        let after = distinct(idx);
        if idx.contains(x) {
            let k = choose|k: int| 0 <= k < idx.len() && idx[k] == x;
            if k < head.len() {
                assert(head[k] == x);
                assert(before.contains(x));
            }
            if before.contains(x) {
                let m = choose|m: int| 0 <= m < before.len() && before[m] == x;
                assert(after[m] == x);
            } else {
                assert(after[after.len() - 1] == x);
            }
        }
        if after.contains(x) && !before.contains(x) {
            assert(idx[idx.len() - 1] == x);
        }
        if before.contains(x) && after.contains(x) {
            let k = choose|k: int| 0 <= k < head.len() && head[k] == x;
            assert(idx[k] == x);
        }
        assert forall|i: int, j: int| 0 <= i < j < after.len() implies #[trigger] after[i] != #[trigger] after[j] by {
            if j == before.len() {
                assert(before.contains(before[i]));
            }
        }
        if head.len() == 0 {
            assert(before =~= Seq::<u32>::empty());
        }
    }
}

/// An expert's record stands behind those of the layers before, at the expert's place in its layer.
pub proof fn law_record_ids(layer: usize, per_layer: usize, experts: &[u32], r: Vec<usize>, i: int)
    requires
        call_ensures(record_ids, (layer, per_layer, experts), r),
        0 <= i < experts@.len(),
        layer * per_layer + experts@[i] <= usize::MAX,
    ensures
        r@.len() == experts@.len(),
        r@[i] == layer * per_layer + experts@[i],
{
}

/// A prediction is met by the block that it was made for, and by no other; a met one is taken off.
pub proof fn law_predictions_in_turn(queue: Seq<(usize, Vec<u32>)>, slot_row: usize, union: Seq<u32>)
    ensures
        queue.len() > 0 && queue[0].0 == slot_row ==> {
            &&& unmet(queue, slot_row).len() == queue.len() - 1
            &&& hits_of(queue, slot_row, union) == (streaming::hit_count(union, queue[0].1@) as int, union.len() as int)
        },
        queue.len() == 0 || queue[0].0 != slot_row ==> unmet(queue, slot_row) == queue && hits_of(queue, slot_row, union) == (
            0int,
            0int,
        ),
{
}

/// Each block's misses, bytes, warm records, cuts, hits, predictions and reads are added to the
/// step's, each to its own count, and none of them where one would overflow.
pub proof fn law_served_counted(
    c: &mut StepCounts,
    block: Service,
    record_bytes: usize,
    warm: usize,
    hits: usize,
    total: usize,
    issued: usize,
    r: bool,
)
    requires
        call_ensures(StepCounts::served, (c, &block, record_bytes, warm, hits, total, issued), r),
        block.wf(),
    ensures
        r ==> {
            &&& final(c).misses == old(c).misses + block.need@.len()
            &&& final(c).miss_bytes == old(c).miss_bytes + block.need@.len() * record_bytes
            &&& final(c).warm == old(c).warm + warm
            &&& final(c).cut == old(c).cut + (block.plan.order@.len() - block.active)
            &&& final(c).hits == old(c).hits + hits
            &&& final(c).total == old(c).total + total
            &&& final(c).issued == old(c).issued + issued
        },
        !r ==> *final(c) == *old(c),
        old(c).misses + block.need@.len() <= usize::MAX && old(c).miss_bytes + block.need@.len() * record_bytes <= usize::MAX
            && old(c).warm + warm <= usize::MAX && old(c).cut + (block.plan.order@.len() - block.active) <= usize::MAX && old(c).hits
            + hits <= usize::MAX && old(c).total + total <= usize::MAX && old(c).issued + issued <= usize::MAX ==> r,
{
}

/// Records whose reads were in flight join the pool once, and none is left in flight.
pub proof fn law_inflight_joins(s: &mut Streaming, r: Option<Additions>)
    requires
        call_ensures(Streaming::join_inflight, (s,), r),
        old(s).wf(),
    ensures
        r is Some <==> old(s).inflight@.len() > 0,
        final(s).inflight@.len() == 0,
        final(s).pending == old(s).pending,
        final(s).predicted == old(s).predicted,
        r is None ==> final(s).pool == old(s).pool,
        old(s).pool is Copy ==> final(s).pool == old(s).pool,
{
}

/// A block has room for a prediction only of the block behind it; what was needed for it is pending,
/// and without a prediction nothing changes.
pub proof fn law_looks_ahead(
    s: &mut Streaming,
    slot_row: usize,
    ahead: Option<(usize, &[u32], &[Real32])>,
    step: u64,
    r: Result<Option<(Additions, Vec<usize>)>, (Additions, Refused)>,
)
    requires
        call_ensures(Streaming::look_ahead, (s, slot_row, ahead, step), r),
        old(s).wf(),
    ensures
        ahead is None ==> r is Ok && r->Ok_0 is None && *final(s) == *old(s),
        ahead is Some && r is Ok ==> {
            &&& r->Ok_0 is Some
            &&& final(s).predicted@.len() == old(s).predicted@.len() + 1
            &&& final(s).predicted@.last().0 == slot_row + 1
            &&& final(s).predicted@.drop_last() == old(s).predicted@
        },
        ahead is Some && r is Err ==> final(s).predicted == old(s).predicted && final(s).pending@.len() == 0,
        final(s).inflight == old(s).inflight,
{
}

} // verus!
