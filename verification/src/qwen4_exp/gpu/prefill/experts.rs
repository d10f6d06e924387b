//! Prefill expert grouping and event-protected streaming ring.
//!
//! The rows of a chunk are grouped by expert. The layer's most-used experts, up to its
//! share of the pool, become resident and stay for decode; the others stream through a
//! ring of record slots that are reused only after the device is done with the batch that
//! used them before.

use crate::number::Real32;
use crate::qwen4_exp::gpu::model::RecordLayout;
use crate::qwen4_exp::gpu::residency;
use crate::qwen4_exp::gpu::residency::copy_pool;
use crate::qwen4_exp::gpu::residency::victim;
use crate::qwen4_exp::gpu::residency::{Held, Pool, RecordBuffer, Refused};
use crate::ranking;
use crate::ranking::rank;
use vstd::prelude::*;

verus! {

/// Slots of the expert stream ring.
pub const RING: usize = 64;

/// Experts per fetch batch.
pub const GROUP: usize = 8;

/// Where an expert's record is computed from.
#[derive(Debug, Clone, Copy, PartialEq, Eq, Structural)]
pub enum ExpertSource {
    /// A pool record, read first when `fetch` is set.
    Pool { rid: usize, buffer: RecordBuffer, fetch: bool },
    /// A slot of the ring.
    Ring(u32),
}

/// One expert of a chunk and the rows that chose it.
#[derive(Debug, Clone, Copy, PartialEq, Eq, Structural)]
pub struct ExpertJob {
    pub expert: usize,
    pub csr_offset: usize,
    pub row_count: usize,
    pub source: ExpertSource,
    pub layout: RecordLayout,
}

/// The jobs of a chunk, the grouped rows and weights, and the records that left the set.
#[derive(Debug)]
pub struct ExpertJobs {
    pub jobs: Vec<ExpertJob>,
    pub csr_rows: Vec<u32>,
    pub csr_w: Vec<Real32>,
    pub evicted: Vec<usize>,
}

/// The routes among the first `n` that choose expert `e`, in order.
pub open spec fn routes(idx: Seq<u32>, e: int, n: int) -> Seq<usize>
    decreases n,
{
    if n <= 0 {
        Seq::empty()
    } else {
        let before = routes(idx, e, n - 1);
        if idx[n - 1] == e {
            before.push((n - 1) as usize)
        } else {
            before
        }
    }
}

/// The routes of the first `n` experts, one expert after the other.
pub open spec fn grouped(idx: Seq<u32>, n: int) -> Seq<usize>
    decreases n,
{
    if n <= 0 {
        Seq::empty()
    } else {
        grouped(idx, n - 1) + routes(idx, n - 1, idx.len() as int)
    }
}

/// The rows of routes when each row has `k`.
pub open spec fn rows_of(routes: Seq<usize>, k: int) -> Seq<u32> {
    routes.map_values(|p: usize| (p as int / k) as u32)
}

pub open spec fn weights_of(routes: Seq<usize>, weights: Seq<Real32>) -> Seq<Real32> {
    routes.map_values(|p: usize| weights[p as int])
}

/// Which experts no row chose.
pub open spec fn unused(idx: Seq<u32>, n: int) -> Seq<bool> {
    Seq::new(n as nat, |e: int| routes(idx, e, idx.len() as int).len() == 0)
}

/// How many rows chose each expert.
pub open spec fn uses(idx: Seq<u32>, n: int) -> Seq<i128> {
    Seq::new(n as nat, |e: int| routes(idx, e, idx.len() as int).len() as i128)
}

/// Expert `e` is among the `share` most used.
pub open spec fn among_most_used(order: Seq<usize>, share: int, e: int) -> bool {
    exists|u: int| 0 <= u < share && u < order.len() && #[trigger] order[u] == e
}

/// Where a pool record is bound, given the pool's slot pitch.
pub open spec fn bound_at(pool: Held, slot_stride: int, rid: int) -> RecordBuffer {
    match pool {
        Held::Resident { .. } => RecordBuffer::Region { rid: rid as usize },
        Held::Copy { slots, .. } => RecordBuffer::Slot { offset: (slots.rec_slot[rid]->0 * slot_stride) as usize },
    }
}

/// What governs the assignment of a chunk's experts.
pub struct Assignment {
    pub idx: Seq<u32>,
    pub rids: Seq<usize>,
    /// Experts by use, the most used first.
    pub order: Seq<usize>,
    pub share: int,
    pub step: u64,
    pub slot_stride: int,
    pub base_layout: RecordLayout,
    pub miss_layout: RecordLayout,
}

/// The jobs assigned so far.
pub struct Assigned {
    pub pool: Held,
    pub jobs: Seq<ExpertJob>,
    pub csr: int,
    pub ring: int,
    pub evicted: Seq<usize>,
    pub full: bool,
}

impl Assignment {
    pub open spec fn used(self, e: int) -> int {
        routes(self.idx, e, self.idx.len() as int).len() as int
    }

    /// Assign expert `e`: a kept or resident one is acquired and keeps its precision; any
    /// other takes the next ring slot at the miss precision.
    pub open spec fn assign(self, st: Assigned, e: int) -> Assigned {
        let rid = self.rids[e];
        if st.full || self.used(e) == 0 {
            st
        } else if among_most_used(self.order, self.share, e) || st.pool.member(rid as int) {
            let grant = st.pool.acquire(seq![rid], self.step);
            if grant.full {
                Assigned { pool: grant.pool, evicted: st.evicted + grant.evicted, full: true, ..st }
            } else {
                Assigned {
                    pool: grant.pool,
                    jobs: st.jobs.push(
                        ExpertJob {
                            expert: e as usize,
                            csr_offset: st.csr as usize,
                            row_count: self.used(e) as usize,
                            source: ExpertSource::Pool {
                                rid,
                                buffer: bound_at(grant.pool, self.slot_stride, rid as int),
                                fetch: grant.need.len() > 0,
                            },
                            layout: if grant.pool.kind_of(rid as int) == 0 {
                                self.base_layout
                            } else {
                                self.miss_layout
                            },
                        },
                    ),
                    csr: st.csr + self.used(e),
                    ring: st.ring,
                    evicted: st.evicted + grant.evicted,
                    full: false,
                }
            }
        } else {
            Assigned {
                jobs: st.jobs.push(
                    ExpertJob {
                        expert: e as usize,
                        csr_offset: st.csr as usize,
                        row_count: self.used(e) as usize,
                        source: ExpertSource::Ring((st.ring % (RING as int)) as u32),
                        layout: self.miss_layout,
                    },
                ),
                csr: st.csr + self.used(e),
                ring: st.ring + 1,
                ..st
            }
        }
    }

    /// The first `n` experts assigned in order.
    pub open spec fn assigned(self, pool: Held, n: int) -> Assigned
        decreases n,
    {
        if n <= 0 {
            Assigned { pool, jobs: Seq::empty(), csr: 0, ring: 0, evicted: Seq::empty(), full: false }
        } else {
            self.assign(self.assigned(pool, n - 1), n - 1)
        }
    }
}

/// Group the routes by expert.
fn group_routes(idx: &[u32], n_experts: usize) -> (r: Vec<Vec<usize>>)
    requires
        forall|p: int| 0 <= p < idx.len() ==> (#[trigger] idx@[p]) < n_experts,
    ensures
        r.len() == n_experts,
        forall|e: int| 0 <= e < n_experts ==> (#[trigger] r@[e])@ == routes(idx@, e, idx.len() as int),
{
    let mut lists: Vec<Vec<usize>> = Vec::new();
    let mut e: usize = 0;
    while e < n_experts
        invariant
            e <= n_experts,
            lists.len() == e,
            forall|i: int| 0 <= i < e ==> (#[trigger] lists@[i])@ == Seq::<usize>::empty(),
        decreases n_experts - e,
    {
        lists.push(Vec::new());
        e = e + 1;
    }
    let mut p: usize = 0;
    while p < idx.len()
        invariant
            p <= idx.len(),
            lists.len() == n_experts,
            forall|q: int| 0 <= q < idx.len() ==> (#[trigger] idx@[q]) < n_experts,
            forall|i: int| 0 <= i < n_experts ==> (#[trigger] lists@[i])@ == routes(idx@, i, p as int),
        decreases idx.len() - p,
    {
        let at: usize = idx[p] as usize;
        let ghost before = lists@;
        let mut list: Vec<usize> = Vec::new();
        std::mem::swap(&mut list, &mut lists[at]);
        list.push(p);
        lists.set(at, list);
        assert forall|i: int| 0 <= i < n_experts implies (#[trigger] lists@[i])@ == routes(idx@, i, p + 1) by {
            assert(before[i]@ == routes(idx@, i, p as int));
        }
        p = p + 1;
    }
    lists
}

/// A route count never passes the routes.
proof fn lemma_routes_len(idx: Seq<u32>, e: int, n: int)
    requires
        0 <= n <= idx.len(),
    ensures
        routes(idx, e, n).len() <= n,
        forall|i: int| 0 <= i < routes(idx, e, n).len() ==> (#[trigger] routes(idx, e, n)[i]) < n,
    decreases n,
{
    if n > 0 {
        lemma_routes_len(idx, e, n - 1);
    }
}

/// Group a chunk's rows by expert and reserve the resident and ring destinations. Expert
/// order, the stable ranking by use and the order of rows within an expert are kept.
/// `rids` names the record of each expert, `k` is the number of routes per row.
pub fn prepare_expert_jobs(
    pool: &mut Pool,
    rids: &[usize],
    idx: &[u32],
    weights: &[Real32],
    k: usize,
    n_record_layers: usize,
    step: u64,
    base_layout: &RecordLayout,
    miss_layout: &RecordLayout,
) -> (r: Result<ExpertJobs, Refused>)
    requires
        old(pool).wf(),
        idx.len() == weights.len(),
        0 < k,
        n_record_layers > 0,
        forall|p: int| 0 <= p < idx.len() ==> (#[trigger] idx@[p]) < rids.len(),
        forall|e: int| 0 <= e < rids.len() ==> (#[trigger] rids@[e]) < old(pool).records(),
    ensures
        final(pool).wf(),
        final(pool).same_pool(*old(pool)),
        exists|plan: Assignment|
            #![trigger assignment_of(
                plan,
                *old(pool),
                rids@,
                idx@,
                n_record_layers as int,
                step,
                *base_layout,
                *miss_layout,
            )]
            assignment_of(
                plan,
                *old(pool),
                rids@,
                idx@,
                n_record_layers as int,
                step,
                *base_layout,
                *miss_layout,
            ) && {
                let out = plan.assigned(old(pool)@, rids@.len() as int);
                &&& final(pool)@ == out.pool
                &&& r is Err <==> out.full
                &&& r matches Ok(jobs) ==> {
                    &&& jobs.jobs@ == out.jobs
                    &&& jobs.evicted@ == out.evicted
                    &&& jobs.csr_rows@ == rows_of(grouped(idx@, rids@.len() as int), k as int)
                    &&& jobs.csr_w@ == weights_of(grouped(idx@, rids@.len() as int), weights@)
                }
                &&& r matches Err(refused) ==> refused.evicted@ == out.evicted
            },
{
    let n: usize = rids.len();
    let lists: Vec<Vec<usize>> = group_routes(idx, n);
    let share: usize = pool.budget() / n_record_layers;
    let mut empty: Vec<bool> = Vec::new();
    let mut keys: Vec<i128> = Vec::new();
    let mut e: usize = 0;
    while e < n
        invariant
            e <= n,
            n == rids.len(),
            lists.len() == n,
            forall|i: int| 0 <= i < n ==> (#[trigger] lists@[i])@ == routes(idx@, i, idx.len() as int),
            empty@ == unused(idx@, e as int),
            keys@ == uses(idx@, e as int),
        decreases n - e,
    {
        assert(lists@[e as int]@ == routes(idx@, e as int, idx.len() as int));
        let count: usize = lists[e].len();
        empty.push(count == 0);
        keys.push(count as i128);
        assert(empty@ =~= unused(idx@, e + 1));
        assert(keys@ =~= uses(idx@, e + 1));
        e = e + 1;
    }
    let order: Vec<usize> = rank(empty.as_slice(), keys.as_slice());
    let mut keep: Vec<bool> = vec![false; n];
    let mut u: usize = 0;
    while u < order.len() && u < share
        invariant
            u <= order.len(),
            u <= share,
            order.len() == n,
            keep.len() == n,
            forall|i: int| 0 <= i < order.len() ==> (#[trigger] order@[i]) < n,
            forall|i: int| 0 <= i < n ==> #[trigger] keep@[i] == among_most_used(order@, u as int, i),
        decreases order.len() - u,
    {
        let at: usize = order[u];
        let ghost before = keep@;
        keep.set(at, true);
        proof {
            assert forall|i: int| 0 <= i < n implies #[trigger] keep@[i] == among_most_used(order@, u + 1, i) by {
                assert(before[i] == among_most_used(order@, u as int, i));
                if i == at {
                    assert(order@[u as int] == i);
                } else if among_most_used(order@, u + 1, i) {
                    let w = choose|w: int| 0 <= w < u + 1 && w < order@.len() && #[trigger] order@[w] == i;
                    assert(w < u);
                    assert(order@[w] == i);
                }
                if before[i] {
                    let w = choose|w: int| 0 <= w < u && w < order@.len() && #[trigger] order@[w] == i;
                    assert(order@[w] == i);
                }
            }
        }
        u = u + 1;
    }
    proof {
        assert forall|i: int| 0 <= i < n implies #[trigger] keep@[i] == among_most_used(order@, share as int, i) by {
            assert(keep@[i] == among_most_used(order@, u as int, i));
            if among_most_used(order@, share as int, i) {
                let w = choose|w: int| 0 <= w < share && w < order@.len() && #[trigger] order@[w] == i;
                assert(order@[w] == i && w < u);
            }
            if among_most_used(order@, u as int, i) {
                let w = choose|w: int| 0 <= w < u && w < order@.len() && #[trigger] order@[w] == i;
                assert(order@[w] == i);
            }
        }
    }
    let ghost start = *pool;
    let ghost plan = Assignment {
        idx: idx@,
        rids: rids@,
        order: order@,
        share: share as int,
        step,
        slot_stride: pitch(start),
        base_layout: *base_layout,
        miss_layout: *miss_layout,
    };
    assert(assignment_of(plan, start, rids@, idx@, n_record_layers as int, step, *base_layout, *miss_layout));
    let mut csr_rows: Vec<u32> = Vec::new();
    let mut csr_w: Vec<Real32> = Vec::new();
    let mut jobs: Vec<ExpertJob> = Vec::new();
    let mut evicted: Vec<usize> = Vec::new();
    let mut ring: usize = 0;
    let mut x: usize = 0;
    while x < n
        invariant
            x <= n,
            n == rids.len(),
            ring <= x,
            0 < k,
            idx.len() == weights.len(),
            lists.len() == n,
            keep.len() == n,
            pool.wf(),
            start == *old(pool),
            pool.same_pool(start),
            pool.records() == start.records(),
            plan.idx == idx@,
            plan.rids == rids@,
            plan.order == order@,
            plan.share == share,
            plan.step == step,
            plan.slot_stride == pitch(start),
            plan.base_layout == *base_layout,
            plan.miss_layout == *miss_layout,
            assignment_of(plan, start, rids@, idx@, n_record_layers as int, step, *base_layout, *miss_layout),
            forall|i: int| 0 <= i < n ==> (#[trigger] lists@[i])@ == routes(idx@, i, idx.len() as int),
            forall|i: int| 0 <= i < n ==> #[trigger] keep@[i] == among_most_used(order@, share as int, i),
            forall|i: int| 0 <= i < n ==> (#[trigger] rids@[i]) < start.records(),
            !plan.assigned(start@, x as int).full,
            pool@ == plan.assigned(start@, x as int).pool,
            jobs@ == plan.assigned(start@, x as int).jobs,
            evicted@ == plan.assigned(start@, x as int).evicted,
            ring == plan.assigned(start@, x as int).ring,
            csr_rows.len() == plan.assigned(start@, x as int).csr,
            csr_rows@ == rows_of(grouped(idx@, x as int), k as int),
            csr_w@ == weights_of(grouped(idx@, x as int), weights@),
        decreases n - x,
    {
        let count: usize = lists[x].len();
        let rid: usize = rids[x];
        let ghost before = plan.assigned(start@, x as int);
        assert(lists@[x as int]@ == routes(idx@, x as int, idx.len() as int));
        assert(rids@[x as int] < start.records());
        proof {
            lemma_routes_len(idx@, x as int, idx.len() as int);
        }
        let csr_offset: usize = csr_rows.len();
        let ghost rows_before = csr_rows@;
        let ghost weights_before = csr_w@;
        let mut i: usize = 0;
        while i < count
            invariant
                i <= count,
                count == lists@[x as int]@.len(),
                x < lists.len(),
                0 < k,
                idx.len() == weights.len(),
                forall|q: int| 0 <= q < count ==> (#[trigger] lists@[x as int]@[q]) < idx.len(),
                csr_rows@ == rows_before + rows_of(lists@[x as int]@.take(i as int), k as int),
                csr_w@ == weights_before + weights_of(lists@[x as int]@.take(i as int), weights@),
            decreases count - i,
        {
            let p: usize = lists[x][i];
            assert(lists@[x as int]@[i as int] < idx.len());
            csr_rows.push((p / k) as u32);
            csr_w.push(weights[p]);
            assert(csr_rows@ =~= rows_before + rows_of(lists@[x as int]@.take(i + 1), k as int));
            assert(csr_w@ =~= weights_before + weights_of(lists@[x as int]@.take(i + 1), weights@));
            i = i + 1;
        }
        proof {
            let all = lists@[x as int]@;
            assert(all.take(count as int) =~= all);
            assert(rows_of(grouped(idx@, x + 1), k as int) =~= rows_before + rows_of(all, k as int));
            assert(weights_of(grouped(idx@, x + 1), weights@) =~= weights_before + weights_of(all, weights@));
        }
        if count > 0 {
            let kept: bool = keep[x] || pool.is_member(rid);
            if kept {
                let one: [usize; 1] = [rid];
                assert(one@ =~= seq![rid]);
                match pool.acquire(&one, step) {
                    Ok(granted) => {
                        proof {
                            lemma_acquired_usable(before.pool, rid, step);
                        }
                        let buffer: RecordBuffer = pool.buf(rid);
                        let fetch: bool = granted.need.len() > 0;
                        let layout: RecordLayout = if pool.kind(rid) == 0 { *base_layout } else { *miss_layout };
                        jobs.push(
                            ExpertJob {
                                expert: x,
                                csr_offset,
                                row_count: count,
                                source: ExpertSource::Pool { rid, buffer, fetch },
                                layout,
                            },
                        );
                        extend(&mut evicted, &granted.evicted);
                    },
                    Err(refused) => {
                        extend(&mut evicted, &refused.evicted);
                        proof {
                            lemma_full_stays(plan, start@, x + 1, n as int);
                        }
                        return Err(Refused { error: refused.error, evicted });
                    },
                }
            } else {
                let slot: u32 = (ring % RING) as u32;
                ring = ring + 1;
                jobs.push(
                    ExpertJob {
                        expert: x,
                        csr_offset,
                        row_count: count,
                        source: ExpertSource::Ring(slot),
                        layout: *miss_layout,
                    },
                );
            }
        }
        x = x + 1;
    }
    Ok(ExpertJobs { jobs, csr_rows, csr_w, evicted })
}

fn extend(list: &mut Vec<usize>, more: &Vec<usize>)
    ensures
        final(list)@ == old(list)@ + more@,
{
    let ghost start = list@;
    let mut i: usize = 0;
    while i < more.len()
        invariant
            i <= more.len(),
            list@ == start + more@.take(i as int),
        decreases more.len() - i,
    {
        list.push(more[i]);
        assert(list@ =~= start + more@.take(i + 1));
        i = i + 1;
    }
    assert(more@.take(i as int) =~= more@);
}

/// The pitch of a pool's slots.
pub open spec fn pitch(pool: Pool) -> int {
    match pool {
        Pool::Resident(_) => 0,
        Pool::Copy(c) => c.slot_stride as int,
    }
}

/// `plan` is the assignment of a chunk: experts are ranked by use, and the layer's share of
/// the pool is its budget over the layers with records.
pub open spec fn assignment_of(
    plan: Assignment,
    pool: Pool,
    rids: Seq<usize>,
    idx: Seq<u32>,
    n_record_layers: int,
    step: u64,
    base_layout: RecordLayout,
    miss_layout: RecordLayout,
) -> bool {
    &&& plan.idx == idx
    &&& plan.rids == rids
    &&& plan.step == step
    &&& plan.slot_stride == pitch(pool)
    &&& plan.base_layout == base_layout
    &&& plan.miss_layout == miss_layout
    &&& plan.share == pool_budget(pool) / n_record_layers
    &&& ranking::is_ranking(unused(idx, rids.len() as int), uses(idx, rids.len() as int), plan.order)
}

pub open spec fn pool_budget(pool: Pool) -> int {
    match pool {
        Pool::Resident(s) => s.budget as int,
        Pool::Copy(c) => c.budget as int,
    }
}

proof fn lemma_full_stays(plan: Assignment, pool: Held, n: int, m: int)
    requires
        0 <= n <= m,
        plan.assigned(pool, n).full,
    ensures
        plan.assigned(pool, m) == plan.assigned(pool, n),
    decreases m - n,
{
    if n < m {
        lemma_full_stays(plan, pool, n, m - 1);
    }
}

/// A granted record of a copy pool has a slot.
proof fn lemma_acquired_usable(pool: Held, rid: usize, step: u64)
    requires
        pool matches Held::Copy { slots, .. } ==> rid < slots.rec_slot.len() && slots.wf(),
        !pool.acquire(seq![rid], step).full,
    ensures
        pool is Copy ==> pool.acquire(seq![rid], step).pool.member(rid as int),
{
    if let Held::Copy { slots, default_kind } = pool {
        let one = seq![rid];
        assert(one.drop_last() =~= Seq::<usize>::empty());
        assert(one.last() == rid);
        let none = copy_pool::acquired(slots, one.drop_last(), step, default_kind);
        assert(none.slots == slots && !none.full);
        let out = copy_pool::acquired(slots, one, step, default_kind);
        if slots.resident(rid as int) {
            assert(out.slots == slots.touch(rid as int, step));
        } else {
            victim::lemma_victim_exists(slots.slot_used, step);
            let v = victim::victim(slots.slot_used, step);
            assert(out.slots == slots.take(rid as int, v, step, default_kind));
            assert(out.slots.rec_slot[rid as int] == Some(v as usize));
        }
    }
}

// ---- the grouped rows ----
/// Every route is grouped with its expert's.
pub proof fn law_grouped_holds_every_route(idx: Seq<u32>, n: int, p: int)
    requires
        0 <= p < idx.len() <= usize::MAX,
        idx[p] < n,
    ensures
        grouped(idx, n).contains(p as usize),
    decreases n,
{
    let e = idx[p] as int;
    let last = routes(idx, n - 1, idx.len() as int);
    let before = grouped(idx, n - 1);
    if e == n - 1 {
        lemma_routes_hold(idx, e, idx.len() as int, p);
        let i = choose|i: int| 0 <= i < last.len() && last[i] == p as usize;
        assert((before + last)[before.len() + i] == p as usize);
    } else {
        law_grouped_holds_every_route(idx, n - 1, p);
        let i = choose|i: int| 0 <= i < before.len() && before[i] == p as usize;
        assert((before + last)[i] == p as usize);
    }
}

proof fn lemma_routes_hold(idx: Seq<u32>, e: int, n: int, p: int)
    requires
        0 <= p < n <= idx.len(),
        idx[p] == e,
    ensures
        routes(idx, e, n).contains(p as usize),
    decreases n,
{
    let before = routes(idx, e, n - 1);
    let all = routes(idx, e, n);
    if p == n - 1 {
        assert(all[all.len() - 1] == p as usize);
    } else {
        lemma_routes_hold(idx, e, n - 1, p);
        let i = choose|i: int| 0 <= i < before.len() && before[i] == p as usize;
        assert(all[i] == p as usize);
    }
}

/// The jobs so far hold the grouped rows of their experts.
pub open spec fn job_rows(plan: Assignment, jobs: Seq<ExpertJob>, n: int) -> bool {
    forall|i: int|
        0 <= i < jobs.len() ==> {
            let job = #[trigger] jobs[i];
            &&& job.expert < n
            &&& job.csr_offset + job.row_count <= grouped(plan.idx, n).len()
            &&& grouped(plan.idx, n).subrange(
                job.csr_offset as int,
                job.csr_offset + job.row_count,
            ) == routes(plan.idx, job.expert as int, plan.idx.len() as int)
        }
}

/// A job's part of the grouped rows is exactly the rows that chose its expert.
pub proof fn law_jobs_hold_their_rows(plan: Assignment, pool: Held, n: int)
    requires
        0 <= n <= usize::MAX,
        grouped(plan.idx, n).len() <= usize::MAX,
    ensures
        job_rows(plan, plan.assigned(pool, n).jobs, n),
        !plan.assigned(pool, n).full ==> plan.assigned(pool, n).csr == grouped(plan.idx, n).len(),
        0 <= plan.assigned(pool, n).csr <= grouped(plan.idx, n).len(),
    decreases n,
{
    if n > 0 {
        law_jobs_hold_their_rows(plan, pool, n - 1);
        let st = plan.assigned(pool, n - 1);
        let before = st.jobs;
        let after = plan.assigned(pool, n).jobs;
        let old_rows = grouped(plan.idx, n - 1);
        let last = routes(plan.idx, n - 1, plan.idx.len() as int);
        let rows = grouped(plan.idx, n);
        assert(rows =~= old_rows + last);
        assert forall|i: int| 0 <= i < after.len() implies {
            let job = #[trigger] after[i];
            &&& job.expert < n
            &&& job.csr_offset + job.row_count <= rows.len()
            &&& rows.subrange(job.csr_offset as int, job.csr_offset + job.row_count) == routes(
                plan.idx,
                job.expert as int,
                plan.idx.len() as int,
            )
        } by {
            let job = after[i];
            if i < before.len() {
                assert(job == before[i]);
                assert(rows.subrange(job.csr_offset as int, job.csr_offset + job.row_count) =~= old_rows.subrange(
                    job.csr_offset as int,
                    job.csr_offset + job.row_count,
                ));
            } else {
                assert(job.csr_offset == old_rows.len());
                assert(rows.subrange(job.csr_offset as int, job.csr_offset + job.row_count) =~= last);
            }
        }
    }
}

proof fn lemma_routes_choose(idx: Seq<u32>, e: int, n: int)
    requires
        0 <= n <= idx.len() <= usize::MAX,
    ensures
        forall|i: int|
            0 <= i < routes(idx, e, n).len() ==> (#[trigger] routes(idx, e, n)[i]) < n && idx[routes(idx, e, n)[i] as int]
                == e,
        forall|i: int, j: int|
            0 <= i < j < routes(idx, e, n).len() ==> (#[trigger] routes(idx, e, n)[i]) < (#[trigger] routes(
                idx,
                e,
                n,
            )[j]),
    decreases n,
{
    if n > 0 {
        lemma_routes_choose(idx, e, n - 1);
        let before = routes(idx, e, n - 1);
        let all = routes(idx, e, n);
        assert forall|i: int| 0 <= i < all.len() implies (#[trigger] all[i]) < n && idx[all[i] as int] == e by {
            if i < before.len() {
                assert(all[i] == before[i]);
            }
        }
        assert forall|i: int, j: int| 0 <= i < j < all.len() implies (#[trigger] all[i]) < (#[trigger] all[j]) by {
            assert(all[i] == before[i]);
            if j < before.len() {
                assert(all[j] == before[j]);
            }
        }
    }
}

proof fn lemma_grouped_permutes(idx: Seq<u32>, n: int)
    requires
        0 <= n,
        idx.len() <= usize::MAX,
    ensures
        forall|c: int|
            0 <= c < grouped(idx, n).len() ==> (#[trigger] grouped(idx, n)[c]) < idx.len() && idx[grouped(
                idx,
                n,
            )[c] as int] < n,
        forall|c: int, d: int|
            0 <= c < d < grouped(idx, n).len() ==> #[trigger] grouped(idx, n)[c] != #[trigger] grouped(idx, n)[d],
    decreases n,
{
    if n > 0 {
        lemma_grouped_permutes(idx, n - 1);
        lemma_routes_choose(idx, n - 1, idx.len() as int);
        let before = grouped(idx, n - 1);
        let last = routes(idx, n - 1, idx.len() as int);
        let all = grouped(idx, n);
        assert(all == before + last);
        assert forall|c: int| 0 <= c < all.len() implies (#[trigger] all[c]) < idx.len() && idx[all[c] as int] < n by {
            if c < before.len() {
                assert(all[c] == before[c]);
            } else {
                assert(all[c] == last[c - before.len()]);
            }
        }
        assert forall|c: int, d: int| 0 <= c < d < all.len() implies #[trigger] all[c] != #[trigger] all[d] by {
            if d < before.len() {
                assert(all[c] == before[c] && all[d] == before[d]);
            } else {
                assert(all[d] == last[d - before.len()]);
                if c < before.len() {
                    assert(all[c] == before[c]);
                    assert(idx[before[c] as int] < n - 1);
                } else {
                    assert(all[c] == last[c - before.len()]);
                }
            }
        }
    }
}

proof fn lemma_grouped_count(idx: Seq<u32>, n: int)
    requires
        0 <= n,
        idx.len() <= usize::MAX,
        forall|p: int| 0 <= p < idx.len() ==> (#[trigger] idx[p]) < n,
    ensures
        grouped(idx, n).len() == idx.len(),
{
    let all = grouped(idx, n);
    lemma_grouped_permutes(idx, n);
    let places = Seq::new(idx.len(), |p: int| p as usize);
    assert forall|x: usize| #[trigger] all.contains(x) <==> places.contains(x) by {
        if all.contains(x) {
            let c = choose|c: int| 0 <= c < all.len() && all[c] == x;
            assert(places[x as int] == x);
        }
        if places.contains(x) {
            let p = choose|p: int| 0 <= p < places.len() && places[p] == x;
            assert(idx[p] < n);
            law_grouped_holds_every_route(idx, n, p);
        }
    }
    assert(all.no_duplicates());
    assert(places.no_duplicates());
    all.unique_seq_to_set();
    places.unique_seq_to_set();
    assert(all.to_set() =~= places.to_set()) by {
        assert forall|x: usize| #[trigger] all.to_set().contains(x) <==> places.to_set().contains(x) by {
            assert(all.contains(x) <==> places.contains(x));
        }
    }
}

/// There is a job for an expert exactly where a row chose it, and jobs go by expert.
proof fn lemma_jobs_of_used(plan: Assignment, pool: Held, n: int)
    requires
        0 <= n <= usize::MAX,
        !plan.assigned(pool, n).full,
    ensures
        ({
            let jobs = plan.assigned(pool, n).jobs;
            &&& forall|i: int| 0 <= i < jobs.len() ==> (#[trigger] jobs[i]).expert < n && plan.used(
                jobs[i].expert as int,
            ) > 0
            &&& forall|i: int, j: int|
                0 <= i < j < jobs.len() ==> (#[trigger] jobs[i]).expert < (#[trigger] jobs[j]).expert
            &&& forall|e: int|
                0 <= e < n && #[trigger] plan.used(e) > 0 ==> exists|i: int|
                    0 <= i < jobs.len() && (#[trigger] jobs[i]).expert == e
        }),
    decreases n,
{
    if n > 0 {
        lemma_jobs_of_used(plan, pool, n - 1);
        let before = plan.assigned(pool, n - 1).jobs;
        let jobs = plan.assigned(pool, n).jobs;
        if plan.used(n - 1) == 0 {
            assert(jobs == before);
        } else {
            assert(jobs.drop_last() =~= before);
            assert(jobs.last().expert == n - 1);
        }
        assert forall|e: int| 0 <= e < n && #[trigger] plan.used(e) > 0 implies exists|i: int|
            0 <= i < jobs.len() && (#[trigger] jobs[i]).expert == e by {
            if e < n - 1 {
                let i = choose|i: int| 0 <= i < before.len() && (#[trigger] before[i]).expert == e;
                assert(jobs[i] == before[i]);
            } else {
                assert(jobs[jobs.len() - 1].expert == e);
            }
        }
    }
}

/// Every route of a chunk is computed once, by the job of its expert, for its own row and with
/// its own weight. Route `p` is the choice of row `p / k`. There is a place for each route and
/// no other place, no two routes share one, and the routes of an expert stay in their order.
pub proof fn law_routes_keep_their_weights(
    plan: Assignment,
    pool: Held,
    weights: Seq<Real32>,
    k: int,
    jobs: ExpertJobs,
) -> (at: Seq<int>)
    requires
        k > 0,
        plan.idx.len() == weights.len(),
        plan.idx.len() <= usize::MAX,
        plan.rids.len() <= usize::MAX,
        forall|p: int| 0 <= p < plan.idx.len() ==> (#[trigger] plan.idx[p]) < plan.rids.len(),
        !plan.assigned(pool, plan.rids.len() as int).full,
        jobs.jobs@ == plan.assigned(pool, plan.rids.len() as int).jobs,
        jobs.csr_rows@ == rows_of(grouped(plan.idx, plan.rids.len() as int), k),
        jobs.csr_w@ == weights_of(grouped(plan.idx, plan.rids.len() as int), weights),
    ensures
        jobs.csr_rows@.len() == plan.idx.len(),
        jobs.csr_w@.len() == plan.idx.len(),
        at.len() == plan.idx.len(),
        forall|p: int|
            0 <= p < plan.idx.len() ==> {
                &&& 0 <= (#[trigger] at[p]) < plan.idx.len()
                &&& jobs.csr_rows@[at[p]] == (p / k) as u32
                &&& jobs.csr_w@[at[p]] == weights[p]
                &&& exists|j: int|
                    0 <= j < jobs.jobs@.len() && (#[trigger] jobs.jobs@[j]).expert == plan.idx[p]
                        && jobs.jobs@[j].csr_offset <= at[p] < jobs.jobs@[j].csr_offset + jobs.jobs@[j].row_count
            },
        forall|p: int, q: int|
            0 <= p < q < plan.idx.len() ==> #[trigger] at[p] != #[trigger] at[q] && (plan.idx[p] == plan.idx[q]
                ==> at[p] < at[q]),
        forall|i: int, j: int|
            0 <= i < j < jobs.jobs@.len() ==> (#[trigger] jobs.jobs@[i]).expert < (#[trigger] jobs.jobs@[j]).expert,
{
    let n = plan.rids.len() as int;
    let idx = plan.idx;
    let all = grouped(idx, n);
    lemma_grouped_permutes(idx, n);
    lemma_grouped_count(idx, n);
    lemma_jobs_of_used(plan, pool, n);
    law_jobs_hold_their_rows(plan, pool, n);
    let at = Seq::new(idx.len(), |p: int| all.index_of(p as usize));
    assert forall|p: int| 0 <= p < idx.len() implies 0 <= (#[trigger] at[p]) < all.len() && all[at[p]] == p by {
        assert(idx[p] < n);
        law_grouped_holds_every_route(idx, n, p);
    }
    assert forall|p: int| 0 <= p < idx.len() implies {
        &&& 0 <= (#[trigger] at[p]) < idx.len()
        &&& jobs.csr_rows@[at[p]] == (p / k) as u32
        &&& jobs.csr_w@[at[p]] == weights[p]
        &&& exists|j: int|
            0 <= j < jobs.jobs@.len() && (#[trigger] jobs.jobs@[j]).expert == idx[p] && jobs.jobs@[j].csr_offset <= at[p]
                < jobs.jobs@[j].csr_offset + jobs.jobs@[j].row_count
    } by {
        let e = idx[p] as int;
        lemma_routes_hold(idx, e, idx.len() as int, p);
        let own = routes(idx, e, idx.len() as int);
        let i = choose|i: int| 0 <= i < own.len() && own[i] == p as usize;
        assert(plan.used(e) > 0);
        let j = choose|j: int| 0 <= j < jobs.jobs@.len() && (#[trigger] jobs.jobs@[j]).expert == e;
        let job = jobs.jobs@[j];
        let part = all.subrange(job.csr_offset as int, job.csr_offset + job.row_count);
        assert(part == own);
        assert(part[i] == all[job.csr_offset + i]);
        if at[p] < job.csr_offset + i {
            assert(all[at[p]] != all[job.csr_offset + i]);
        } else if at[p] > job.csr_offset + i {
            assert(all[job.csr_offset + i] != all[at[p]]);
        }
    }
    assert forall|p: int, q: int| 0 <= p < q < idx.len() implies #[trigger] at[p] != #[trigger] at[q] && (idx[p] == idx[q]
        ==> at[p] < at[q]) by {
        assert(all[at[p]] == p && all[at[q]] == q);
        if idx[p] == idx[q] {
            let e = idx[p] as int;
            let own = routes(idx, e, idx.len() as int);
            lemma_routes_choose(idx, e, idx.len() as int);
            let j = choose|j: int|
                0 <= j < jobs.jobs@.len() && (#[trigger] jobs.jobs@[j]).expert == idx[p] && jobs.jobs@[j].csr_offset
                    <= at[p] < jobs.jobs@[j].csr_offset + jobs.jobs@[j].row_count;
            let i = choose|i: int|
                0 <= i < jobs.jobs@.len() && (#[trigger] jobs.jobs@[i]).expert == idx[q] && jobs.jobs@[i].csr_offset
                    <= at[q] < jobs.jobs@[i].csr_offset + jobs.jobs@[i].row_count;
            if i < j {
                assert(jobs.jobs@[i].expert < jobs.jobs@[j].expert);
            } else if j < i {
                assert(jobs.jobs@[j].expert < jobs.jobs@[i].expert);
            }
            let job = jobs.jobs@[j];
            let part = all.subrange(job.csr_offset as int, job.csr_offset + job.row_count);
            assert(part == own);
            assert(part[at[p] - job.csr_offset] == all[at[p]]);
            assert(part[at[q] - job.csr_offset] == all[at[q]]);
            if at[q] < at[p] {
                assert(own[at[q] - job.csr_offset] < own[at[p] - job.csr_offset]);
            }
        }
    }
    at
}

/// A record that a pool holds already is not asked for again.
proof fn lemma_member_not_needed(pool: Held, rid: usize, step: u64)
    requires
        pool.member(rid as int),
    ensures
        pool.acquire(seq![rid], step).need.len() == 0,
{
    let one = seq![rid];
    assert(one.drop_last() =~= Seq::<usize>::empty());
    assert(one.last() == rid);
    match pool {
        Held::Resident { members, budget } => {
            let start = members.lapsed(step);
            assert(residency::set::reserved(start, budget, one.drop_last(), step).members == start);
            assert(start.touch(rid as int, step).members.contains(rid));
        },
        Held::Copy { slots, default_kind } => {
            assert(copy_pool::acquired(slots, one.drop_last(), step, default_kind).slots == slots);
        },
    }
}

/// What each of the first jobs is.
proof fn lemma_job_sources(plan: Assignment, pool: Held, n: int)
    requires
        0 <= n <= usize::MAX,
        n <= plan.rids.len(),
    ensures
        ({
            let jobs = plan.assigned(pool, n).jobs;
            forall|i: int|
                0 <= i < jobs.len() ==> {
                    let job = #[trigger] jobs[i];
                    &&& job.expert < n
                    &&& job.source is Ring ==> !among_most_used(plan.order, plan.share, job.expert as int)
                    &&& job.source is Ring ==> job.layout == plan.miss_layout
                    &&& job.source matches ExpertSource::Pool { rid, fetch, .. } ==> rid == plan.rids[job.expert as int]
                        && (fetch ==> among_most_used(plan.order, plan.share, job.expert as int))
                }
        }),
    decreases n,
{
    if n > 0 {
        lemma_job_sources(plan, pool, n - 1);
        let st = plan.assigned(pool, n - 1);
        let before = st.jobs;
        let jobs = plan.assigned(pool, n).jobs;
        let rid = plan.rids[n - 1];
        if st.pool.member(rid as int) {
            lemma_member_not_needed(st.pool, rid, plan.step);
        }
        assert forall|i: int| 0 <= i < jobs.len() implies {
            let job = #[trigger] jobs[i];
            &&& job.expert < n
            &&& job.source is Ring ==> !among_most_used(plan.order, plan.share, job.expert as int)
            &&& job.source is Ring ==> job.layout == plan.miss_layout
            &&& job.source matches ExpertSource::Pool { rid, fetch, .. } ==> rid == plan.rids[job.expert as int] && (
            fetch ==> among_most_used(plan.order, plan.share, job.expert as int))
        } by {
            if i < before.len() {
                assert(jobs[i] == before[i]);
            }
        }
    }
}

/// How many routes among the first `n` choose an expert.
pub open spec fn choices(idx: Seq<u32>, e: int, n: int) -> nat
    decreases n,
{
    if n <= 0 {
        0
    } else {
        choices(idx, e, n - 1) + if idx[n - 1] == e {
            1nat
        } else {
            0
        }
    }
}

proof fn lemma_choices(idx: Seq<u32>, e: int, n: int)
    requires
        0 <= n <= idx.len(),
    ensures
        routes(idx, e, n).len() == choices(idx, e, n),
    decreases n,
{
    if n > 0 {
        lemma_choices(idx, e, n - 1);
    }
}

/// The most used experts of a layer stay in the pool, as many as its share of the budget, and
/// the others are streamed: an expert that goes through the ring has that many experts before
/// it, each chosen more often, or as often under a lower number; and what is read into the pool
/// comes before what is streamed. A pool job reads the record of its expert.
pub proof fn law_most_used_stay(
    plan: Assignment,
    pool: Pool,
    rids: Seq<usize>,
    idx: Seq<u32>,
    n_record_layers: int,
    step: u64,
    base_layout: RecordLayout,
    miss_layout: RecordLayout,
    streamed: int,
    other: int,
) -> (before: Seq<int>)
    requires
        assignment_of(plan, pool, rids, idx, n_record_layers, step, base_layout, miss_layout),
        rids.len() <= usize::MAX,
        idx.len() <= i128::MAX,
        n_record_layers > 0,
        ({
            let jobs = plan.assigned(pool@, rids.len() as int).jobs;
            &&& 0 <= streamed < jobs.len()
            &&& jobs[streamed].source is Ring
            &&& 0 <= other < jobs.len()
        }),
    ensures
        ({
            let jobs = plan.assigned(pool@, rids.len() as int).jobs;
            let e = jobs[streamed].expert as int;
            let f = jobs[other].expert as int;
            let uses = |x: int| choices(idx, x, idx.len() as int);
            &&& before.len() == match pool {
                Pool::Resident(s) => s.budget as int / n_record_layers,
                Pool::Copy(c) => c.budget as int / n_record_layers,
            }
            &&& forall|i: int|
                0 <= i < before.len() ==> 0 <= (#[trigger] before[i]) < rids.len() && (uses(before[i]) > uses(e) || (uses(
                    before[i],
                ) == uses(e) && before[i] < e))
            &&& forall|i: int, j: int| 0 <= i < j < before.len() ==> #[trigger] before[i] != #[trigger] before[j]
            &&& jobs[streamed].layout == miss_layout
            &&& jobs[other].source matches ExpertSource::Pool { rid, fetch, .. } ==> rid == rids[f] && (fetch ==> uses(f)
                > uses(e) || (uses(f) == uses(e) && f < e))
        }),
{
    let n = rids.len() as int;
    let jobs = plan.assigned(pool@, n).jobs;
    let e = jobs[streamed].expert as int;
    let f = jobs[other].expert as int;
    lemma_job_sources(plan, pool@, n);
    lemma_used_jobs(plan, pool@, n, streamed);
    let (group, key, order) = (unused(idx, n), uses(idx, n), plan.order);
    assert(order.contains(e as usize));
    let at = choose|u: int| 0 <= u < order.len() && order[u] == e as usize;
    let share = plan.share;
    assert(share >= 0) by {
        vstd::arithmetic::div_mod::lemma_div_pos_is_pos(pool_budget(pool), n_record_layers);
    }
    assert(at >= share) by {
        if at < share {
            assert(order[at] == e);
            assert(among_most_used(order, share, e));
        }
    }
    lemma_choices(idx, e, idx.len() as int);
    lemma_routes_len(idx, e, idx.len() as int);
    let before = Seq::new(share as nat, |u: int| order[u] as int);
    assert forall|i: int| 0 <= i < before.len() implies 0 <= (#[trigger] before[i]) < n && (choices(
        idx,
        before[i],
        idx.len() as int,
    ) > choices(idx, e, idx.len() as int) || (choices(idx, before[i], idx.len() as int) == choices(
        idx,
        e,
        idx.len() as int,
    ) && before[i] < e)) by {
        assert(order[i] < n);
        assert(ranking::ahead(group, key, order[i] as int, order[at] as int));
        lemma_choices(idx, before[i], idx.len() as int);
        lemma_routes_len(idx, before[i], idx.len() as int);
        assert(!group[e]);
    }
    assert forall|i: int, j: int| 0 <= i < j < before.len() implies #[trigger] before[i] != #[trigger] before[j] by {
        assert(ranking::ahead(group, key, order[i] as int, order[j] as int));
    }
    if let ExpertSource::Pool { rid, fetch, .. } = jobs[other].source {
        if fetch {
            let u = choose|u: int| 0 <= u < share && u < order.len() && #[trigger] order[u] == f;
            assert(ranking::ahead(group, key, order[u] as int, order[at] as int));
            lemma_choices(idx, f, idx.len() as int);
            lemma_routes_len(idx, f, idx.len() as int);
            assert(!group[e]);
        }
    }
    before
}

/// A job's expert was chosen.
proof fn lemma_used_jobs(plan: Assignment, pool: Held, n: int, i: int)
    requires
        0 <= n <= usize::MAX,
        0 <= i < plan.assigned(pool, n).jobs.len(),
    ensures
        plan.used(plan.assigned(pool, n).jobs[i].expert as int) > 0,
    decreases n,
{
    let before = plan.assigned(pool, n - 1).jobs;
    if i < before.len() {
        lemma_used_jobs(plan, pool, n - 1, i);
    }
}

// ---- the ring ----
/// The ring jobs among the first `n`.
pub open spec fn ring_jobs(jobs: Seq<ExpertJob>, n: int) -> nat
    decreases n,
{
    if n <= 0 {
        0
    } else {
        ring_jobs(jobs, n - 1) + if jobs[n - 1].source is Ring {
            1nat
        } else {
            0nat
        }
    }
}

proof fn lemma_ring_jobs_grow(jobs: Seq<ExpertJob>, i: int, j: int)
    requires
        0 <= i <= j,
    ensures
        ring_jobs(jobs, i) <= ring_jobs(jobs, j) <= ring_jobs(jobs, i) + (j - i),
    decreases j - i,
{
    if i < j {
        lemma_ring_jobs_grow(jobs, i, j - 1);
    }
}

proof fn lemma_ring_jobs_prefix(a: Seq<ExpertJob>, b: Seq<ExpertJob>, n: int)
    requires
        0 <= n <= a.len(),
        n <= b.len(),
        forall|i: int| 0 <= i < n ==> a[i] == b[i],
    ensures
        ring_jobs(a, n) == ring_jobs(b, n),
    decreases n,
{
    if n > 0 {
        lemma_ring_jobs_prefix(a, b, n - 1);
    }
}

/// Each ring job has the slot of its turn.
pub open spec fn slots_in_turn(jobs: Seq<ExpertJob>) -> bool {
    forall|i: int|
        0 <= i < jobs.len() && (#[trigger] jobs[i]).source is Ring ==> jobs[i].source == ExpertSource::Ring(
            (ring_jobs(jobs, i) as int % (RING as int)) as u32,
        )
}

/// A chunk's ring slots are taken in turn.
pub proof fn law_ring_slots_in_turn(plan: Assignment, pool: Held, n: int)
    requires
        n >= 0,
    ensures
        slots_in_turn(plan.assigned(pool, n).jobs),
        plan.assigned(pool, n).ring == ring_jobs(
            plan.assigned(pool, n).jobs,
            plan.assigned(pool, n).jobs.len() as int,
        ),
    decreases n,
{
    if n > 0 {
        law_ring_slots_in_turn(plan, pool, n - 1);
        let before = plan.assigned(pool, n - 1).jobs;
        let after = plan.assigned(pool, n).jobs;
        if after != before {
            assert(after.drop_last() =~= before);
            assert forall|i: int| 0 <= i < after.len() && (#[trigger] after[i]).source is Ring implies after[i].source
                == ExpertSource::Ring((ring_jobs(after, i) as int % (RING as int)) as u32) by {
                lemma_ring_jobs_prefix(after, before, i);
                if i < before.len() {
                    assert(after[i] == before[i]);
                }
            }
            lemma_ring_jobs_prefix(after, before, before.len() as int);
        }
    }
}

/// The batch of a job.
pub open spec fn batch_of(job: int) -> int {
    job / (GROUP as int)
}

/// Two jobs share a ring slot only when the whole ring of batches lies between them: the
/// later one is fetched after the device is done with the earlier one's batch.
pub proof fn law_ring_slot_reuse_is_safe(jobs: Seq<ExpertJob>, i: int, j: int)
    requires
        slots_in_turn(jobs),
        0 <= i < j < jobs.len(),
        jobs[i].source is Ring,
        jobs[i].source == jobs[j].source,
    ensures
        batch_of(j) >= batch_of(i) + RING as int / GROUP as int,
{
    lemma_ring_jobs_grow(jobs, i + 1, j);
    let (a, b) = (ring_jobs(jobs, i) as int, ring_jobs(jobs, j) as int);
    assert(b >= a + 1 && b - a <= j - i);
    assert(a % 64 == b % 64);
    assert(b - a >= 64);
}

/// The event value to wait for before batch `bi` overwrites its ring slots: the batch that
/// used them before has to be done. `base` is the event's value before the chunk's layer.
pub fn ring_wait(base: u64, bi: usize) -> (r: Option<u64>)
    requires
        base + bi + 1 <= u64::MAX,
    ensures
        r == if bi >= RING / GROUP {
            Some((base + (bi - RING / GROUP) + 1) as u64)
        } else {
            None
        },
{
    if bi >= RING / GROUP {
        Some(base + (bi - RING / GROUP) as u64 + 1)
    } else {
        None
    }
}

// ---- one batch ----
/// The reads of a batch before its event is published.
#[derive(Debug)]
pub struct BatchReads {
    /// Pool records to read and publish.
    pub to_set: Vec<usize>,
    /// (destination, file offset, bytes) of 4-bit ring records.
    pub ring4: Vec<(usize, usize, usize)>,
    /// The same of low-bit ring records.
    pub ring_low: Vec<(usize, usize, usize)>,
    /// Records and bytes read.
    pub fetched: usize,
    pub bytes: usize,
}

/// The pool records of the first `n` jobs that have to be read.
pub open spec fn set_reads(jobs: Seq<ExpertJob>, n: int) -> Seq<usize>
    decreases n,
{
    if n <= 0 {
        Seq::empty()
    } else {
        match jobs[n - 1].source {
            ExpertSource::Pool { rid, fetch, .. } if fetch => set_reads(jobs, n - 1).push(rid),
            _ => set_reads(jobs, n - 1),
        }
    }
}

/// The ring reads of the first `n` jobs at 4 bits, or at the low precision.
pub open spec fn ring_reads(
    jobs: Seq<ExpertJob>,
    rids: Seq<usize>,
    ring_base: int,
    stride: int,
    four: bool,
    n: int,
) -> Seq<(usize, usize, usize)>
    decreases n,
{
    if n <= 0 {
        Seq::empty()
    } else {
        let before = ring_reads(jobs, rids, ring_base, stride, four, n - 1);
        let job = jobs[n - 1];
        match job.source {
            ExpertSource::Ring(slot) if (job.layout.bits == 4) == four => before.push(
                (
                    (ring_base + slot * stride) as usize,
                    (rids[job.expert as int] * job.layout.stride) as usize,
                    job.layout.stride,
                ),
            ),
            _ => before,
        }
    }
}

/// Whether a job's record has to be read.
pub open spec fn is_read(job: ExpertJob) -> bool {
    match job.source {
        ExpertSource::Pool { fetch, .. } => fetch,
        ExpertSource::Ring(_) => true,
    }
}

/// The bytes that the first `n` jobs read, each in its stored precision.
pub open spec fn read_bytes(jobs: Seq<ExpertJob>, n: int) -> int
    decreases n,
{
    if n <= 0 {
        0
    } else {
        read_bytes(jobs, n - 1) + if is_read(jobs[n - 1]) {
            jobs[n - 1].layout.stride as int
        } else {
            0
        }
    }
}

proof fn lemma_read_bytes_grow(jobs: Seq<ExpertJob>, i: int, j: int)
    requires
        0 <= i <= j,
    ensures
        0 <= read_bytes(jobs, i) <= read_bytes(jobs, j),
    decreases j,
{
    if i < j {
        lemma_read_bytes_grow(jobs, i, j - 1);
    } else if i > 0 {
        lemma_read_bytes_grow(jobs, i - 1, i - 1);
    }
}

/// The reads of one batch into its reserved destinations.
pub fn read_expert_batch(batch: &[ExpertJob], rids: &[usize], ring_base: usize, stride: usize) -> (r: BatchReads)
    requires
        ring_base + RING * stride <= usize::MAX,
        read_bytes(batch@, batch.len() as int) <= usize::MAX,
        forall|i: int| 0 <= i < batch.len() ==> (#[trigger] batch@[i]).expert < rids.len(),
        forall|i: int|
            0 <= i < batch.len() && (#[trigger] batch@[i]).source is Ring ==> {
                &&& batch@[i].source->Ring_0 < RING
                &&& rids@[batch@[i].expert as int] * batch@[i].layout.stride <= usize::MAX
            },
    ensures
        r.to_set@ == set_reads(batch@, batch.len() as int),
        r.ring4@ == ring_reads(batch@, rids@, ring_base as int, stride as int, true, batch.len() as int),
        r.ring_low@ == ring_reads(batch@, rids@, ring_base as int, stride as int, false, batch.len() as int),
        r.fetched == r.to_set.len() + r.ring4.len() + r.ring_low.len(),
        r.bytes == read_bytes(batch@, batch.len() as int),
{
    let mut to_set: Vec<usize> = Vec::new();
    let mut ring4: Vec<(usize, usize, usize)> = Vec::new();
    let mut ring_low: Vec<(usize, usize, usize)> = Vec::new();
    let mut bytes: usize = 0;
    let mut i: usize = 0;
    while i < batch.len()
        invariant
            i <= batch.len(),
            ring_base + RING * stride <= usize::MAX,
            read_bytes(batch@, batch.len() as int) <= usize::MAX,
            forall|q: int| 0 <= q < batch.len() ==> (#[trigger] batch@[q]).expert < rids.len(),
            forall|q: int|
                0 <= q < batch.len() && (#[trigger] batch@[q]).source is Ring ==> {
                    &&& batch@[q].source->Ring_0 < RING
                    &&& rids@[batch@[q].expert as int] * batch@[q].layout.stride <= usize::MAX
                },
            to_set@ == set_reads(batch@, i as int),
            ring4@ == ring_reads(batch@, rids@, ring_base as int, stride as int, true, i as int),
            ring_low@ == ring_reads(batch@, rids@, ring_base as int, stride as int, false, i as int),
            to_set.len() + ring4.len() + ring_low.len() <= i,
            bytes == read_bytes(batch@, i as int),
        decreases batch.len() - i,
    {
        let job: ExpertJob = batch[i];
        proof {
            lemma_read_bytes_grow(batch@, i + 1, batch.len() as int);
        }
        match job.source {
            ExpertSource::Pool { rid, fetch, .. } => {
                if fetch {
                    to_set.push(rid);
                    bytes = bytes + job.layout.stride;
                }
            },
            ExpertSource::Ring(slot) => {
                assert(batch@[i as int].source is Ring);
                assert(0 <= slot * stride <= RING * stride) by (nonlinear_arith)
                    requires
                        0 <= slot < RING,
                        stride >= 0,
                ;
                let read: (usize, usize, usize) = (
                    ring_base + slot as usize * stride,
                    rids[job.expert] * job.layout.stride,
                    job.layout.stride,
                );
                if job.layout.bits == 4 {
                    ring4.push(read);
                } else {
                    ring_low.push(read);
                }
                bytes = bytes + job.layout.stride;
            },
        }
        i = i + 1;
    }
    let fetched: usize = to_set.len() + ring4.len() + ring_low.len();
    BatchReads { to_set, ring4, ring_low, fetched, bytes }
}

/// What a chunk's jobs hold: every route of the chunk stands at one place of the grouped rows, with
/// its own row and its own weight, inside the rows of its expert's job; no two routes share a place,
/// and there is one place for each. No expert has two jobs.
pub proof fn law_jobs_of_chunk(
    pool: &mut Pool,
    rids: &[usize],
    idx: &[u32],
    weights: &[Real32],
    k: usize,
    n_record_layers: usize,
    step: u64,
    base_layout: RecordLayout,
    miss_layout: RecordLayout,
    jobs: ExpertJobs,
) -> (at: Seq<int>)
    requires
        call_ensures(
            prepare_expert_jobs,
            (pool, rids, idx, weights, k, n_record_layers, step, &base_layout, &miss_layout),
            Ok(jobs),
        ),
        idx@.len() == weights@.len(),
        0 < k,
        n_record_layers > 0,
        idx@.len() <= usize::MAX,
        rids@.len() <= usize::MAX,
        forall|p: int| 0 <= p < idx@.len() ==> (#[trigger] idx@[p]) < rids@.len(),
    ensures
        jobs.csr_rows@.len() == idx@.len(),
        jobs.csr_w@.len() == idx@.len(),
        at.len() == idx@.len(),
        forall|p: int|
            0 <= p < idx@.len() ==> {
                &&& 0 <= (#[trigger] at[p]) < idx@.len()
                &&& jobs.csr_rows@[at[p]] == (p / k as int) as u32
                &&& jobs.csr_w@[at[p]] == weights@[p]
                &&& exists|j: int|
                    0 <= j < jobs.jobs@.len() && (#[trigger] jobs.jobs@[j]).expert == idx@[p] && jobs.jobs@[j].csr_offset
                        <= at[p] < jobs.jobs@[j].csr_offset + jobs.jobs@[j].row_count
            },
        forall|p: int, q: int|
            0 <= p < q < idx@.len() ==> #[trigger] at[p] != #[trigger] at[q] && (idx@[p] == idx@[q] ==> at[p] < at[q]),
        forall|i: int, j: int|
            0 <= i < j < jobs.jobs@.len() ==> (#[trigger] jobs.jobs@[i]).expert < (#[trigger] jobs.jobs@[j]).expert,
{
    let plan = choose|plan: Assignment|
        #![trigger assignment_of(
            plan,
            *old(pool),
            rids@,
            idx@,
            n_record_layers as int,
            step,
            base_layout,
            miss_layout,
        )]
        assignment_of(plan, *old(pool), rids@, idx@, n_record_layers as int, step, base_layout, miss_layout) && {
            let out = plan.assigned(old(pool)@, rids@.len() as int);
            &&& !out.full
            &&& jobs.jobs@ == out.jobs
            &&& jobs.csr_rows@ == rows_of(grouped(idx@, rids@.len() as int), k as int)
            &&& jobs.csr_w@ == weights_of(grouped(idx@, rids@.len() as int), weights@)
        };
    law_routes_keep_their_weights(plan, old(pool)@, weights@, k as int, jobs)
}

/// Of a chunk's jobs, a streamed one stands behind as many experts as the layer's share of the pool
/// has, each chosen more often or as often under a lower number, and has the misses' precision; a job
/// from the pool takes the record of its own expert.
pub proof fn law_streamed_are_least_used(
    pool: &mut Pool,
    rids: &[usize],
    idx: &[u32],
    weights: &[Real32],
    k: usize,
    n_record_layers: usize,
    step: u64,
    base_layout: RecordLayout,
    miss_layout: RecordLayout,
    jobs: ExpertJobs,
    streamed: int,
    other: int,
) -> (before: Seq<int>)
    requires
        call_ensures(
            prepare_expert_jobs,
            (pool, rids, idx, weights, k, n_record_layers, step, &base_layout, &miss_layout),
            Ok(jobs),
        ),
        n_record_layers > 0,
        rids@.len() <= usize::MAX,
        idx@.len() <= i128::MAX,
        0 <= streamed < jobs.jobs@.len(),
        jobs.jobs@[streamed].source is Ring,
        0 <= other < jobs.jobs@.len(),
    ensures
        ({
            let e = jobs.jobs@[streamed].expert as int;
            let f = jobs.jobs@[other].expert as int;
            let uses = |x: int| choices(idx@, x, idx@.len() as int);
            &&& before.len() == match *old(pool) {
                Pool::Resident(s) => s.budget as int / n_record_layers as int,
                Pool::Copy(c) => c.budget as int / n_record_layers as int,
            }
            &&& forall|i: int|
                0 <= i < before.len() ==> 0 <= (#[trigger] before[i]) < rids@.len() && (uses(before[i]) > uses(e) || (uses(
                    before[i],
                ) == uses(e) && before[i] < e))
            &&& forall|i: int, j: int| 0 <= i < j < before.len() ==> #[trigger] before[i] != #[trigger] before[j]
            &&& jobs.jobs@[streamed].layout == miss_layout
            &&& jobs.jobs@[other].source matches ExpertSource::Pool { rid, fetch, .. } ==> rid == rids@[f] && (fetch
                ==> uses(f) > uses(e) || (uses(f) == uses(e) && f < e))
        }),
{
    let plan = choose|plan: Assignment|
        #![trigger assignment_of(
            plan,
            *old(pool),
            rids@,
            idx@,
            n_record_layers as int,
            step,
            base_layout,
            miss_layout,
        )]
        assignment_of(plan, *old(pool), rids@, idx@, n_record_layers as int, step, base_layout, miss_layout) && jobs.jobs@
            == plan.assigned(old(pool)@, rids@.len() as int).jobs;
    law_most_used_stay(
        plan,
        *old(pool),
        rids@,
        idx@,
        n_record_layers as int,
        step,
        base_layout,
        miss_layout,
        streamed,
        other,
    )
}

/// One job more in a batch: a pool job that is fetched adds its record to the set's reads; a ring job
/// adds a read of its expert's whole record, from its place in the file of its precision to its slot
/// of the ring; any other adds nothing.
pub proof fn law_batch_reads(batch: &[ExpertJob], more: &[ExpertJob], job: ExpertJob, rids: &[usize], ring_base: usize, stride: usize, a: BatchReads, b: BatchReads)
    requires
        call_ensures(read_expert_batch, (batch, rids, ring_base, stride), a),
        call_ensures(read_expert_batch, (more, rids, ring_base, stride), b),
        more@ == batch@.push(job),
    ensures
        ({
            let fetched = job.source matches ExpertSource::Pool { fetch, .. } && fetch;
            let slot = job.source->Ring_0;
            let read = (
                (ring_base + slot * stride) as usize,
                (rids@[job.expert as int] * job.layout.stride) as usize,
                job.layout.stride,
            );
            &&& fetched ==> b.to_set@ == a.to_set@.push(job.source->Pool_rid)
            &&& !fetched ==> b.to_set@ == a.to_set@
            &&& job.source is Ring && job.layout.bits == 4 ==> b.ring4@ == a.ring4@.push(read) && b.ring_low@ == a.ring_low@
            &&& job.source is Ring && job.layout.bits != 4 ==> b.ring_low@ == a.ring_low@.push(read) && b.ring4@ == a.ring4@
            &&& job.source is Pool ==> b.ring4@ == a.ring4@ && b.ring_low@ == a.ring_low@
            &&& b.fetched == a.fetched + (if fetched || job.source is Ring {
                1int
            } else {
                0
            })
            &&& b.bytes == a.bytes + (if fetched || job.source is Ring {
                job.layout.stride as int
            } else {
                0
            })
        }),
{
    lemma_reads_prefix(batch@, more@, rids@, ring_base as int, stride as int, batch@.len() as int);
    assert(more@[more@.len() - 1] == job);
}

proof fn lemma_reads_prefix(a: Seq<ExpertJob>, b: Seq<ExpertJob>, rids: Seq<usize>, ring_base: int, stride: int, n: int)
    requires
        n <= a.len(),
        n <= b.len(),
        forall|i: int| 0 <= i < n ==> #[trigger] a[i] == b[i],
    ensures
        set_reads(a, n) == set_reads(b, n),
        ring_reads(a, rids, ring_base, stride, true, n) == ring_reads(b, rids, ring_base, stride, true, n),
        ring_reads(a, rids, ring_base, stride, false, n) == ring_reads(b, rids, ring_base, stride, false, n),
        read_bytes(a, n) == read_bytes(b, n),
    decreases n,
{
    if n > 0 {
        lemma_reads_prefix(a, b, rids, ring_base, stride, n - 1);
        assert(a[n - 1] == b[n - 1]);
    }
}

/// A batch takes the ring slots of the eighth batch before it, and waits until that one is done.
pub proof fn law_ring_wait(base: u64, bi: usize, r: Option<u64>)
    requires
        call_ensures(ring_wait, (base, bi), r),
        base + bi + 1 <= u64::MAX,
    ensures
        bi < 8 ==> r is None,
        bi >= 8 ==> r == Some((base + bi - 7) as u64),
{
}

} // verus!
