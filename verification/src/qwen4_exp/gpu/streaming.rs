//! Decode expert streaming: what the processor does between the device's routing of a
//! block and the release of its experts.
//!
//! The device routes the rows of a block and waits. The processor acquires the union of
//! the routed experts, publishes the resident ones first and the ones being read behind
//! them, strongest first, and releases the device in two parts. Under the deadline policy
//! weak experts that are still being read when the resident part is done are cut off the
//! weak end of the table.

use crate::number::Real32;
use crate::qwen4_exp::gpu::residency::copy_pool::Slots;
use crate::qwen4_exp::gpu::residency::{Landed, Pool};
use crate::ranking;
use crate::ranking::rank;
use vstd::prelude::*;

verus! {

/// How long a block waits for the device before it counts as hung.
pub const BLOCK_SECONDS: u64 = 30;

/// One block's increasing event values. The resident part's completion has its own event.
#[derive(Debug, Clone, Copy, PartialEq, Eq, Structural)]
pub struct BlockSignals {
    /// Device to processor: the routing scratch is readable.
    pub router_ready: u64,
    /// Processor to device: the table is published; resident experts may run.
    pub resident_ready: u64,
    /// Device to processor: the deadline of weak misses.
    pub resident_done: u64,
    /// Processor to device: required misses are readable and resident.
    pub misses_ready: u64,
}

impl BlockSignals {
    pub fn new(seq: u64) -> (r: BlockSignals)
        requires
            seq + 3 <= u64::MAX,
        ensures
            r.router_ready == seq,
            r.resident_ready == seq + 1,
            r.resident_done == seq + 2,
            r.misses_ready == seq + 3,
    {
        BlockSignals {
            router_ready: seq,
            resident_ready: seq + 1,
            resident_done: seq + 2,
            misses_ready: seq + 3,
        }
    }
}

/// What a waiter does after one look at an event.
#[derive(Debug, Clone, Copy, PartialEq, Eq, Structural)]
pub enum Poll {
    Reached,
    Again,
    /// The device did not get there in time.
    Hung,
}

/// One look at the router's event `elapsed_seconds` after the wait began.
pub fn wait_for_router(signaled: u64, ready: u64, elapsed_seconds: u64) -> (r: Poll)
    ensures
        r == if signaled >= ready {
            Poll::Reached
        } else if elapsed_seconds <= BLOCK_SECONDS {
            Poll::Again
        } else {
            Poll::Hung
        },
{
    if signaled >= ready {
        Poll::Reached
    } else if elapsed_seconds <= BLOCK_SECONDS {
        Poll::Again
    } else {
        Poll::Hung
    }
}

// ---- routing of a block ----
/// The greatest weight with which the first `n` routes choose `expert`, or zero. A weight
/// that is not a number does not count.
pub open spec fn strongest(idx: Seq<u32>, weights: Seq<Real32>, expert: u32, n: int) -> Real32
    decreases n,
{
    if n <= 0 {
        Real32 { bits: 0 }
    } else {
        let before = strongest(idx, weights, expert, n - 1);
        if idx[n - 1] == expert && before.lt(weights[n - 1]) {
            weights[n - 1]
        } else {
            before
        }
    }
}

fn strongest_weight(idx: &[u32], weights: &[Real32], expert: u32) -> (r: Real32)
    requires
        idx.len() == weights.len(),
    ensures
        r == strongest(idx@, weights@, expert, idx.len() as int),
        !r.nan(),
{
    let mut best: Real32 = Real32 { bits: 0 };
    let mut i: usize = 0;
    while i < idx.len()
        invariant
            i <= idx.len(),
            idx.len() == weights.len(),
            best == strongest(idx@, weights@, expert, i as int),
            !best.nan(),
        decreases idx.len() - i,
    {
        if idx[i] == expert && best.below(&weights[i]) {
            best = weights[i];
        }
        i = i + 1;
    }
    best
}

/// The least rank at which `expert` was chosen among the first `n` routes of rows of `k`.
pub open spec fn best_rank(idx: Seq<u32>, k: int, expert: u32, n: int) -> u32
    decreases n,
{
    if n <= 0 {
        u32::MAX
    } else {
        let before = best_rank(idx, k, expert, n - 1);
        let rank = ((n - 1) % k) as u32;
        if idx[n - 1] == expert && rank < before {
            rank
        } else {
            before
        }
    }
}

/// The routed experts of a block in the order in which the device runs them.
#[derive(Debug)]
pub struct BlockPlan {
    /// Whether each expert of the union still has to be read.
    pub missing: Vec<bool>,
    /// The greatest weight of each expert of the union.
    pub wmax: Vec<Real32>,
    /// Positions in the union: resident experts first, then the ones being read; within
    /// each the strongest first, equals in the union's order.
    pub order: Vec<usize>,
    /// How many experts are resident.
    pub n_res: usize,
}

/// The order keys of the weights.
pub open spec fn weight_keys(wmax: Seq<Real32>) -> Seq<i128> {
    Seq::new(wmax.len(), |i: int| wmax[i].key() as i128)
}

impl BlockPlan {
    /// The plan of a block whose `union` of experts has the records `rids`.
    pub open spec fn of(self, union: Seq<u32>, rids: Seq<usize>, need: Seq<usize>, idx: Seq<u32>, weights: Seq<Real32>) -> bool {
        &&& self.missing@ == Seq::new(union.len(), |i: int| need.contains(rids[i]))
        &&& self.wmax@ == Seq::new(union.len(), |i: int| strongest(idx, weights, union[i], idx.len() as int))
        &&& ranking::is_ranking(self.missing@, weight_keys(self.wmax@), self.order@)
        &&& self.n_res <= self.order.len()
        &&& forall|u: int|
            0 <= u < self.order.len() ==> (u < self.n_res <==> !self.missing@[#[trigger] self.order@[u] as int])
    }
}

fn listed(list: &[usize], x: usize) -> (r: bool)
    ensures
        r == list@.contains(x),
{
    let mut i: usize = 0;
    while i < list.len()
        invariant
            i <= list.len(),
            forall|k: int| 0 <= k < i ==> #[trigger] list@[k] != x,
        decreases list.len() - i,
    {
        if list[i] == x {
            assert(list@[i as int] == x);
            return true;
        }
        i = i + 1;
    }
    false
}

fn chosen(list: &[u32], x: u32) -> (r: bool)
    ensures
        r == list@.contains(x),
{
    let mut i: usize = 0;
    while i < list.len()
        invariant
            i <= list.len(),
            forall|k: int| 0 <= k < i ==> #[trigger] list@[k] != x,
        decreases list.len() - i,
    {
        if list[i] == x {
            assert(list@[i as int] == x);
            return true;
        }
        i = i + 1;
    }
    false
}

/// Order the routed experts of a block. `idx` and `weights` are the routes of all rows;
/// `need` are the records that `acquire` reserved and that have to be read.
pub fn plan_block(union: &[u32], rids: &[usize], need: &[usize], idx: &[u32], weights: &[Real32]) -> (r: BlockPlan)
    requires
        union.len() == rids.len(),
        idx.len() == weights.len(),
    ensures
        r.of(union@, rids@, need@, idx@, weights@),
{
    let mut missing: Vec<bool> = Vec::new();
    let mut wmax: Vec<Real32> = Vec::new();
    let mut keys: Vec<i128> = Vec::new();
    let mut i: usize = 0;
    while i < union.len()
        invariant
            i <= union.len(),
            union.len() == rids.len(),
            idx.len() == weights.len(),
            missing@ == Seq::new(i as nat, |k: int| need@.contains(rids@[k])),
            wmax@ == Seq::new(i as nat, |k: int| strongest(idx@, weights@, union@[k], idx.len() as int)),
            keys@ == weight_keys(wmax@),
        decreases union.len() - i,
    {
        let w: Real32 = strongest_weight(idx, weights, union[i]);
        missing.push(listed(need, rids[i]));
        wmax.push(w);
        keys.push(w.order_key() as i128);
        assert(missing@ =~= Seq::new((i + 1) as nat, |k: int| need@.contains(rids@[k])));
        assert(wmax@ =~= Seq::new((i + 1) as nat, |k: int| strongest(idx@, weights@, union@[k], idx.len() as int)));
        assert(keys@ =~= weight_keys(wmax@));
        i = i + 1;
    }
    let order: Vec<usize> = rank(missing.as_slice(), keys.as_slice());
    let mut n_res: usize = 0;
    while n_res < order.len() && !missing[order[n_res]]
        invariant
            n_res <= order.len(),
            ranking::is_ranking(missing@, keys@, order@),
            forall|u: int| 0 <= u < n_res ==> !missing@[#[trigger] order@[u] as int],
        decreases order.len() - n_res,
    {
        n_res = n_res + 1;
    }
    proof {
        assert forall|u: int| 0 <= u < order.len() implies (u < n_res <==> !missing@[#[trigger] order@[u] as int]) by {
            if u > n_res {
                assert(ranking::ahead(missing@, keys@, order@[n_res as int] as int, order@[u] as int));
            }
        }
    }
    BlockPlan { missing, wmax, order, n_res }
}

/// Resident experts run before the ones being read, and among either the stronger first.
pub proof fn law_block_order(
    plan: BlockPlan,
    union: Seq<u32>,
    rids: Seq<usize>,
    need: Seq<usize>,
    idx: Seq<u32>,
    weights: Seq<Real32>,
    u: int,
    v: int,
)
    requires
        plan.of(union, rids, need, idx, weights),
        0 <= u < v < plan.order.len(),
    ensures
        plan.missing@[plan.order@[u] as int] ==> plan.missing@[plan.order@[v] as int],
        plan.missing@[plan.order@[u] as int] == plan.missing@[plan.order@[v] as int]
            ==> plan.wmax@[plan.order@[u] as int].key() >= plan.wmax@[plan.order@[v] as int].key(),
        plan.order@[u] != plan.order@[v],
{
    assert(ranking::ahead(plan.missing@, weight_keys(plan.wmax@), plan.order@[u] as int, plan.order@[v] as int));
    let a = plan.order@[u] as int;
    let b = plan.order@[v] as int;
    assert(weight_keys(plan.wmax@)[a] == plan.wmax@[a].key());
    assert(weight_keys(plan.wmax@)[b] == plan.wmax@[b].key());
}

/// Publish a block's row of the slot table: the experts' addresses in order, and in the
/// last two places how many are resident and how many there are.
pub fn publish_slots(row: &mut Vec<u64>, addresses: &[u64], n_res: usize)
    requires
        addresses.len() + 2 <= old(row).len(),
        n_res <= addresses.len(),
    ensures
        final(row).len() == old(row).len(),
        forall|u: int| #![trigger final(row)@[u]] 0 <= u < addresses.len() ==> final(row)@[u] == addresses@[u],
        forall|u: int|
            #![trigger final(row)@[u]]
            addresses.len() <= u < old(row).len() - 2 ==> final(row)@[u] == old(row)@[u],
        final(row)@[old(row).len() - 2] == n_res,
        final(row)@[old(row).len() - 1] == addresses.len(),
{
    let ghost before = row@;
    let mut u: usize = 0;
    while u < addresses.len()
        invariant
            u <= addresses.len(),
            addresses.len() + 2 <= row.len(),
            row@.len() == before.len(),
            forall|k: int| 0 <= k < u ==> #[trigger] row@[k] == addresses@[k],
            forall|k: int| u <= k < row.len() ==> #[trigger] row@[k] == before[k],
        decreases addresses.len() - u,
    {
        row.set(u, addresses[u]);
        u = u + 1;
    }
    let last: usize = row.len() - 1;
    row.set(last - 1, n_res as u64);
    row.set(last, addresses.len() as u64);
}

/// After a cut, the table's last place holds how many experts remain.
pub fn publish_active(row: &mut Vec<u64>, active: usize)
    requires
        old(row).len() > 0,
    ensures
        final(row)@ == old(row)@.update(old(row).len() - 1, active as u64),
{
    let last: usize = row.len() - 1;
    row.set(last, active as u64);
}

/// The weight with which the routes of one row choose `expert`: the first match from `j`,
/// or zero.
pub open spec fn row_weight(idx: Seq<u32>, weights: Seq<Real32>, expert: u32, j: int) -> Real32
    decreases idx.len() - j,
{
    if j >= idx.len() {
        Real32 { bits: 0 }
    } else if idx[j] == expert {
        weights[j]
    } else {
        row_weight(idx, weights, expert, j + 1)
    }
}

/// One row of the weight map: the row's weight of each expert in the block's order.
pub fn weight_row(idx: &[u32], weights: &[Real32], union: &[u32], order: &[usize]) -> (r: Vec<Real32>)
    requires
        idx.len() == weights.len(),
        forall|u: int| 0 <= u < order.len() ==> (#[trigger] order@[u]) < union.len(),
    ensures
        r@ == Seq::new(order@.len(), |u: int| row_weight(idx@, weights@, union@[order@[u] as int], 0)),
{
    let mut out: Vec<Real32> = Vec::new();
    let mut u: usize = 0;
    while u < order.len()
        invariant
            u <= order.len(),
            idx.len() == weights.len(),
            forall|k: int| 0 <= k < order.len() ==> (#[trigger] order@[k]) < union.len(),
            out@ == Seq::new(u as nat, |k: int| row_weight(idx@, weights@, union@[order@[k] as int], 0)),
        decreases order.len() - u,
    {
        let expert: u32 = union[order[u]];
        let mut w: Real32 = Real32 { bits: 0 };
        let mut j: usize = 0;
        while j < idx.len()
            invariant_except_break
                j <= idx.len(),
                idx.len() == weights.len(),
                w == (Real32 { bits: 0 }),
                row_weight(idx@, weights@, expert, 0) == row_weight(idx@, weights@, expert, j as int),
            ensures
                w == row_weight(idx@, weights@, expert, 0),
            decreases idx.len() - j,
        {
            if idx[j] == expert {
                w = weights[j];
                break;
            }
            j = j + 1;
        }
        out.push(w);
        assert(out@ =~= Seq::new((u + 1) as nat, |k: int| row_weight(idx@, weights@, union@[order@[k] as int], 0)));
        u = u + 1;
    }
    out
}

// ---- how the misses are read ----
/// How a block's misses are read.
#[derive(Debug, Clone, Copy, PartialEq, Eq, Structural)]
pub enum MissRead {
    /// Nothing to read.
    Nothing,
    /// One completion flag per record, for the deadline policy.
    PerRecord,
    /// One background thread for the batch.
    Batch,
}

/// Choose how misses are read. `cut_weight` is the deadline policy's threshold; `fake` is
/// the developer's switch that leaves records unread.
pub fn miss_read(plan_empty: bool, fake: bool, cut_weight: Real32) -> (r: MissRead)
    ensures
        r == if plan_empty || fake {
            MissRead::Nothing
        } else if (Real32 { bits: 0 }).lt(cut_weight) {
            MissRead::PerRecord
        } else {
            MissRead::Batch
        },
{
    if plan_empty || fake {
        MissRead::Nothing
    } else if (Real32 { bits: 0 }).below(&cut_weight) {
        MissRead::PerRecord
    } else {
        MissRead::Batch
    }
}

/// How predicted records are read while the device works on the current layer.
#[derive(Debug, Clone, Copy, PartialEq, Eq, Structural)]
pub enum Prefetch {
    /// Every predicted record is already held.
    Nothing,
    /// Records that join the pool unread, under the developer's switch.
    Unread { reads: usize },
    /// Records that a background thread reads.
    Background { reads: usize },
}

/// Choose how predicted records are read: `need` are those that the pool made room for,
/// `reads` is the size of their read plan.
pub fn prefetch(need: &[usize], reads: usize, fake: bool) -> (r: Prefetch)
    ensures
        r == if need@.len() == 0 {
            Prefetch::Nothing
        } else if fake {
            Prefetch::Unread { reads }
        } else {
            Prefetch::Background { reads }
        },
{
    if need.len() == 0 {
        Prefetch::Nothing
    } else if fake {
        Prefetch::Unread { reads }
    } else {
        Prefetch::Background { reads }
    }
}

/// The low-bit store attached for misses.
#[derive(Debug, Clone, Copy, PartialEq, Eq, Structural)]
pub struct MissStore {
    pub bits: u32,
    pub stride: usize,
}

/// The slots after each record of `need` was given the store `kind`.
pub open spec fn with_kinds(slots: Slots, need: Seq<usize>, kind: u8) -> Slots
    decreases need.len(),
{
    if need.len() == 0 {
        slots
    } else {
        let before = with_kinds(slots, need.drop_last(), kind);
        let rid = need.last() as int;
        if before.resident(rid) {
            Slots { slot_kind: before.slot_kind.update(before.rec_slot[rid]->0 as int, kind), ..before }
        } else {
            before
        }
    }
}

/// Fetched records use the miss precision; resident records keep theirs. The result is
/// the bytes of one fetched record.
pub fn miss_record_bytes(
    pool: &mut Pool,
    store: Option<MissStore>,
    all_low_bits: bool,
    record_stride: usize,
    need: &[usize],
) -> (r: usize)
    requires
        old(pool).wf(),
        forall|i: int| 0 <= i < need.len() ==> (#[trigger] need@[i]) < old(pool).records(),
    ensures
        final(pool).wf(),
        final(pool).records() == old(pool).records(),
        r == match store {
            Some(s) => s.stride,
            None => record_stride,
        },
        match (*old(pool), *final(pool)) {
            (Pool::Resident(a), Pool::Resident(b)) => a == b,
            (Pool::Copy(a), Pool::Copy(b)) => {
                &&& b.same_shape(a)
                &&& b@ == match store {
                    Some(s) => if all_low_bits || !a.low_file {
                        a@
                    } else {
                        with_kinds(a@, need@, if s.bits == 2 { 2 } else { 1 })
                    },
                    None => a@,
                }
            },
            _ => false,
        },
{
    match store {
        None => record_stride,
        Some(s) => {
            if !all_low_bits {
                let kind: u8 = if s.bits == 2 { 2 } else { 1 };
                let ghost start = *pool;
                let mut i: usize = 0;
                while i < need.len()
                    invariant
                        i <= need.len(),
                        kind != 0,
                        pool.wf(),
                        pool.records() == start.records(),
                        forall|k: int| 0 <= k < need.len() ==> (#[trigger] need@[k]) < start.records(),
                        match (start, *pool) {
                            (Pool::Resident(a), Pool::Resident(b)) => a == b,
                            (Pool::Copy(a), Pool::Copy(b)) => {
                                &&& b.same_shape(a)
                                &&& b@ == if a.low_file {
                                    with_kinds(a@, need@.take(i as int), kind)
                                } else {
                                    a@
                                }
                            },
                            _ => false,
                        },
                    decreases need.len() - i,
                {
                    assert(need@.take(i + 1).drop_last() =~= need@.take(i as int));
                    assert(need@.take(i + 1).last() == need@[i as int]);
                    pool.set_kind(need[i], kind);
                    i = i + 1;
                }
                assert(need@.take(i as int) =~= need@);
            }
            s.stride
        },
    }
}

// ---- the deadline ----
/// What the deadline policy does after one look at the reads and the device.
#[derive(Debug, Clone, Copy, PartialEq, Eq, Structural)]
pub enum Deadline {
    /// Every read landed: release at once.
    Landed,
    /// The device finished the resident part: cut the weak stragglers.
    Cut,
    Again,
    Hung,
}

/// Every observed read landed.
pub open spec fn all_landed(flags: Seq<Landed>) -> bool {
    forall|i: int| 0 <= i < flags.len() ==> (#[trigger] flags[i]).landed
}

/// One look at the deadline: whichever comes first of all reads and the resident part.
pub fn wait_for_deadline(flags: &[Landed], resident_done: bool, elapsed_seconds: u64) -> (r: Deadline)
    ensures
        r == if all_landed(flags@) {
            Deadline::Landed
        } else if resident_done {
            Deadline::Cut
        } else if elapsed_seconds > BLOCK_SECONDS {
            Deadline::Hung
        } else {
            Deadline::Again
        },
{
    let mut i: usize = 0;
    while i < flags.len()
        invariant
            i <= flags.len(),
            forall|k: int| 0 <= k < i ==> (#[trigger] flags@[k]).landed,
        decreases flags.len() - i,
    {
        if !flags[i].done() {
            assert(!flags@[i as int].landed);
            return if resident_done {
                Deadline::Cut
            } else if elapsed_seconds > BLOCK_SECONDS {
                Deadline::Hung
            } else {
                Deadline::Again
            };
        }
        i = i + 1;
    }
    Deadline::Landed
}

/// The first place of `x` from `from`.
pub open spec fn first_place(list: Seq<usize>, x: usize, from: int) -> int
    decreases list.len() - from,
{
    if from >= list.len() || list[from] == x {
        from
    } else {
        first_place(list, x, from + 1)
    }
}

/// Where a number first stands in a list.
pub(crate) fn place_of(list: &[usize], x: usize) -> (r: usize)
    requires
        list@.contains(x),
    ensures
        r == first_place(list@, x, 0),
        r < list.len(),
        list@[r as int] == x,
{
    let mut i: usize = 0;
    while list[i] != x
        invariant
            i < list.len(),
            exists|k: int| i <= k < list.len() && list@[k] == x,
            first_place(list@, x, 0) == first_place(list@, x, i as int),
        decreases list.len() - i,
    {
        i = i + 1;
    }
    i
}

/// Whether the read of an expert's record landed.
pub open spec fn record_landed(need: Seq<usize>, flags: Seq<Landed>, rid: usize) -> bool {
    flags[first_place(need, rid, 0)].landed
}

/// An expert may be cut: its read has not landed and its weight is below the threshold.
pub open spec fn may_cut(
    need: Seq<usize>,
    flags: Seq<Landed>,
    rids: Seq<usize>,
    wmax: Seq<Real32>,
    cut_weight: Real32,
    i: int,
) -> bool {
    !record_landed(need, flags, rids[i]) && wmax[i].lt(cut_weight)
}

/// `active` experts remain after the cut: the experts behind them may all be cut, and
/// either nothing but resident experts remains or the last one that remains may not.
pub open spec fn is_cut(
    order: Seq<usize>,
    n_res: int,
    need: Seq<usize>,
    flags: Seq<Landed>,
    rids: Seq<usize>,
    wmax: Seq<Real32>,
    cut_weight: Real32,
    active: int,
) -> bool {
    &&& n_res <= active <= order.len()
    &&& forall|u: int|
        active <= u < order.len() ==> may_cut(need, flags, rids, wmax, cut_weight, #[trigger] order[u] as int)
    &&& active > n_res ==> !may_cut(need, flags, rids, wmax, cut_weight, order[active - 1] as int)
}

/// Cut the late weak experts off the weak end of the table.
pub fn cut_late(
    order: &[usize],
    n_res: usize,
    need: &[usize],
    flags: &[Landed],
    rids: &[usize],
    wmax: &[Real32],
    cut_weight: Real32,
) -> (active: usize)
    requires
        n_res <= order.len(),
        rids.len() == wmax.len(),
        need.len() == flags.len(),
        forall|u: int| 0 <= u < order.len() ==> (#[trigger] order@[u]) < rids.len(),
        forall|u: int| n_res <= u < order.len() ==> need@.contains(rids@[#[trigger] order@[u] as int]),
    ensures
        is_cut(order@, n_res as int, need@, flags@, rids@, wmax@, cut_weight, active as int),
{
    let mut active: usize = order.len();
    while active > n_res
        invariant
            n_res <= active <= order.len(),
            rids.len() == wmax.len(),
            need.len() == flags.len(),
            forall|u: int| 0 <= u < order.len() ==> (#[trigger] order@[u]) < rids.len(),
            forall|u: int| n_res <= u < order.len() ==> need@.contains(rids@[#[trigger] order@[u] as int]),
            forall|u: int|
                active <= u < order.len() ==> may_cut(
                    need@,
                    flags@,
                    rids@,
                    wmax@,
                    cut_weight,
                    #[trigger] order@[u] as int,
                ),
        decreases active,
    {
        let i: usize = order[active - 1];
        assert(need@.contains(rids@[order@[active - 1] as int]));
        let at: usize = place_of(need, rids[i]);
        if flags[at].done() || !wmax[i].below(&cut_weight) {
            return active;
        }
        active = active - 1;
    }
    active
}

/// A cut leaves every resident expert, and every expert whose weight reaches the threshold
/// is stronger than all that were cut.
pub proof fn law_cut_only_weak(
    plan: BlockPlan,
    union: Seq<u32>,
    rids: Seq<usize>,
    need: Seq<usize>,
    idx: Seq<u32>,
    weights: Seq<Real32>,
    flags: Seq<Landed>,
    cut_weight: Real32,
    active: int,
    u: int,
)
    requires
        plan.of(union, rids, need, idx, weights),
        is_cut(plan.order@, plan.n_res as int, need, flags, rids, plan.wmax@, cut_weight, active),
        active <= u < plan.order.len(),
    ensures
        plan.missing@[plan.order@[u] as int],
        plan.wmax@[plan.order@[u] as int].lt(cut_weight),
        !record_landed(need, flags, rids[plan.order@[u] as int]),
{
    assert(may_cut(need, flags, rids, plan.wmax@, cut_weight, plan.order@[u] as int));
}

/// A record that is listed has its first place in the list.
pub proof fn lemma_first_place(list: Seq<usize>, x: usize)
    requires
        list.contains(x),
    ensures
        0 <= first_place(list, x, 0) < list.len(),
        list[first_place(list, x, 0)] == x,
{
    let k = choose|k: int| 0 <= k < list.len() && list[k] == x;
    lemma_first_place_from(list, x, 0, k);
}

proof fn lemma_first_place_from(list: Seq<usize>, x: usize, from: int, k: int)
    requires
        0 <= from <= k < list.len(),
        list[k] == x,
    ensures
        from <= first_place(list, x, from) <= k,
        list[first_place(list, x, from)] == x,
    decreases k - from,
{
    if list[from] != x {
        lemma_first_place_from(list, x, from + 1, k);
    }
}

/// The records of `need` whose reads landed, in order; all of them where nothing was tracked.
pub open spec fn landed_records(need: Seq<usize>, flags: Seq<Landed>) -> Seq<usize>
    decreases need.len(),
{
    if need.len() == 0 {
        Seq::empty()
    } else {
        let before = landed_records(need.drop_last(), flags);
        if flags.len() == 0 || flags[need.len() - 1].landed {
            before.push(need.last())
        } else {
            before
        }
    }
}

/// A needed record whose read landed, or that was not tracked, is among those that landed.
pub proof fn lemma_landed_kept(need: Seq<usize>, flags: Seq<Landed>, i: int)
    requires
        0 <= i < need.len(),
        flags.len() == 0 || flags[i].landed,
    ensures
        landed_records(need, flags).contains(need[i]),
    decreases need.len(),
{
    let head = need.drop_last();
    let before = landed_records(head, flags);
    let all = landed_records(need, flags);
    if i < head.len() {
        lemma_landed_kept(head, flags, i);
        assert(head[i] == need[i]);
        let k = choose|k: int| 0 <= k < before.len() && before[k] == need[i];
        assert(all[k] == need[i]);
    } else {
        assert(need.last() == need[i]);
        assert(all[before.len() as int] == need[i]);
    }
}

/// A record whose read landed is one that was needed.
pub proof fn lemma_landed_listed(need: Seq<usize>, flags: Seq<Landed>, i: int)
    requires
        0 <= i < landed_records(need, flags).len(),
    ensures
        need.contains(landed_records(need, flags)[i]),
    decreases need.len(),
{
    let head = need.drop_last();
    let before = landed_records(head, flags);
    if i < before.len() {
        lemma_landed_listed(head, flags, i);
        let x = before[i];
        let k = choose|k: int| 0 <= k < head.len() && head[k] == x;
        assert(need[k] == x);
    } else {
        assert(need[need.len() - 1] == need.last());
    }
}

/// The records to publish behind a block. Cut reads stay in flight until the step ends.
pub fn finish_miss_reads(need: &[usize], flags: &[Landed], deadline: bool) -> (r: Vec<usize>)
    requires
        flags.len() == 0 || flags.len() == need.len(),
    ensures
        r@ == if deadline {
            landed_records(need@, flags@)
        } else {
            need@
        },
{
    let mut out: Vec<usize> = Vec::new();
    let mut i: usize = 0;
    while i < need.len()
        invariant
            i <= need.len(),
            flags.len() == 0 || flags.len() == need.len(),
            out@ == if deadline {
                landed_records(need@.take(i as int), flags@)
            } else {
                need@.take(i as int)
            },
        decreases need.len() - i,
    {
        assert(need@.take(i + 1).drop_last() =~= need@.take(i as int));
        assert(need@.take(i + 1) =~= need@.take(i as int).push(need@[i as int]));
        if !deadline || flags.len() == 0 || flags[i].done() {
            out.push(need[i]);
        }
        i = i + 1;
    }
    assert(need@.take(i as int) =~= need@);
    out
}

// ---- lookahead ----
/// One prediction of the next layer's routing.
#[derive(Debug, Clone, Copy)]
pub struct LaEntry {
    pub step: u64,
    pub layer: usize,
    pub expert: u32,
    pub weight: Real32,
    pub rank: u32,
    pub resident: bool,
    pub hit: bool,
}

/// The log entry of a predicted expert: its greatest weight and its best rank among the
/// predicted routes of rows of `k` experts.
pub fn lookahead_entry(
    step: u64,
    layer: usize,
    expert: u32,
    idx: &[u32],
    weights: &[Real32],
    k: usize,
    resident: bool,
) -> (r: LaEntry)
    requires
        idx.len() == weights.len(),
        0 < k <= u32::MAX,
    ensures
        r.step == step,
        r.layer == layer,
        r.expert == expert,
        r.weight == strongest(idx@, weights@, expert, idx.len() as int),
        r.rank == best_rank(idx@, k as int, expert, idx.len() as int),
        r.resident == resident,
        !r.hit,
{
    let weight: Real32 = strongest_weight(idx, weights, expert);
    let mut best: u32 = u32::MAX;
    let mut i: usize = 0;
    while i < idx.len()
        invariant
            i <= idx.len(),
            0 < k <= u32::MAX,
            best == best_rank(idx@, k as int, expert, i as int),
        decreases idx.len() - i,
    {
        let place: u32 = (i % k) as u32;
        if idx[i] == expert && place < best {
            best = place;
        }
        i = i + 1;
    }
    LaEntry { step, layer, expert, weight, rank: best, resident, hit: false }
}

/// Settle a prediction against the block's routed experts.
pub fn settle_lookahead(entry: &LaEntry, union: &[u32]) -> (r: LaEntry)
    ensures
        r == (LaEntry { hit: union@.contains(entry.expert), ..*entry }),
{
    LaEntry { hit: chosen(union, entry.expert), ..*entry }
}

/// How many of the routed experts were predicted.
pub open spec fn hit_count(union: Seq<u32>, predicted: Seq<u32>) -> nat
    decreases union.len(),
{
    if union.len() == 0 {
        0
    } else {
        hit_count(union.drop_last(), predicted) + if predicted.contains(union.last()) {
            1nat
        } else {
            0nat
        }
    }
}

/// The hits among the routed experts and how many there are; nothing is counted for a
/// block that no prediction was made for.
pub fn prediction_hits(union: &[u32], predicted: Option<&Vec<u32>>) -> (r: (usize, usize))
    ensures
        match predicted {
            Some(p) => r.0 == hit_count(union@, p@) && r.1 == union@.len(),
            None => r == (0usize, 0usize),
        },
        r.0 <= r.1,
{
    match predicted {
        None => (0, 0),
        Some(p) => {
            let mut hits: usize = 0;
            let mut i: usize = 0;
            while i < union.len()
                invariant
                    i <= union.len(),
                    hits <= i,
                    hits == hit_count(union@.take(i as int), p@),
                decreases union.len() - i,
            {
                assert(union@.take(i + 1).drop_last() =~= union@.take(i as int));
                assert(union@.take(i + 1).last() == union@[i as int]);
                if chosen(p.as_slice(), union[i]) {
                    hits = hits + 1;
                }
                i = i + 1;
            }
            assert(union@.take(i as int) =~= union@);
            (hits, union.len())
        },
    }
}

/// The experts of a block in the order in which they run.
pub fn ordered_experts(union: &[u32], order: &[usize]) -> (r: Vec<u32>)
    requires
        forall|u: int| 0 <= u < order.len() ==> (#[trigger] order@[u]) < union.len(),
    ensures
        r@ == Seq::new(order@.len(), |u: int| union@[order@[u] as int]),
{
    let mut out: Vec<u32> = Vec::new();
    let mut u: usize = 0;
    while u < order.len()
        invariant
            u <= order.len(),
            forall|k: int| 0 <= k < order.len() ==> (#[trigger] order@[k]) < union.len(),
            out@ == Seq::new(u as nat, |k: int| union@[order@[k] as int]),
        decreases order.len() - u,
    {
        out.push(union[order[u]]);
        assert(out@ =~= Seq::new((u + 1) as nat, |k: int| union@[order@[k] as int]));
        u = u + 1;
    }
    out
}

/// The experts of a block that had to be read, in the union's order.
pub open spec fn missed(union: Seq<u32>, missing: Seq<bool>) -> Seq<u32>
    decreases union.len(),
{
    if union.len() == 0 {
        Seq::empty()
    } else {
        let before = missed(union.drop_last(), missing);
        if missing[union.len() - 1] {
            before.push(union.last())
        } else {
            before
        }
    }
}

pub fn missed_experts(union: &[u32], missing: &[bool]) -> (r: Vec<u32>)
    requires
        union.len() == missing.len(),
    ensures
        r@ == missed(union@, missing@),
{
    let mut out: Vec<u32> = Vec::new();
    let mut i: usize = 0;
    while i < union.len()
        invariant
            i <= union.len(),
            union.len() == missing.len(),
            out@ == missed(union@.take(i as int), missing@),
        decreases union.len() - i,
    {
        assert(union@.take(i + 1).drop_last() =~= union@.take(i as int));
        assert(union@.take(i + 1).last() == union@[i as int]);
        if missing[i] {
            out.push(union[i]);
        }
        i = i + 1;
    }
    assert(union@.take(i as int) =~= union@);
    out
}

/// A row holds the addresses in order, then the count of residents and, last, the count of all; the
/// rest of it stays.
pub proof fn law_slots_published(row: &mut Vec<u64>, addresses: &[u64], n_res: usize, u: int)
    requires
        call_ensures(publish_slots, (row, addresses, n_res), ()),
        addresses@.len() + 2 <= old(row)@.len(),
        0 <= u < old(row)@.len(),
    ensures
        final(row)@.len() == old(row)@.len(),
        u < addresses@.len() ==> final(row)@[u] == addresses@[u],
        u == old(row)@.len() - 2 ==> final(row)@[u] == n_res,
        u == old(row)@.len() - 1 ==> final(row)@[u] == addresses@.len(),
        addresses@.len() <= u < old(row)@.len() - 2 ==> final(row)@[u] == old(row)@[u],
{
}

/// The greatest weight with which an expert is chosen: no choice of it has a greater one, and it is
/// the weight of one of them, or zero.
proof fn lemma_strongest(idx: Seq<u32>, weights: Seq<Real32>, expert: u32, n: int)
    requires
        0 <= n <= idx.len(),
        idx.len() == weights.len(),
    ensures
        ({
            let s = strongest(idx, weights, expert, n);
            &&& !s.nan() && s.key() >= 0
            &&& forall|j: int| 0 <= j < n && #[trigger] idx[j] == expert ==> weights[j].nan() || weights[j].key() <= s.key()
            &&& s.bits == 0 || exists|j: int| 0 <= j < n && #[trigger] idx[j] == expert && weights[j] == s
        }),
    decreases n,
{
    if n > 0 {
        lemma_strongest(idx, weights, expert, n - 1);
        let before = strongest(idx, weights, expert, n - 1);
        if idx[n - 1] == expert && before.lt(weights[n - 1]) {
            assert(idx[n - 1] == expert && weights[n - 1] == strongest(idx, weights, expert, n));
        }
    }
}

/// A block's plan: an expert misses exactly where its record is needed; its weight is the greatest
/// with which a row chooses it. Residents come first, and in each group the greater weight comes
/// before the smaller.
pub proof fn law_block_planned(
    union: &[u32],
    rids: &[usize],
    need: &[usize],
    idx: &[u32],
    weights: &[Real32],
    r: BlockPlan,
    i: int,
    j: int,
    u: int,
    v: int,
)
    requires
        call_ensures(plan_block, (union, rids, need, idx, weights), r),
        union@.len() == rids@.len(),
        idx@.len() == weights@.len(),
        0 <= i < union@.len(),
        0 <= j < idx@.len(),
        0 <= u < v < r.order@.len(),
    ensures
        r.missing@.len() == union@.len() && r.wmax@.len() == union@.len() && r.order@.len() == union@.len(),
        r.missing@[i] <==> need@.contains(rids@[i]),
        idx@[j] == union@[i] ==> weights@[j].nan() || weights@[j].key() <= r.wmax@[i].key(),
        r.wmax@[i].bits == 0 || exists|k: int| 0 <= k < idx@.len() && #[trigger] idx@[k] == union@[i] && weights@[k]
            == r.wmax@[i],
        r.order@[u] != r.order@[v] && r.order@[u] < union@.len(),
        exists|w: int| 0 <= w < r.order@.len() && #[trigger] r.order@[w] == i,
        r.missing@[r.order@[u] as int] ==> r.missing@[r.order@[v] as int],
        r.missing@[r.order@[u] as int] == r.missing@[r.order@[v] as int] ==> r.wmax@[r.order@[u] as int].key()
            >= r.wmax@[r.order@[v] as int].key(),
        u < r.n_res <==> !r.missing@[r.order@[u] as int],
{
    lemma_strongest(idx@, weights@, union@[i], idx@.len() as int);
    assert(r.order@.contains(i as usize));
    let keys = weight_keys(r.wmax@);
    ranking::law_ranking_sorts(r.missing@, keys, r.order@, u, v, i as usize);
    let a = r.order@[u] as int;
    let b = r.order@[v] as int;
    assert(b < union@.len());
    lemma_strongest(idx@, weights@, union@[a], idx@.len() as int);
    lemma_strongest(idx@, weights@, union@[b], idx@.len() as int);
    assert(keys[a] == r.wmax@[a].key() as i128 && keys[b] == r.wmax@[b].key() as i128);
}

/// The first choice of an expert at or behind a place counts.
proof fn lemma_row_weight(idx: Seq<u32>, weights: Seq<Real32>, expert: u32, from: int)
    requires
        0 <= from <= idx.len(),
    ensures
        (forall|k: int| from <= k < idx.len() ==> #[trigger] idx[k] != expert) ==> row_weight(idx, weights, expert, from).bits
            == 0,
        forall|j: int|
            from <= j < idx.len() && #[trigger] idx[j] == expert && (forall|k: int| from <= k < j ==> #[trigger] idx[k] != expert)
                ==> row_weight(idx, weights, expert, from) == weights[j],
    decreases idx.len() - from,
{
    if from < idx.len() && idx[from] != expert {
        lemma_row_weight(idx, weights, expert, from + 1);
    }
}

/// A row gives each expert of the order the weight with which the row first chooses it, and none to
/// an expert that it does not choose.
pub proof fn law_weight_row(idx: &[u32], weights: &[Real32], union: &[u32], order: &[usize], r: Vec<Real32>, u: int, j: int)
    requires
        call_ensures(weight_row, (idx, weights, union, order), r),
        idx@.len() == weights@.len(),
        0 <= u < order@.len(),
        0 <= j < idx@.len(),
        forall|k: int| 0 <= k < j ==> #[trigger] idx@[k] != union@[order@[u] as int],
    ensures
        r@.len() == order@.len(),
        idx@[j] == union@[order@[u] as int] ==> r@[u] == weights@[j],
        !idx@.contains(union@[order@[u] as int]) ==> r@[u].bits == 0,
{
    let e = union@[order@[u] as int];
    lemma_row_weight(idx@, weights@, e, 0);
    if !idx@.contains(e) {
        assert forall|k: int| 0 <= k < idx@.len() implies #[trigger] idx@[k] != e by {
            if idx@[k] == e {
                assert(idx@.contains(idx@[k]));
            }
        }
    }
}

/// Misses are read one by one exactly where weak ones may be cut, and in one batch otherwise; nothing
/// is read where nothing misses or reading is only pretended.
pub proof fn law_miss_read(plan_empty: bool, fake: bool, cut_weight: Real32, r: MissRead)
    requires
        call_ensures(miss_read, (plan_empty, fake, cut_weight), r),
    ensures
        r is Nothing <==> plan_empty || fake,
        r is PerRecord <==> !plan_empty && !fake && !cut_weight.nan() && cut_weight.key() > 0,
        r is Batch <==> !plan_empty && !fake && (cut_weight.nan() || cut_weight.key() <= 0),
{
}

/// What is predicted is read in the background where anything is needed.
pub proof fn law_prefetch(need: &[usize], reads: usize, fake: bool, r: Prefetch)
    requires
        call_ensures(prefetch, (need, reads, fake), r),
    ensures
        r is Nothing <==> need@.len() == 0,
        need@.len() > 0 && !fake ==> r == (Prefetch::Background { reads }),
        need@.len() > 0 && fake ==> r == (Prefetch::Unread { reads }),
{
}

/// The router is waited for until it has signalled, and given up once more than 30 seconds passed.
pub proof fn law_router_waited_for(signaled: u64, ready: u64, elapsed_seconds: u64, r: Poll)
    requires
        call_ensures(wait_for_router, (signaled, ready, elapsed_seconds), r),
    ensures
        r is Reached <==> signaled >= ready,
        r is Hung <==> signaled < ready && elapsed_seconds > 30,
        r is Again <==> signaled < ready && elapsed_seconds <= 30,
{
}

/// The deadline: nothing is cut while residents are at work, and nothing once all has landed.
pub proof fn law_deadline(flags: &[Landed], resident_done: bool, elapsed_seconds: u64, r: Deadline)
    requires
        call_ensures(wait_for_deadline, (flags, resident_done, elapsed_seconds), r),
    ensures
        r is Landed <==> forall|i: int| 0 <= i < flags@.len() ==> (#[trigger] flags@[i]).landed,
        r is Cut ==> resident_done,
        !(r is Landed) && resident_done ==> r is Cut,
        !(r is Landed) && !resident_done && elapsed_seconds > 30 <==> r is Hung,
        !(r is Landed) && !resident_done && elapsed_seconds <= 30 <==> r is Again,
{
}

/// What is cut at the deadline is late and weak, every one of it; and the last that stays is a
/// resident, or has landed, or is not weak.
pub proof fn law_cut_late(
    order: &[usize],
    n_res: usize,
    need: &[usize],
    flags: &[Landed],
    rids: &[usize],
    wmax: &[Real32],
    cut_weight: Real32,
    active: usize,
    u: int,
    k: int,
)
    requires
        call_ensures(cut_late, (order, n_res, need, flags, rids, wmax, cut_weight), active),
        need@.len() == flags@.len(),
        forall|i: int| 0 <= i < order@.len() ==> (#[trigger] order@[i]) < rids@.len(),
        forall|i: int, j: int| 0 <= i < j < need@.len() ==> #[trigger] need@[i] != #[trigger] need@[j],
        0 <= u < order@.len(),
        0 <= k < need@.len(),
        need@[k] == rids@[order@[u] as int],
    ensures
        n_res <= active <= order@.len(),
        u >= active ==> !flags@[k].landed && wmax@[order@[u] as int].lt(cut_weight),
        u == active - 1 && u >= n_res ==> flags@[k].landed || !wmax@[order@[u] as int].lt(cut_weight),
{
    let x = rids@[order@[u] as int];
    assert(need@.contains(x));
    lemma_first_place(need@, x);
    let f = first_place(need@, x, 0);
    if f < k {
        assert(need@[f] != need@[k]);
    } else if k < f {
        assert(need@[k] != need@[f]);
    }
    if u >= active {
        assert(may_cut(need@, flags@, rids@, wmax@, cut_weight, order@[u] as int));
    }
}

/// Where a deadline was met, the records that landed are kept, in order; and all of them where there
/// was none.
pub proof fn law_landed_are_kept(need: &[usize], flags: &[Landed], deadline: bool, r: Vec<usize>, i: int, j: int)
    requires
        call_ensures(finish_miss_reads, (need, flags, deadline), r),
        flags@.len() == need@.len(),
        0 <= i < need@.len(),
    ensures
        !deadline ==> r@ == need@,
        deadline && flags@[i].landed ==> r@.contains(need@[i]),
        r@.len() <= need@.len(),
        deadline && 0 <= j < r@.len() ==> exists|k: int|
            0 <= k < need@.len() && (#[trigger] flags@[k]).landed && need@[k] == r@[j],
{
    if deadline {
        if r@.len() > 0 {
            lemma_landed_only(need@, flags@, 0);
        }
        if 0 <= j < r@.len() {
            lemma_landed_only(need@, flags@, j);
        }
        if flags@[i].landed {
            lemma_landed_there(need@, flags@, i);
        }
    }
}

proof fn lemma_landed_only(need: Seq<usize>, flags: Seq<Landed>, j: int)
    requires
        need.len() <= flags.len(),
        0 <= j < landed_records(need, flags).len(),
    ensures
        landed_records(need, flags).len() <= need.len(),
        exists|k: int| 0 <= k < need.len() && (#[trigger] flags[k]).landed && need[k] == landed_records(need, flags)[j],
    decreases need.len(),
{
    let head = need.drop_last();
    let before = landed_records(head, flags);
    let after = landed_records(need, flags);
    if before.len() > 0 {
        lemma_landed_only(head, flags, 0);
    }
    if j < before.len() {
        lemma_landed_only(head, flags, j);
        let k = choose|k: int| 0 <= k < head.len() && (#[trigger] flags[k]).landed && head[k] == before[j];
        assert(flags[k].landed && need[k] == after[j]);
    } else {
        let k = need.len() - 1;
        assert(flags[k].landed && need[k] == after[j]);
    }
}

proof fn lemma_landed_there(need: Seq<usize>, flags: Seq<Landed>, i: int)
    requires
        need.len() <= flags.len(),
        0 <= i < need.len(),
        flags[i].landed,
    ensures
        landed_records(need, flags).contains(need[i]),
    decreases need.len(),
{
    let head = need.drop_last();
    let before = landed_records(head, flags);
    let after = landed_records(need, flags);
    if i < head.len() {
        lemma_landed_there(head, flags, i);
        let j = choose|j: int| 0 <= j < before.len() && before[j] == need[i];
        assert(after[j] == need[i]);
    } else {
        assert(after[after.len() - 1] == need[i]);
    }
}

/// A prediction's entry tells the greatest weight and the best rank with which a row chooses the
/// expert; it is a hit exactly where the block turned out to use the expert.
pub proof fn law_lookahead(
    step: u64,
    layer: usize,
    expert: u32,
    idx: &[u32],
    weights: &[Real32],
    k: usize,
    resident: bool,
    entry: LaEntry,
    union: &[u32],
    settled: LaEntry,
    j: int,
)
    requires
        call_ensures(lookahead_entry, (step, layer, expert, idx, weights, k, resident), entry),
        call_ensures(settle_lookahead, (&entry, union), settled),
        idx@.len() == weights@.len(),
        0 < k <= u32::MAX,
        0 <= j < idx@.len(),
    ensures
        entry.step == step && entry.layer == layer && entry.expert == expert && entry.resident == resident && !entry.hit,
        idx@[j] == expert ==> entry.rank <= j % k as int,
        idx@[j] == expert ==> weights@[j].nan() || weights@[j].key() <= entry.weight.key(),
        !idx@.contains(expert) ==> entry.rank == u32::MAX && entry.weight.bits == 0,
        entry.rank != u32::MAX ==> exists|i: int| 0 <= i < idx@.len() && #[trigger] idx@[i] == expert && entry.rank == i
            % k as int,
        settled.hit <==> union@.contains(expert),
        settled.step == step && settled.expert == expert && settled.rank == entry.rank && settled.weight == entry.weight,
{
    lemma_strongest(idx@, weights@, expert, idx@.len() as int);
    lemma_best_rank(idx@, k as int, expert, idx@.len() as int);
    if !idx@.contains(expert) {
        assert forall|i: int| 0 <= i < idx@.len() implies #[trigger] idx@[i] != expert by {
            if idx@[i] == expert {
                assert(idx@.contains(idx@[i]));
            }
        }
    }
}

proof fn lemma_best_rank(idx: Seq<u32>, k: int, expert: u32, n: int)
    requires
        0 <= n <= idx.len(),
        0 < k <= u32::MAX,
    ensures
        forall|j: int| 0 <= j < n && #[trigger] idx[j] == expert ==> best_rank(idx, k, expert, n) <= j % k,
        best_rank(idx, k, expert, n) == u32::MAX || exists|j: int|
            0 <= j < n && #[trigger] idx[j] == expert && best_rank(idx, k, expert, n) == j % k,
        (forall|j: int| 0 <= j < n ==> #[trigger] idx[j] != expert) ==> best_rank(idx, k, expert, n) == u32::MAX,
    decreases n,
{
    if n > 0 {
        lemma_best_rank(idx, k, expert, n - 1);
        assert(0 <= (n - 1) % k < k) by (nonlinear_arith)
            requires
                k > 0,
        ;
        let rank = ((n - 1) % k) as u32;
        assert(rank == (n - 1) % k);
        let before = best_rank(idx, k, expert, n - 1);
        if idx[n - 1] == expert && rank < before {
            assert(idx[n - 1] == expert && best_rank(idx, k, expert, n) == (n - 1) % k);
        } else if before != u32::MAX {
            let j = choose|j: int| 0 <= j < n - 1 && #[trigger] idx[j] == expert && before == j % k;
            assert(idx[j] == expert);
        }
    }
}

/// An expert counts as hit exactly where it was predicted: one more expert adds one, or nothing.
pub proof fn law_hits_counted(union: Seq<u32>, predicted: Seq<u32>, expert: u32)
    ensures
        predicted.contains(expert) ==> hit_count(union.push(expert), predicted) == hit_count(union, predicted) + 1,
        !predicted.contains(expert) ==> hit_count(union.push(expert), predicted) == hit_count(union, predicted),
        hit_count(Seq::empty(), predicted) == 0,
        hit_count(union, predicted) <= union.len(),
{
    assert(union.push(expert).drop_last() =~= union);
    lemma_hits_bounded(union, predicted);
}

proof fn lemma_hits_bounded(union: Seq<u32>, predicted: Seq<u32>)
    ensures
        hit_count(union, predicted) <= union.len(),
    decreases union.len(),
{
    if union.len() > 0 {
        lemma_hits_bounded(union.drop_last(), predicted);
    }
}

/// An expert is listed as missed exactly where it misses, in the order of the union.
pub proof fn law_missed_listed(union: Seq<u32>, missing: Seq<bool>, expert: u32, misses: bool)
    requires
        union.len() == missing.len(),
    ensures
        missed(union.push(expert), missing.push(misses)) == if misses {
            missed(union, missing).push(expert)
        } else {
            missed(union, missing)
        },
        missed(Seq::empty(), Seq::empty()).len() == 0,
{
    assert(union.push(expert).drop_last() =~= union);
    lemma_missed_prefix(union, missing, missing.push(misses));
}

proof fn lemma_missed_prefix(union: Seq<u32>, a: Seq<bool>, b: Seq<bool>)
    requires
        union.len() <= a.len(),
        a.len() <= b.len(),
        forall|i: int| 0 <= i < union.len() ==> #[trigger] a[i] == b[i],
    ensures
        missed(union, a) == missed(union, b),
    decreases union.len(),
{
    if union.len() > 0 {
        lemma_missed_prefix(union.drop_last(), a, b);
        assert(a[union.len() - 1] == b[union.len() - 1]);
    }
}

/// Signals of a block follow one another.
pub proof fn law_signals_in_turn(seq: u64, r: BlockSignals)
    requires
        call_ensures(BlockSignals::new, (seq,), r),
        seq + 3 <= u64::MAX,
    ensures
        r.router_ready == seq,
        r.resident_ready == r.router_ready + 1,
        r.resident_done == r.resident_ready + 1,
        r.misses_ready == r.resident_done + 1,
{
}

/// A missed record has the bytes of the low-bit store where one is attached, and of the original
/// otherwise; then each needed record that has a slot gets the store's precision, unless all experts
/// have few bits, and no other slot changes.
pub proof fn law_miss_record_bytes(
    pool: &mut Pool,
    store: Option<MissStore>,
    all_low_bits: bool,
    record_stride: usize,
    need: &[usize],
    r: usize,
    rid: int,
)
    requires
        call_ensures(miss_record_bytes, (pool, store, all_low_bits, record_stride, need), r),
        old(pool).wf(),
        forall|i: int| 0 <= i < need@.len() ==> (#[trigger] need@[i]) < old(pool).records(),
        0 <= rid < old(pool).records(),
    ensures
        store matches Some(s) ==> r == s.stride,
        store is None ==> r == record_stride,
        final(pool).member(rid) == old(pool).member(rid),
        store is None || all_low_bits ==> final(pool).kind_of(rid) == old(pool).kind_of(rid),
        !need@.contains(rid as usize) ==> final(pool).kind_of(rid) == old(pool).kind_of(rid),
        store matches Some(s) ==> (*old(pool) matches Pool::Copy(c) ==> {
            &&& !all_low_bits && c.low_file && need@.contains(rid as usize) && old(pool).member(rid) && s.bits == 2
                ==> final(pool).kind_of(rid) == 2
            &&& !all_low_bits && c.low_file && need@.contains(rid as usize) && old(pool).member(rid) && s.bits != 2
                ==> final(pool).kind_of(rid) == 1
        }),
{
    if *old(pool) is Copy && store is Some {
        let c = (*old(pool))->Copy_0;
        let kind: u8 = if store->0.bits == 2 {
            2
        } else {
            1
        };
        lemma_with_kinds(c@, need@, kind, rid);
    }
}

proof fn lemma_with_kinds(slots: Slots, need: Seq<usize>, kind: u8, rid: int)
    requires
        slots.wf(),
        0 <= rid < slots.rec_slot.len(),
        forall|i: int| 0 <= i < need.len() ==> (#[trigger] need[i]) < slots.rec_slot.len(),
    ensures
        ({
            let after = with_kinds(slots, need, kind);
            &&& after.rec_slot == slots.rec_slot && after.slot_rec == slots.slot_rec
            &&& after.slot_kind.len() == slots.slot_kind.len()
            &&& slots.rec_slot[rid] is Some ==> after.slot_kind[slots.rec_slot[rid]->0 as int] == if need.contains(rid as usize) {
                kind
            } else {
                slots.slot_kind[slots.rec_slot[rid]->0 as int]
            }
        }),
    decreases need.len(),
{
    if need.len() > 0 {
        let head = need.drop_last();
        assert forall|i: int| 0 <= i < head.len() implies (#[trigger] head[i]) < slots.rec_slot.len() by {
            assert(head[i] == need[i]);
        }
        assert(need[need.len() - 1] == need.last());
        lemma_with_kinds(slots, head, kind, rid);
        let last = need.last() as int;
        if need.contains(rid as usize) {
            let k = choose|k: int| 0 <= k < need.len() && need[k] == rid as usize;
            if k < head.len() {
                assert(head[k] == rid as usize);
            }
        }
        if head.contains(rid as usize) {
            let k = choose|k: int| 0 <= k < head.len() && head[k] == rid as usize;
            assert(need[k] == rid as usize);
        }
        if slots.rec_slot[rid] is Some && slots.rec_slot[last] is Some && last != rid {
            assert(slots.slot_rec[slots.rec_slot[rid]->0 as int] == Some(rid as usize));
            assert(slots.slot_rec[slots.rec_slot[last]->0 as int] == Some(last as usize));
        }
    }
}

} // verus!
