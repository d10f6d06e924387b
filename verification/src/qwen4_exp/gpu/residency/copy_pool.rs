//! The wired copy pool: one buffer of record slots filled by uncached reads.

use crate::qwen4_exp::gpu::residency::victim;
use crate::qwen4_exp::gpu::residency::PoolError;
use vstd::prelude::*;

verus! {

/// What the slots of a copy pool hold.
#[verifier::ext_equal]
pub struct Slots {
    /// Record held by each slot.
    pub slot_rec: Seq<Option<usize>>,
    /// Step of each slot's last use.
    pub slot_used: Seq<u64>,
    /// Store held by each slot.
    pub slot_kind: Seq<u8>,
    /// Slot of each record.
    pub rec_slot: Seq<Option<usize>>,
}

impl Slots {
    /// Slots and records name each other, one for one, and an empty slot was never used.
    pub open spec fn wf(self) -> bool {
        &&& self.slot_used.len() == self.slot_rec.len()
        &&& self.slot_kind.len() == self.slot_rec.len()
        &&& forall|r: int|
            0 <= r < self.rec_slot.len() && (#[trigger] self.rec_slot[r]) is Some ==> {
                &&& self.rec_slot[r]->0 < self.slot_rec.len()
                &&& self.slot_rec[self.rec_slot[r]->0 as int] == Some(r as usize)
            }
        &&& forall|s: int|
            0 <= s < self.slot_rec.len() && (#[trigger] self.slot_rec[s]) is Some ==> {
                &&& self.slot_rec[s]->0 < self.rec_slot.len()
                &&& self.rec_slot[self.slot_rec[s]->0 as int] == Some(s as usize)
            }
        &&& forall|s: int|
            0 <= s < self.slot_rec.len() && (#[trigger] self.slot_rec[s]) is None ==> self.slot_used[s] == 0
    }

    pub open spec fn resident(self, rid: int) -> bool {
        self.rec_slot[rid] is Some
    }

    /// The slots after record `rid` was marked used at `step` in its slot.
    pub open spec fn touch(self, rid: int, step: u64) -> Slots {
        Slots { slot_used: self.slot_used.update(self.rec_slot[rid]->0 as int, step), ..self }
    }

    /// The slots after record `rid` took slot `v` from whatever it held.
    pub open spec fn take(self, rid: int, v: int, step: u64, kind: u8) -> Slots {
        let freed = match self.slot_rec[v] {
            Some(old) => self.rec_slot.update(old as int, None),
            None => self.rec_slot,
        };
        Slots {
            slot_rec: self.slot_rec.update(v, Some(rid as usize)),
            slot_used: self.slot_used.update(v, step),
            slot_kind: self.slot_kind.update(v, kind),
            rec_slot: freed.update(rid, Some(v as usize)),
        }
    }
}

/// The outcome of acquiring records one after the other.
pub struct Acquired {
    pub slots: Slots,
    /// The records that took a slot and still have to be read.
    pub need: Seq<usize>,
    /// No slot could be given up; the records from there on were not acquired.
    pub full: bool,
}

/// Acquire `rids` in order: a resident record is marked used; another takes the victim's slot.
pub open spec fn acquired(slots: Slots, rids: Seq<usize>, step: u64, kind: u8) -> Acquired
    decreases rids.len(),
{
    if rids.len() == 0 {
        Acquired { slots, need: Seq::empty(), full: false }
    } else {
        let before = acquired(slots, rids.drop_last(), step, kind);
        let rid = rids.last();
        if before.full {
            before
        } else if before.slots.resident(rid as int) {
            Acquired { slots: before.slots.touch(rid as int, step), ..before }
        } else if victim::has_victim(before.slots.slot_used, step) {
            let v = victim::victim(before.slots.slot_used, step);
            Acquired {
                slots: before.slots.take(rid as int, v, step, kind),
                need: before.need.push(rid),
                full: false,
            }
        } else {
            Acquired { full: true, ..before }
        }
    }
}

proof fn lemma_touch_wf(slots: Slots, rid: int, step: u64)
    requires
        slots.wf(),
        0 <= rid < slots.rec_slot.len(),
        slots.resident(rid),
    ensures
        slots.touch(rid, step).wf(),
{
    let next = slots.touch(rid, step);
    assert(next.rec_slot == slots.rec_slot && next.slot_rec == slots.slot_rec);
}

proof fn lemma_take_wf(slots: Slots, rid: int, v: int, step: u64, kind: u8)
    requires
        slots.wf(),
        0 <= rid < slots.rec_slot.len(),
        slots.rec_slot.len() <= usize::MAX,
        slots.slot_rec.len() <= usize::MAX,
        !slots.resident(rid),
        0 <= v < slots.slot_rec.len(),
    ensures
        slots.take(rid, v, step, kind).wf(),
{
    let next = slots.take(rid, v, step, kind);
    assert forall|r: int| 0 <= r < next.rec_slot.len() && (#[trigger] next.rec_slot[r]) is Some implies {
        &&& next.rec_slot[r]->0 < next.slot_rec.len()
        &&& next.slot_rec[next.rec_slot[r]->0 as int] == Some(r as usize)
    } by {
        if r != rid {
            assert(slots.rec_slot[r] is Some);
            assert(slots.slot_rec[slots.rec_slot[r]->0 as int] == Some(r as usize));
            if slots.rec_slot[r]->0 == v {
                assert(slots.slot_rec[v] == Some(r as usize));
            }
        }
    }
    assert forall|s: int| 0 <= s < next.slot_rec.len() && (#[trigger] next.slot_rec[s]) is Some implies {
        &&& next.slot_rec[s]->0 < next.rec_slot.len()
        &&& next.rec_slot[next.slot_rec[s]->0 as int] == Some(s as usize)
    } by {
        if s != v {
            assert(slots.slot_rec[s] is Some);
            let held = slots.slot_rec[s]->0 as int;
            assert(slots.rec_slot[held] == Some(s as usize));
            if slots.slot_rec[v] is Some && slots.slot_rec[v]->0 == held {
                assert(slots.rec_slot[slots.slot_rec[v]->0 as int] == Some(v as usize));
            }
        }
    }
}

proof fn lemma_acquired_wf(slots: Slots, rids: Seq<usize>, step: u64, kind: u8)
    requires
        slots.wf(),
        slots.rec_slot.len() <= usize::MAX,
        slots.slot_rec.len() <= usize::MAX,
        forall|i: int| 0 <= i < rids.len() ==> (#[trigger] rids[i]) < slots.rec_slot.len(),
    ensures
        acquired(slots, rids, step, kind).slots.wf(),
        acquired(slots, rids, step, kind).slots.rec_slot.len() == slots.rec_slot.len(),
        acquired(slots, rids, step, kind).slots.slot_rec.len() == slots.slot_rec.len(),
    decreases rids.len(),
{
    if rids.len() > 0 {
        let head = rids.drop_last();
        assert forall|i: int| 0 <= i < head.len() implies (#[trigger] head[i]) < slots.rec_slot.len() by {
            assert(head[i] == rids[i]);
        }
        lemma_acquired_wf(slots, head, step, kind);
        let before = acquired(slots, head, step, kind);
        let rid = rids.last() as int;
        assert(rids[rids.len() - 1] == rids.last());
        if !before.full {
            if before.slots.resident(rid) {
                lemma_touch_wf(before.slots, rid, step);
            } else if victim::has_victim(before.slots.slot_used, step) {
                victim::lemma_victim_exists(before.slots.slot_used, step);
                lemma_take_wf(before.slots, rid, victim::victim(before.slots.slot_used, step), step, kind);
            }
        }
    }
}

/// Empty slots are taken first: while there is one, no record loses its slot, unless it was used
/// at step 0 alone.
pub proof fn law_empty_slots_first(slots: Slots, rid: usize, step: u64, kind: u8, empty: int)
    requires
        slots.wf(),
        rid < slots.rec_slot.len(),
        !slots.resident(rid as int),
        step > 0,
        0 <= empty < slots.slot_rec.len(),
        slots.slot_rec[empty] is None,
        forall|s: int| 0 <= s < slots.slot_rec.len() && (#[trigger] slots.slot_rec[s]) is Some ==> slots.slot_used[s] > 0,
    ensures
        ({
            let out = acquired(slots, seq![rid], step, kind);
            &&& !out.full
            &&& out.slots.resident(rid as int)
            &&& forall|r: int|
                0 <= r < slots.rec_slot.len() && (#[trigger] slots.rec_slot[r]) is Some ==> out.slots.rec_slot[r]
                    == slots.rec_slot[r]
        }),
{
    let one = seq![rid];
    assert(one.drop_last() =~= Seq::<usize>::empty());
    assert(acquired(slots, one.drop_last(), step, kind).slots == slots);
    assert(victim::evictable(slots.slot_used, step, empty));
    victim::lemma_victim_exists(slots.slot_used, step);
    let v = victim::victim(slots.slot_used, step);
    assert(slots.slot_used[v] <= slots.slot_used[empty]);
    assert(slots.slot_rec[v] is None);
}

/// One wired buffer of record slots.
#[derive(Debug)]
pub struct CopyPool {
    /// Address of the buffer for the processor.
    pub base: usize,
    /// Address of the buffer for the device.
    pub gpu_base: u64,
    pub stride: usize,
    /// Bytes per slot (the low-bit stride when every record is low-bit).
    pub slot_stride: usize,
    /// Record held by each slot.
    pub slot_rec: Vec<Option<usize>>,
    /// Step number of each slot's last use (eviction guard and recency key).
    pub slot_used: Vec<u64>,
    /// Slot of each record.
    pub rec_slot: Vec<Option<usize>>,
    /// Store held by each slot: 0 = 4-bit record, 1 = 3-bit, 2 = 2-bit.
    pub slot_kind: Vec<u8>,
    /// Whether a low-bit store is attached.
    pub low_file: bool,
    pub low_stride: usize,
    /// Kind a freshly taken slot gets (0 unless every record is low-bit).
    pub default_kind: u8,
    pub budget: usize,
}

impl View for CopyPool {
    type V = Slots;

    open spec fn view(&self) -> Slots {
        Slots {
            slot_rec: self.slot_rec@,
            slot_used: self.slot_used@,
            slot_kind: self.slot_kind@,
            rec_slot: self.rec_slot@,
        }
    }
}

impl CopyPool {
    /// Slots match the budget, and the buffer and both files are addressable.
    pub open spec fn wf(self) -> bool {
        &&& self@.wf()
        &&& self.slot_rec.len() == self.budget
        &&& self.base > 0
        &&& self.base + self.budget * self.slot_stride <= usize::MAX
        &&& self.gpu_base + self.budget * self.slot_stride <= u64::MAX
        &&& self.rec_slot.len() * self.stride <= usize::MAX
        &&& self.rec_slot.len() * self.low_stride <= usize::MAX
    }

    /// Everything but the slots' contents.
    pub open spec fn same_shape(self, other: CopyPool) -> bool {
        &&& self.base == other.base
        &&& self.gpu_base == other.gpu_base
        &&& self.stride == other.stride
        &&& self.slot_stride == other.slot_stride
        &&& self.low_file == other.low_file
        &&& self.low_stride == other.low_stride
        &&& self.default_kind == other.default_kind
        &&& self.budget == other.budget
        &&& self.rec_slot.len() == other.rec_slot.len()
    }

    /// An empty pool over a buffer of `budget` slots at `base`.
    pub fn new(
        base: usize,
        gpu_base: u64,
        stride: usize,
        slot_stride: usize,
        n_records: usize,
        budget: usize,
    ) -> (r: CopyPool)
        requires
            base > 0,
            base + budget * slot_stride <= usize::MAX,
            gpu_base + budget * slot_stride <= u64::MAX,
            n_records * stride <= usize::MAX,
        ensures
            r.wf(),
            r.base == base,
            r.gpu_base == gpu_base,
            r.stride == stride,
            r.slot_stride == slot_stride,
            r.budget == budget,
            r.rec_slot@ == Seq::new(n_records as nat, |i: int| None::<usize>),
            r.slot_rec@ == Seq::new(budget as nat, |i: int| None::<usize>),
            r.slot_used@ == Seq::new(budget as nat, |i: int| 0u64),
            r.slot_kind@ == Seq::new(budget as nat, |i: int| 0u8),
            !r.low_file,
            r.low_stride == 0,
            r.default_kind == 0,
    {
        let pool = CopyPool {
            base,
            gpu_base,
            stride,
            slot_stride,
            slot_rec: vec![None; budget],
            slot_used: vec![0; budget],
            rec_slot: vec![None; n_records],
            slot_kind: vec![0; budget],
            low_file: false,
            low_stride: 0,
            default_kind: 0,
            budget,
        };
        proof {
            assert(pool.rec_slot@ =~= Seq::new(n_records as nat, |i: int| None::<usize>));
            assert(pool.slot_rec@ =~= Seq::new(budget as nat, |i: int| None::<usize>));
            assert(pool.slot_used@ =~= Seq::new(budget as nat, |i: int| 0u64));
            assert(pool.slot_kind@ =~= Seq::new(budget as nat, |i: int| 0u8));
        }
        pool
    }

    /// Mark records used at `step` and reserve slots for them; see [`acquired`].
    pub fn acquire(&mut self, rids: &[usize], step: u64) -> (r: Result<Vec<usize>, PoolError>)
        requires
            old(self).wf(),
            forall|i: int| 0 <= i < rids.len() ==> (#[trigger] rids@[i]) < old(self).rec_slot.len(),
        ensures
            final(self).wf(),
            final(self).same_shape(*old(self)),
            final(self)@ == acquired(old(self)@, rids@, step, old(self).default_kind).slots,
            match r {
                Ok(need) => {
                    &&& !acquired(old(self)@, rids@, step, old(self).default_kind).full
                    &&& need@ == acquired(old(self)@, rids@, step, old(self).default_kind).need
                },
                Err(e) => {
                    &&& acquired(old(self)@, rids@, step, old(self).default_kind).full
                    &&& e == PoolError::PoolTooSmall
                },
            },
    {
        let ghost start = *self;
        let mut need: Vec<usize> = Vec::new();
        let mut i: usize = 0;
        while i < rids.len()
            invariant
                i <= rids.len(),
                start == *old(self),
                start.wf(),
                self.same_shape(start),
                self.slot_rec.len() == start.budget,
                forall|k: int| 0 <= k < rids.len() ==> (#[trigger] rids@[k]) < start.rec_slot.len(),
                self@ == acquired(start@, rids@.take(i as int), step, start.default_kind).slots,
                need@ == acquired(start@, rids@.take(i as int), step, start.default_kind).need,
                !acquired(start@, rids@.take(i as int), step, start.default_kind).full,
                self@.wf(),
            decreases rids.len() - i,
        {
            let rid: usize = rids[i];
            let ghost before = self@;
            proof {
                let longer = rids@.take(i + 1);
                assert(longer.drop_last() =~= rids@.take(i as int));
                assert(longer.last() == rid);
                assert forall|k: int| 0 <= k < longer.len() implies (#[trigger] longer[k]) < start.rec_slot.len() by {
                    assert(longer[k] == rids@[k]);
                }
                lemma_acquired_wf(start@, longer, step, start.default_kind);
            }
            match self.rec_slot[rid] {
                Some(slot) => {
                    self.slot_used.set(slot, step);
                    assert(self@ =~= before.touch(rid as int, step));
                },
                None => {
                    match victim::find_victim(&self.slot_used, step) {
                        Some(best) => {
                            match self.slot_rec[best] {
                                Some(old) => {
                                    self.rec_slot.set(old, None);
                                },
                                None => {},
                            }
                            self.slot_rec.set(best, Some(rid));
                            self.slot_kind.set(best, self.default_kind);
                            self.rec_slot.set(rid, Some(best));
                            self.slot_used.set(best, step);
                            need.push(rid);
                            assert(self@ =~= before.take(rid as int, best as int, step, start.default_kind));
                        },
                        None => {
                            proof {
                                lemma_full_stays(start@, rids@, i + 1, step, start.default_kind);
                            }
                            return Err(PoolError::PoolTooSmall);
                        },
                    }
                },
            }
            i = i + 1;
        }
        assert(rids@.take(i as int) =~= rids@);
        Ok(need)
    }
}

/// Once no slot can be given up, nothing more is acquired.
proof fn lemma_full_stays(slots: Slots, rids: Seq<usize>, n: int, step: u64, kind: u8)
    requires
        0 <= n <= rids.len(),
        acquired(slots, rids.take(n), step, kind).full,
    ensures
        acquired(slots, rids, step, kind) == acquired(slots, rids.take(n), step, kind),
    decreases rids.len() - n,
{
    if n == rids.len() {
        assert(rids.take(n) =~= rids);
    } else {
        assert(rids.take(n + 1).drop_last() =~= rids.take(n));
        lemma_full_stays(slots, rids, n + 1, step, kind);
    }
}

/// A granted acquisition leaves every requested record resident, in a slot of its own
/// that was used at this step, and returns exactly the records that were read anew.
pub proof fn law_acquired_records_resident(slots: Slots, rids: Seq<usize>, step: u64, kind: u8, i: int)
    requires
        slots.wf(),
        slots.rec_slot.len() <= usize::MAX,
        slots.slot_rec.len() <= usize::MAX,
        forall|k: int| 0 <= k < rids.len() ==> (#[trigger] rids[k]) < slots.rec_slot.len(),
        !acquired(slots, rids, step, kind).full,
        0 <= i < rids.len(),
    ensures
        acquired(slots, rids, step, kind).slots.resident(rids[i] as int),
        ({
            let after = acquired(slots, rids, step, kind).slots;
            after.slot_used[after.rec_slot[rids[i] as int]->0 as int] == step
        }),
    decreases rids.len(),
{
    let head = rids.drop_last();
    assert forall|k: int| 0 <= k < head.len() implies (#[trigger] head[k]) < slots.rec_slot.len() by {
        assert(head[k] == rids[k]);
    }
    lemma_acquired_wf(slots, head, step, kind);
    lemma_acquired_wf(slots, rids, step, kind);
    let before = acquired(slots, head, step, kind).slots;
    let last = rids.last() as int;
    assert(rids[rids.len() - 1] == rids.last());
    if victim::has_victim(before.slot_used, step) {
        victim::lemma_victim_exists(before.slot_used, step);
    }
    if i < head.len() {
        law_acquired_records_resident(slots, head, step, kind, i);
        assert(head[i] == rids[i]);
        lemma_step_keeps_used(slots, rids, step, kind, rids[i] as int);
    }
}

/// The last record of `rids` does not push out a record used at this step.
proof fn lemma_step_keeps_used(slots: Slots, rids: Seq<usize>, step: u64, kind: u8, rid: int)
    requires
        rids.len() > 0,
        slots.wf(),
        slots.rec_slot.len() <= usize::MAX,
        slots.slot_rec.len() <= usize::MAX,
        forall|k: int| 0 <= k < rids.len() ==> (#[trigger] rids[k]) < slots.rec_slot.len(),
        0 <= rid < slots.rec_slot.len(),
        ({
            let before = acquired(slots, rids.drop_last(), step, kind).slots;
            before.resident(rid) && before.slot_used[before.rec_slot[rid]->0 as int] == step
        }),
    ensures
        ({
            let after = acquired(slots, rids, step, kind).slots;
            let before = acquired(slots, rids.drop_last(), step, kind).slots;
            &&& after.resident(rid)
            &&& after.rec_slot[rid] == before.rec_slot[rid]
            &&& after.slot_used[after.rec_slot[rid]->0 as int] == step
        }),
{
    let head = rids.drop_last();
    assert forall|k: int| 0 <= k < head.len() implies (#[trigger] head[k]) < slots.rec_slot.len() by {
        assert(head[k] == rids[k]);
    }
    lemma_acquired_wf(slots, head, step, kind);
    let before = acquired(slots, head, step, kind).slots;
    let last = rids.last() as int;
    assert(rids[rids.len() - 1] == rids.last());
    if !acquired(slots, head, step, kind).full && !before.resident(last) && victim::has_victim(before.slot_used, step) {
        victim::lemma_victim_exists(before.slot_used, step);
        let v = victim::victim(before.slot_used, step);
        assert(before.slot_used[v] != step);
        assert(before.rec_slot[rid]->0 != v);
        if before.slot_rec[v] is Some {
            let held = before.slot_rec[v]->0 as int;
            assert(before.rec_slot[held] == Some(v as usize));
            assert(held != rid);
        }
    }
}

/// A record that was used at this step keeps its slot through any further acquisition at the step.
pub proof fn law_used_this_step_is_kept(slots: Slots, rids: Seq<usize>, step: u64, kind: u8, rid: int)
    requires
        slots.wf(),
        slots.rec_slot.len() <= usize::MAX,
        slots.slot_rec.len() <= usize::MAX,
        forall|k: int| 0 <= k < rids.len() ==> (#[trigger] rids[k]) < slots.rec_slot.len(),
        0 <= rid < slots.rec_slot.len(),
        slots.resident(rid),
        slots.slot_used[slots.rec_slot[rid]->0 as int] == step,
    ensures
        acquired(slots, rids, step, kind).slots.resident(rid),
        acquired(slots, rids, step, kind).slots.rec_slot[rid] == slots.rec_slot[rid],
        ({
            let after = acquired(slots, rids, step, kind).slots;
            after.slot_used[after.rec_slot[rid]->0 as int] == step
        }),
    decreases rids.len(),
{
    if rids.len() > 0 {
        let head = rids.drop_last();
        assert forall|k: int| 0 <= k < head.len() implies (#[trigger] head[k]) < slots.rec_slot.len() by {
            assert(head[k] == rids[k]);
        }
        law_used_this_step_is_kept(slots, head, step, kind, rid);
        lemma_step_keeps_used(slots, rids, step, kind, rid);
    }
}

/// What has to be read was asked for.
pub proof fn lemma_need_is_asked(slots: Slots, rids: Seq<usize>, step: u64, kind: u8, i: int)
    requires
        0 <= i < acquired(slots, rids, step, kind).need.len(),
    ensures
        rids.contains(acquired(slots, rids, step, kind).need[i]),
    decreases rids.len(),
{
    let head = rids.drop_last();
    let before = acquired(slots, head, step, kind);
    if i < before.need.len() {
        lemma_need_is_asked(slots, head, step, kind, i);
        let x = before.need[i];
        let k = choose|k: int| 0 <= k < head.len() && head[k] == x;
        assert(rids[k] == x);
    } else {
        assert(rids[rids.len() - 1] == rids.last());
    }
}

/// The slots of a pool stay in one-to-one correspondence with its resident records.
pub proof fn law_acquired_slots_one_to_one(slots: Slots, rids: Seq<usize>, step: u64, kind: u8)
    requires
        slots.wf(),
        slots.rec_slot.len() <= usize::MAX,
        slots.slot_rec.len() <= usize::MAX,
        forall|i: int| 0 <= i < rids.len() ==> (#[trigger] rids[i]) < slots.rec_slot.len(),
    ensures
        acquired(slots, rids, step, kind).slots.wf(),
        acquired(slots, rids, step, kind).slots.rec_slot.len() == slots.rec_slot.len(),
        acquired(slots, rids, step, kind).slots.slot_rec.len() == slots.slot_rec.len(),
{
    lemma_acquired_wf(slots, rids, step, kind);
}

/// Asking for one record more: one that has a slot keeps it and is marked as used. Any other takes
/// the slot that was used longest ago and not in this step, and nothing else loses its slot. It is
/// refused exactly where every slot is used in this step or pinned.
pub proof fn law_acquire_one_more(
    a: &mut CopyPool,
    b: &mut CopyPool,
    front: &[usize],
    rids: &[usize],
    rid: usize,
    step: u64,
    need: Vec<usize>,
    r: Result<Vec<usize>, PoolError>,
)
    requires
        old(a).wf(),
        *old(b) == *old(a),
        rid < old(a).rec_slot@.len(),
        forall|i: int| 0 <= i < front@.len() ==> (#[trigger] front@[i]) < old(a).rec_slot@.len(),
        rids@ == front@.push(rid),
        call_ensures(CopyPool::acquire, (a, front, step), Ok(need)),
        call_ensures(CopyPool::acquire, (b, rids, step), r),
    ensures
        final(a).rec_slot@[rid as int] is Some ==> {
            let slot = final(a).rec_slot@[rid as int]->0 as int;
            &&& r matches Ok(n) && n@ == need@
            &&& final(b).rec_slot@ == final(a).rec_slot@
            &&& final(b).slot_rec@ == final(a).slot_rec@
            &&& final(b).slot_kind@ == final(a).slot_kind@
            &&& final(b).slot_used@ == final(a).slot_used@.update(slot, step)
        },
        final(a).rec_slot@[rid as int] is None ==> {
            &&& r is Err <==> forall|s: int|
                0 <= s < final(a).slot_used@.len() ==> #[trigger] final(a).slot_used@[s] == step || final(a).slot_used@[s]
                    == u64::MAX
            &&& r matches Ok(n) ==> {
                let slot = final(b).rec_slot@[rid as int]->0 as int;
                &&& n@ == need@.push(rid)
                &&& final(b).rec_slot@[rid as int] is Some
                &&& final(b).slot_rec@[slot] == Some(rid)
                &&& final(b).slot_used@ == final(a).slot_used@.update(slot, step)
                &&& final(b).slot_kind@ == final(a).slot_kind@.update(slot, old(a).default_kind)
                &&& final(a).slot_used@[slot] != step
                &&& forall|s: int|
                    0 <= s < final(a).slot_used@.len() && #[trigger] final(a).slot_used@[s] != step
                        ==> final(a).slot_used@[slot] <= final(a).slot_used@[s]
                &&& forall|other: int|
                    0 <= other < final(a).rec_slot@.len() && other != rid && final(a).slot_rec@[slot] != Some(other as usize)
                        ==> #[trigger] final(b).rec_slot@[other] == final(a).rec_slot@[other]
                &&& forall|other: int|
                    0 <= other < final(a).rec_slot@.len() && other != rid && final(a).slot_rec@[slot] == Some(other as usize)
                        ==> #[trigger] final(b).rec_slot@[other] is None
            }
        },
{
    assert(rids@.drop_last() =~= front@);
    let kind = old(a).default_kind;
    let before = acquired(old(a)@, front@, step, kind);
    let m = before.slots;
    assert(m == final(a)@);
    assert(m.wf());
    if m.rec_slot[rid as int] is None {
        let used = m.slot_used;
        if victim::has_victim(used, step) {
            victim::lemma_victim_exists(used, step);
            let v = victim::victim(used, step);
            assert(victim::evictable(used, step, v));
            assert forall|s: int| 0 <= s < used.len() && #[trigger] used[s] != step implies used[v] <= used[s] by {
                if used[s] != u64::MAX {
                    assert(victim::evictable(used, step, s));
                }
            }
        } else {
            assert forall|s: int| 0 <= s < used.len() implies #[trigger] used[s] == step || used[s] == u64::MAX by {
                assert(!victim::evictable(used, step, s));
            }
        }
    }
}

/// Asking for nothing changes nothing.
pub proof fn law_acquire_nothing(a: &mut CopyPool, rids: &[usize], step: u64, r: Result<Vec<usize>, PoolError>)
    requires
        old(a).wf(),
        rids@.len() == 0,
        call_ensures(CopyPool::acquire, (a, rids, step), r),
    ensures
        r matches Ok(need) && need@.len() == 0,
        final(a)@ == old(a)@,
{
}

} // verus!
