//! The residency set over the mapped expert file.

use crate::qwen4_exp::gpu::residency::victim;
use crate::qwen4_exp::gpu::residency::{Additions, PoolError, Refused, Reservation};
use vstd::prelude::*;

verus! {

/// The members of a residency set in the set's order, the records that room is reserved
/// for, and when each record was last used.
#[verifier::ext_equal]
pub struct Members {
    pub members: Seq<usize>,
    pub waiting: Seq<usize>,
    pub last_used: Seq<u64>,
}

impl Members {
    /// Members are distinct known records, and so are the records that room is reserved for;
    /// none is both.
    pub open spec fn wf(self) -> bool {
        &&& forall|i: int| 0 <= i < self.members.len() ==> (#[trigger] self.members[i]) < self.last_used.len()
        &&& forall|i: int| 0 <= i < self.waiting.len() ==> (#[trigger] self.waiting[i]) < self.last_used.len()
        &&& forall|i: int| 0 <= i < self.waiting.len() ==> !self.members.contains(#[trigger] self.waiting[i])
        &&& forall|i: int, j: int|
            0 <= i < j < self.members.len() ==> #[trigger] self.members[i] != #[trigger] self.members[j]
        &&& forall|i: int, j: int|
            0 <= i < j < self.waiting.len() ==> #[trigger] self.waiting[i] != #[trigger] self.waiting[j]
    }

    /// Members and reservations together stay within the budget.
    pub open spec fn within(self, budget: int) -> bool {
        self.members.len() + self.waiting.len() <= budget
    }

    /// Room is reserved for record `rid`.
    pub open spec fn reserve(self, rid: usize) -> Members {
        Members { waiting: self.waiting.push(rid), ..self }
    }

    /// Record `rid` is in memory: it takes the room that was reserved for it, or room that is
    /// free. Where there is none it does not join.
    pub open spec fn join(self, rid: usize, budget: int) -> Members {
        if self.waiting.contains(rid) {
            Members {
                members: self.members.push(rid),
                waiting: self.waiting.remove(self.waiting.index_of(rid)),
                ..self
            }
        } else if !self.members.contains(rid) && self.members.len() + self.waiting.len() < budget {
            Members { members: self.members.push(rid), ..self }
        } else {
            self
        }
    }

    /// The reservations of another step are given up.
    pub open spec fn lapsed(self, step: u64) -> Members {
        Members { waiting: of_step(self.waiting, self.last_used, step), ..self }
    }

    /// Step of last use of each member, in the set's order.
    pub open spec fn used(self) -> Seq<u64> {
        Seq::new(self.members.len(), |i: int| self.last_used[self.members[i] as int])
    }

    /// The last member takes the place of member `i`.
    pub open spec fn without(self, i: int) -> Members {
        Members { members: self.members.update(i, self.members.last()).drop_last(), ..self }
    }

    pub open spec fn touch(self, rid: int, step: u64) -> Members {
        Members { last_used: self.last_used.update(rid, step), ..self }
    }
}

/// The records of a list that were last used at a step.
pub open spec fn of_step(list: Seq<usize>, last_used: Seq<u64>, step: u64) -> Seq<usize>
    decreases list.len(),
{
    if list.len() == 0 {
        Seq::empty()
    } else if last_used[list.last() as int] == step {
        of_step(list.drop_last(), last_used, step).push(list.last())
    } else {
        of_step(list.drop_last(), last_used, step)
    }
}

proof fn lemma_of_step(list: Seq<usize>, last_used: Seq<u64>, step: u64)
    ensures
        of_step(list, last_used, step).len() <= list.len(),
        forall|x: usize|
            #[trigger] of_step(list, last_used, step).contains(x) <==> list.contains(x) && last_used[x as int] == step,
        (forall|i: int, j: int| 0 <= i < j < list.len() ==> #[trigger] list[i] != #[trigger] list[j]) ==> forall|
            i: int,
            j: int,
        |
            0 <= i < j < of_step(list, last_used, step).len() ==> #[trigger] of_step(list, last_used, step)[i]
                != #[trigger] of_step(list, last_used, step)[j],
    decreases list.len(),
{
    if list.len() > 0 {
        let head = list.drop_last();
        lemma_of_step(head, last_used, step);
        let before = of_step(head, last_used, step);
        let after = of_step(list, last_used, step);
        assert forall|x: usize| #[trigger] after.contains(x) <==> list.contains(x) && last_used[x as int] == step by {
            if list.contains(x) && last_used[x as int] == step {
                let k = choose|k: int| 0 <= k < list.len() && list[k] == x;
                if k < head.len() {
                    assert(head[k] == x);
                    assert(before.contains(x));
                    let m = choose|m: int| 0 <= m < before.len() && before[m] == x;
                    assert(after[m] == x);
                } else {
                    assert(after[after.len() - 1] == x);
                }
            }
            if after.contains(x) {
                let m = choose|m: int| 0 <= m < after.len() && after[m] == x;
                if m < before.len() {
                    assert(before[m] == x);
                    assert(before.contains(x));
                    let k = choose|k: int| 0 <= k < head.len() && head[k] == x;
                    assert(list[k] == x);
                } else {
                    assert(list[list.len() - 1] == x);
                }
            }
        }
        if forall|i: int, j: int| 0 <= i < j < list.len() ==> #[trigger] list[i] != #[trigger] list[j] {
            assert forall|i: int, j: int| 0 <= i < j < head.len() implies #[trigger] head[i] != #[trigger] head[j] by {
                assert(list[i] != list[j]);
            }
            assert forall|i: int, j: int| 0 <= i < j < after.len() implies #[trigger] after[i] != #[trigger] after[j] by {
                if j == before.len() {
                    assert(before.contains(before[i]));
                    let k = choose|k: int| 0 <= k < head.len() && head[k] == before[i];
                    assert(list[k] != list[list.len() - 1]);
                } else {
                    assert(before[i] != before[j]);
                }
            }
        }
    }
}

/// Giving up reservations keeps the rest as it is.
pub proof fn lemma_lapsed(m: Members, step: u64)
    requires
        m.wf(),
    ensures
        m.lapsed(step).wf(),
        forall|budget: int| #[trigger] m.within(budget) ==> m.lapsed(step).within(budget),
        forall|x: usize|
            #[trigger] m.lapsed(step).waiting.contains(x) <==> m.waiting.contains(x) && m.last_used[x as int] == step,
{
    lemma_of_step(m.waiting, m.last_used, step);
    let after = m.lapsed(step);
    assert forall|i: int| 0 <= i < after.waiting.len() implies (#[trigger] after.waiting[i]) < after.last_used.len()
        && !after.members.contains(after.waiting[i]) by {
        assert(after.waiting.contains(after.waiting[i]));
        let k = choose|k: int| 0 <= k < m.waiting.len() && m.waiting[k] == after.waiting[i];
        assert(!m.members.contains(m.waiting[k]));
    }
}

/// The outcome of reserving membership for records one after the other.
pub struct Reserved {
    pub members: Members,
    /// The records that have to be in memory before `finish` adds them.
    pub need: Seq<usize>,
    /// The records that left the set, in order.
    pub evicted: Seq<usize>,
    /// No member could be given up; no room is reserved then.
    pub full: bool,
}

/// Reserve membership for `rids` in order: a member is marked used; for another, room is
/// made when members and reservations fill the budget. Where none can be made, what was
/// reserved for the records before is given back.
pub open spec fn reserved(start: Members, budget: int, rids: Seq<usize>, step: u64) -> Reserved
    decreases rids.len(),
{
    if rids.len() == 0 {
        Reserved { members: start, need: Seq::empty(), evicted: Seq::empty(), full: false }
    } else {
        let before = reserved(start, budget, rids.drop_last(), step);
        if before.full {
            before
        } else {
            let rid = rids.last();
            let marked = before.members.touch(rid as int, step);
            if marked.members.contains(rid) {
                Reserved { members: marked, ..before }
            } else if marked.waiting.contains(rid) {
                Reserved { members: marked, need: before.need.push(rid), ..before }
            } else if marked.members.len() + marked.waiting.len() < budget {
                Reserved { members: marked.reserve(rid), need: before.need.push(rid), ..before }
            } else if victim::has_victim(marked.used(), step) {
                let v = victim::victim(marked.used(), step);
                Reserved {
                    members: marked.without(v).reserve(rid),
                    need: before.need.push(rid),
                    evicted: before.evicted.push(marked.members[v]),
                    full: false,
                }
            } else {
                Reserved { members: Members { waiting: start.waiting, ..marked }, full: true, ..before }
            }
        }
    }
}

/// Reserve membership for `rids` at a step. What room was reserved at another step for, and did
/// not come into memory, has lost it.
pub open spec fn acquired(start: Members, budget: int, rids: Seq<usize>, step: u64) -> Reserved {
    reserved(start.lapsed(step), budget, rids, step)
}

/// The set after the records `rids` came into memory in order.
pub open spec fn finished(start: Members, budget: int, rids: Seq<usize>) -> Members
    decreases rids.len(),
{
    if rids.len() == 0 {
        start
    } else {
        finished(start, budget, rids.drop_last()).join(rids.last(), budget)
    }
}

proof fn lemma_without_wf(m: Members, v: int)
    requires
        m.wf(),
        0 <= v < m.members.len(),
    ensures
        m.without(v).wf(),
        forall|r: usize| #[trigger] m.without(v).members.contains(r) <==> m.members.contains(r) && r != m.members[v],
{
    let last = m.members.len() - 1;
    let after = m.without(v).members;
    assert forall|r: usize| #[trigger] after.contains(r) <==> m.members.contains(r) && r != m.members[v] by {
        if after.contains(r) {
            let i = choose|i: int| 0 <= i < after.len() && after[i] == r;
            if i == v {
                assert(m.members[last] == r);
            } else {
                assert(m.members[i] == r);
            }
        }
        if m.members.contains(r) && r != m.members[v] {
            let i = choose|i: int| 0 <= i < m.members.len() && m.members[i] == r;
            if i == last {
                assert(after[v] == r);
            } else {
                assert(after[i] == r);
            }
        }
    }
}

/// What room was reserved for before stays in line, at the front.
proof fn lemma_waiting_kept(start: Members, budget: int, rids: Seq<usize>, step: u64)
    ensures
        ({
            let after = reserved(start, budget, rids, step).members;
            &&& start.waiting.len() <= after.waiting.len()
            &&& after.waiting.take(start.waiting.len() as int) == start.waiting
        }),
    decreases rids.len(),
{
    if rids.len() > 0 {
        lemma_waiting_kept(start, budget, rids.drop_last(), step);
        let before = reserved(start, budget, rids.drop_last(), step).members;
        let after = reserved(start, budget, rids, step).members;
        let n = start.waiting.len() as int;
        assert(before.waiting.take(n) == start.waiting);
        assert(after.waiting.take(n) =~= start.waiting) by {
            assert forall|i: int| 0 <= i < n implies after.waiting[i] == start.waiting[i] by {
                assert(before.waiting.take(n)[i] == before.waiting[i]);
            }
        }
    } else {
        assert(start.waiting.take(start.waiting.len() as int) =~= start.waiting);
    }
}

/// Reservations keep members and reservations together within the budget.
pub proof fn law_reserved_within_budget(start: Members, budget: int, rids: Seq<usize>, step: u64)
    requires
        start.wf(),
        start.within(budget),
        forall|i: int| 0 <= i < rids.len() ==> (#[trigger] rids[i]) < start.last_used.len(),
    ensures
        reserved(start, budget, rids, step).members.wf(),
        reserved(start, budget, rids, step).members.within(budget),
    decreases rids.len(),
{
    lemma_reserved_wf(start, budget, rids, step);
    if rids.len() > 0 {
        let head = rids.drop_last();
        assert forall|i: int| 0 <= i < head.len() implies (#[trigger] head[i]) < start.last_used.len() by {
            assert(head[i] == rids[i]);
        }
        law_reserved_within_budget(start, budget, head, step);
        lemma_waiting_kept(start, budget, head, step);
        let before = reserved(start, budget, head, step);
        if !before.full {
            let marked = before.members.touch(rids.last() as int, step);
            if victim::has_victim(marked.used(), step) {
                victim::lemma_victim_exists(marked.used(), step);
            }
        }
    }
}

proof fn lemma_reserve_wf(m: Members, rid: usize)
    requires
        m.wf(),
        rid < m.last_used.len(),
        !m.waiting.contains(rid),
        !m.members.contains(rid),
    ensures
        m.reserve(rid).wf(),
{
    let after = m.reserve(rid);
    assert forall|i: int, j: int| 0 <= i < j < after.waiting.len() implies #[trigger] after.waiting[i]
        != #[trigger] after.waiting[j] by {
        assert(after.waiting[i] == m.waiting[i]);
        if j == m.waiting.len() {
            assert(m.waiting.contains(m.waiting[i]));
        }
    }
}

/// Reservations keep members and reservations distinct and known.
pub proof fn lemma_reserved_wf(start: Members, budget: int, rids: Seq<usize>, step: u64)
    requires
        start.wf(),
        forall|i: int| 0 <= i < rids.len() ==> (#[trigger] rids[i]) < start.last_used.len(),
    ensures
        reserved(start, budget, rids, step).members.wf(),
        reserved(start, budget, rids, step).members.last_used.len() == start.last_used.len(),
    decreases rids.len(),
{
    if rids.len() > 0 {
        let head = rids.drop_last();
        assert forall|i: int| 0 <= i < head.len() implies (#[trigger] head[i]) < start.last_used.len() by {
            assert(head[i] == rids[i]);
        }
        assert(rids[rids.len() - 1] == rids.last());
        lemma_reserved_wf(start, budget, head, step);
        lemma_waiting_kept(start, budget, head, step);
        let before = reserved(start, budget, head, step);
        if !before.full {
            let rid = rids.last();
            let marked = before.members.touch(rid as int, step);
            assert(marked.wf());
            let back = Members { waiting: start.waiting, ..marked };
            assert(back.wf()) by {
                assert forall|i: int| 0 <= i < start.waiting.len() implies !marked.members.contains(
                    #[trigger] start.waiting[i],
                ) by {
                    assert(marked.waiting.take(start.waiting.len() as int)[i] == marked.waiting[i]);
                }
            }
            if !marked.members.contains(rid) && !marked.waiting.contains(rid) {
                lemma_reserve_wf(marked, rid);
                if victim::has_victim(marked.used(), step) {
                    victim::lemma_victim_exists(marked.used(), step);
                    let v = victim::victim(marked.used(), step);
                    lemma_without_wf(marked, v);
                    lemma_reserve_wf(marked.without(v), rid);
                }
            }
        }
    }
}

proof fn lemma_join_wf(m: Members, rid: usize, budget: int)
    requires
        m.wf(),
        rid < m.last_used.len(),
    ensures
        m.join(rid, budget).wf(),
        m.join(rid, budget).last_used == m.last_used,
        m.within(budget) ==> m.join(rid, budget).within(budget),
        forall|x: usize| m.members.contains(x) ==> #[trigger] m.join(rid, budget).members.contains(x),
        m.waiting.contains(rid) ==> m.join(rid, budget).members.contains(rid),
        forall|x: usize| #[trigger] m.join(rid, budget).waiting.contains(x) <==> m.waiting.contains(x) && x != rid,
{
    let after = m.join(rid, budget);
    if m.waiting.contains(rid) || (!m.members.contains(rid) && m.members.len() + m.waiting.len() < budget) {
        assert(after.members == m.members.push(rid));
        assert(!m.members.contains(rid)) by {
            if m.waiting.contains(rid) {
                assert(!m.members.contains(m.waiting[m.waiting.index_of(rid)]));
            }
        }
        assert forall|x: usize| m.members.contains(x) implies #[trigger] after.members.contains(x) by {
            let i = choose|i: int| 0 <= i < m.members.len() && m.members[i] == x;
            assert(after.members[i] == x);
        }
        assert(after.members[m.members.len() as int] == rid);
        assert forall|i: int, j: int| 0 <= i < j < after.members.len() implies #[trigger] after.members[i]
            != #[trigger] after.members[j] by {
            if j == m.members.len() {
                assert(m.members.contains(m.members[i]));
            }
        }
        assert forall|x: usize| #[trigger] after.members.contains(x) && x != rid implies m.members.contains(x) by {
            let i = choose|i: int| 0 <= i < after.members.len() && after.members[i] == x;
            assert(m.members[i] == x);
        }
    }
    if m.waiting.contains(rid) {
        let at = m.waiting.index_of(rid);
        assert(m.waiting[at] == rid);
        assert forall|x: usize| #[trigger] after.waiting.contains(x) <==> m.waiting.contains(x) && x != rid by {
            if after.waiting.contains(x) {
                let i = choose|i: int| 0 <= i < after.waiting.len() && after.waiting[i] == x;
                let k = if i < at { i } else { i + 1 };
                assert(m.waiting[k] == x);
                if k < at {
                    assert(m.waiting[k] != m.waiting[at]);
                } else {
                    assert(m.waiting[at] != m.waiting[k]);
                }
            }
            if m.waiting.contains(x) && x != rid {
                let k = choose|k: int| 0 <= k < m.waiting.len() && m.waiting[k] == x;
                assert(after.waiting[if k < at { k } else { k - 1 }] == x);
            }
        }
        assert forall|i: int, j: int| 0 <= i < j < after.waiting.len() implies #[trigger] after.waiting[i]
            != #[trigger] after.waiting[j] by {
            let x = if i < at { i } else { i + 1 };
            let y = if j < at { j } else { j + 1 };
            assert(m.waiting[x] != m.waiting[y]);
        }
    }
    assert forall|i: int| 0 <= i < after.waiting.len() implies (#[trigger] after.waiting[i]) < after.last_used.len()
        && !after.members.contains(after.waiting[i]) by {
        assert(after.waiting.contains(after.waiting[i]));
        let k = choose|k: int| 0 <= k < m.waiting.len() && m.waiting[k] == after.waiting[i];
        assert(!m.members.contains(m.waiting[k]));
    }
}

/// What comes into memory takes the room that was reserved for it, or free room: members and
/// reservations stay distinct and within the budget.
pub proof fn law_finished_within_budget(start: Members, budget: int, rids: Seq<usize>)
    requires
        start.wf(),
        start.within(budget),
        forall|i: int| 0 <= i < rids.len() ==> (#[trigger] rids[i]) < start.last_used.len(),
    ensures
        finished(start, budget, rids).wf(),
        finished(start, budget, rids).within(budget),
        finished(start, budget, rids).last_used == start.last_used,
        finished(start, budget, rids).members.len() <= budget,
    decreases rids.len(),
{
    lemma_finished_wf(start, budget, rids);
}

proof fn lemma_finished_wf(start: Members, budget: int, rids: Seq<usize>)
    requires
        start.wf(),
        forall|i: int| 0 <= i < rids.len() ==> (#[trigger] rids[i]) < start.last_used.len(),
    ensures
        finished(start, budget, rids).wf(),
        start.within(budget) ==> finished(start, budget, rids).within(budget),
        finished(start, budget, rids).last_used == start.last_used,
    decreases rids.len(),
{
    if rids.len() > 0 {
        let head = rids.drop_last();
        assert forall|i: int| 0 <= i < head.len() implies (#[trigger] head[i]) < start.last_used.len() by {
            assert(head[i] == rids[i]);
        }
        assert(rids[rids.len() - 1] == rids.last());
        lemma_finished_wf(start, budget, head);
        lemma_join_wf(finished(start, budget, head), rids.last(), budget);
    }
}

/// What a granted reservation still needs in memory has room reserved for it.
pub proof fn lemma_need_waits(start: Members, budget: int, rids: Seq<usize>, step: u64, i: int)
    requires
        !reserved(start, budget, rids, step).full,
        0 <= i < reserved(start, budget, rids, step).need.len(),
    ensures
        reserved(start, budget, rids, step).members.waiting.contains(reserved(start, budget, rids, step).need[i]),
    decreases rids.len(),
{
    let before = reserved(start, budget, rids.drop_last(), step);
    let out = reserved(start, budget, rids, step);
    if i < before.need.len() {
        lemma_need_waits(start, budget, rids.drop_last(), step, i);
        let x = before.need[i];
        let k = choose|k: int| 0 <= k < before.members.waiting.len() && before.members.waiting[k] == x;
        assert(out.members.waiting[k] == x);
    } else if !before.members.waiting.contains(rids.last()) {
        assert(out.members.waiting[out.members.waiting.len() - 1] == rids.last());
    }
}

/// A record that room is reserved for keeps it through further reservations.
pub proof fn lemma_waiting_stays(start: Members, budget: int, rids: Seq<usize>, step: u64, x: usize)
    requires
        start.waiting.contains(x),
    ensures
        reserved(start, budget, rids, step).members.waiting.contains(x),
{
    lemma_waiting_kept(start, budget, rids, step);
    let after = reserved(start, budget, rids, step).members;
    let k = choose|k: int| 0 <= k < start.waiting.len() && start.waiting[k] == x;
    assert(after.waiting.take(start.waiting.len() as int)[k] == after.waiting[k]);
}

/// The set holds up to a budget of records: what a granted reservation asks for is in the set
/// once it came into memory, and the set is no larger than its budget.
pub proof fn law_set_holds_its_budget(set: Residency, rids: Seq<usize>, step: u64)
    requires
        set.wf(),
        forall|i: int| 0 <= i < rids.len() ==> (#[trigger] rids[i]) < set.last_used.len(),
        !acquired(set@, set.budget as int, rids, step).full,
    ensures
        ({
            let out = acquired(set@, set.budget as int, rids, step);
            let after = finished(out.members, set.budget as int, out.need);
            &&& after.members.len() <= set.budget
            &&& forall|i: int| 0 <= i < rids.len() ==> after.members.contains(#[trigger] rids[i])
        }),
{
    let budget = set.budget as int;
    let start = set@.lapsed(step);
    lemma_lapsed(set@, step);
    assert(set@.within(budget));
    let out = reserved(start, budget, rids, step);
    law_reserved_within_budget(start, budget, rids, step);
    assert forall|k: int| 0 <= k < out.need.len() implies (#[trigger] out.need[k]) < out.members.last_used.len() by {
        lemma_need_waits(start, budget, rids, step, k);
        let m = choose|m: int| 0 <= m < out.members.waiting.len() && out.members.waiting[m] == out.need[k];
        assert(out.members.waiting[m] < out.members.last_used.len());
    }
    law_finished_within_budget(out.members, budget, out.need);
    assert forall|i: int| 0 <= i < rids.len() implies finished(out.members, budget, out.need).members.contains(
        #[trigger] rids[i],
    ) by {
        law_reserved_records_accounted(start, budget, rids, step, i);
        if !out.members.members.contains(rids[i]) {
            let k = choose|k: int| 0 <= k < out.need.len() && out.need[k] == rids[i];
            lemma_need_waits(start, budget, rids, step, k);
        }
        law_finished_records_are_members(out.members, budget, out.need, rids[i]);
    }
}

/// A reservation of an earlier step does not hold its room: at a later step a set that may hold a
/// record grants one, whatever was reserved before and never came into memory.
pub proof fn law_old_reservations_lapse(set: Residency, rid: usize, step: u64)
    requires
        set.wf(),
        set.budget > 0,
        rid < set.last_used.len(),
        forall|i: int| 0 <= i < set.last_used.len() ==> (#[trigger] set.last_used@[i]) < step,
    ensures
        !acquired(set@, set.budget as int, seq![rid], step).full,
{
    let start = set@.lapsed(step);
    lemma_lapsed(set@, step);
    let one = seq![rid];
    assert(one.drop_last() =~= Seq::<usize>::empty());
    assert(reserved(start, set.budget as int, one.drop_last(), step).members == start);
    assert(start.waiting.len() == 0) by {
        if start.waiting.len() > 0 {
            assert(start.waiting.contains(start.waiting[0]));
            assert(set.last_used@[start.waiting[0] as int] == step);
        }
    }
    let marked = start.touch(rid as int, step);
    if !marked.members.contains(rid) && marked.members.len() >= set.budget {
        let u = marked.used();
        assert(marked.members.contains(marked.members[0]));
        assert(u[0] == set.last_used@[marked.members[0] as int]);
        assert(victim::evictable(u, step, 0));
    }
}

/// No record used at this step leaves the set.
pub proof fn law_evicted_not_used_this_step(start: Members, budget: int, rids: Seq<usize>, step: u64, i: int)
    requires
        start.wf(),
        forall|k: int| 0 <= k < rids.len() ==> (#[trigger] rids[k]) < start.last_used.len(),
        0 <= i < reserved(start, budget, rids, step).evicted.len(),
    ensures
        start.last_used[reserved(start, budget, rids, step).evicted[i] as int] != step,
    decreases rids.len(),
{
    let head = rids.drop_last();
    assert forall|k: int| 0 <= k < head.len() implies (#[trigger] head[k]) < start.last_used.len() by {
        assert(head[k] == rids[k]);
    }
    lemma_reserved_wf(start, budget, head, step);
    let before = reserved(start, budget, head, step);
    if i < before.evicted.len() {
        law_evicted_not_used_this_step(start, budget, head, step, i);
    } else {
        assert(rids[rids.len() - 1] == rids.last());
        let marked = before.members.touch(rids.last() as int, step);
        victim::lemma_victim_exists(marked.used(), step);
        let v = victim::victim(marked.used(), step);
        assert(marked.used()[v] != step);
        lemma_last_used_marks(start, budget, head, step, marked.members[v] as int);
    }
}

/// A record whose last use is not this step was not touched by the reservations.
proof fn lemma_last_used_marks(start: Members, budget: int, rids: Seq<usize>, step: u64, r: int)
    requires
        0 <= r < start.last_used.len(),
        forall|k: int| 0 <= k < rids.len() ==> (#[trigger] rids[k]) < start.last_used.len(),
    ensures
        ({
            let m = reserved(start, budget, rids, step).members;
            &&& m.last_used.len() == start.last_used.len()
            &&& m.last_used[r] == start.last_used[r] || m.last_used[r] == step
        }),
    decreases rids.len(),
{
    if rids.len() > 0 {
        let head = rids.drop_last();
        assert forall|k: int| 0 <= k < head.len() implies (#[trigger] head[k]) < start.last_used.len() by {
            assert(head[k] == rids[k]);
        }
        assert(rids[rids.len() - 1] == rids.last());
        lemma_last_used_marks(start, budget, head, step, r);
    }
}

/// What a granted reservation leaves of each record: it was used at this step, and it is a
/// member unless it has to come into memory first.
pub proof fn law_reserved_records_accounted(start: Members, budget: int, rids: Seq<usize>, step: u64, i: int)
    requires
        start.wf(),
        forall|k: int| 0 <= k < rids.len() ==> (#[trigger] rids[k]) < start.last_used.len(),
        !reserved(start, budget, rids, step).full,
        0 <= i < rids.len(),
    ensures
        ({
            let out = reserved(start, budget, rids, step);
            &&& out.members.last_used[rids[i] as int] == step
            &&& out.members.members.contains(rids[i]) || out.need.contains(rids[i])
        }),
    decreases rids.len(),
{
    let head = rids.drop_last();
    assert forall|k: int| 0 <= k < head.len() implies (#[trigger] head[k]) < start.last_used.len() by {
        assert(head[k] == rids[k]);
    }
    assert(rids[rids.len() - 1] == rids.last());
    lemma_reserved_wf(start, budget, head, step);
    let before = reserved(start, budget, head, step);
    let out = reserved(start, budget, rids, step);
    let rid = rids.last();
    let marked = before.members.touch(rid as int, step);
    if i < head.len() {
        assert(head[i] == rids[i]);
        law_reserved_records_accounted(start, budget, head, step, i);
        let x = rids[i];
        if before.members.members.contains(x) {
            lemma_step_keeps_member(start, budget, rids, step, x);
        } else {
            let k = choose|k: int| 0 <= k < before.need.len() && before.need[k] == x;
            assert(out.need[k] == x);
        }
    } else if !marked.members.contains(rid) {
        assert(out.need == before.need.push(rid));
        assert(out.need[before.need.len() as int] == rid);
    }
}

/// The last record of `rids` does not push out a member that was used at this step.
proof fn lemma_step_keeps_member(start: Members, budget: int, rids: Seq<usize>, step: u64, x: usize)
    requires
        start.wf(),
        rids.len() > 0,
        forall|k: int| 0 <= k < rids.len() ==> (#[trigger] rids[k]) < start.last_used.len(),
        x < start.last_used.len(),
        ({
            let before = reserved(start, budget, rids.drop_last(), step).members;
            before.members.contains(x) && before.last_used[x as int] == step
        }),
    ensures
        ({
            let after = reserved(start, budget, rids, step).members;
            after.members.contains(x) && after.last_used[x as int] == step
        }),
{
    let head = rids.drop_last();
    assert forall|k: int| 0 <= k < head.len() implies (#[trigger] head[k]) < start.last_used.len() by {
        assert(head[k] == rids[k]);
    }
    assert(rids[rids.len() - 1] == rids.last());
    lemma_reserved_wf(start, budget, head, step);
    let before = reserved(start, budget, head, step);
    let rid = rids.last();
    let marked = before.members.touch(rid as int, step);
    if !before.full && !marked.members.contains(rid) && !marked.waiting.contains(rid) && marked.members.len()
        + marked.waiting.len() >= budget && victim::has_victim(marked.used(), step) {
        victim::lemma_victim_exists(marked.used(), step);
        let v = victim::victim(marked.used(), step);
        assert(marked.used()[v] != step);
        assert(marked.members[v] != x);
        lemma_without_wf(marked, v);
    }
}

/// A member that was used at this step stays one through any further reservations at the step.
pub proof fn law_member_used_this_step_stays(start: Members, budget: int, rids: Seq<usize>, step: u64, x: usize)
    requires
        start.wf(),
        forall|k: int| 0 <= k < rids.len() ==> (#[trigger] rids[k]) < start.last_used.len(),
        x < start.last_used.len(),
        start.members.contains(x),
        start.last_used[x as int] == step,
    ensures
        reserved(start, budget, rids, step).members.members.contains(x),
        reserved(start, budget, rids, step).members.last_used[x as int] == step,
    decreases rids.len(),
{
    if rids.len() > 0 {
        let head = rids.drop_last();
        assert forall|k: int| 0 <= k < head.len() implies (#[trigger] head[k]) < start.last_used.len() by {
            assert(head[k] == rids[k]);
        }
        law_member_used_this_step_stays(start, budget, head, step, x);
        lemma_step_keeps_member(start, budget, rids, step, x);
    }
}

/// What comes into memory and has room reserved joins, and no member leaves for it.
pub proof fn law_finished_records_are_members(start: Members, budget: int, rids: Seq<usize>, x: usize)
    requires
        start.wf(),
        forall|i: int| 0 <= i < rids.len() ==> (#[trigger] rids[i]) < start.last_used.len(),
        start.members.contains(x) || (start.waiting.contains(x) && rids.contains(x)),
    ensures
        finished(start, budget, rids).members.contains(x),
    decreases rids.len(),
{
    if rids.len() > 0 {
        let head = rids.drop_last();
        assert forall|i: int| 0 <= i < head.len() implies (#[trigger] head[i]) < start.last_used.len() by {
            assert(head[i] == rids[i]);
        }
        assert(rids[rids.len() - 1] == rids.last());
        lemma_finished_wf(start, budget, head);
        let before = finished(start, budget, head);
        lemma_join_wf(before, rids.last(), budget);
        if start.members.contains(x) || head.contains(x) {
            law_finished_records_are_members(start, budget, head, x);
        } else {
            let k = choose|k: int| 0 <= k < rids.len() && rids[k] == x;
            if k < head.len() {
                assert(head[k] == x);
            }
            lemma_unjoined_waits(start, budget, head, x);
        }
    }
}

/// A record that room is reserved for keeps it while others come into memory.
proof fn lemma_unjoined_waits(start: Members, budget: int, rids: Seq<usize>, x: usize)
    requires
        start.wf(),
        forall|i: int| 0 <= i < rids.len() ==> (#[trigger] rids[i]) < start.last_used.len(),
        start.waiting.contains(x),
        !rids.contains(x),
    ensures
        finished(start, budget, rids).waiting.contains(x),
    decreases rids.len(),
{
    if rids.len() > 0 {
        let head = rids.drop_last();
        assert forall|i: int| 0 <= i < head.len() implies (#[trigger] head[i]) < start.last_used.len() by {
            assert(head[i] == rids[i]);
        }
        assert(!head.contains(x)) by {
            if head.contains(x) {
                let k = choose|k: int| 0 <= k < head.len() && head[k] == x;
                assert(rids[k] == x);
            }
        }
        assert(rids[rids.len() - 1] == rids.last());
        lemma_unjoined_waits(start, budget, head, x);
        lemma_finished_wf(start, budget, head);
        lemma_join_wf(finished(start, budget, head), rids.last(), budget);
    }
}

/// What has to come into memory was asked for.
pub proof fn lemma_need_is_asked(start: Members, budget: int, rids: Seq<usize>, step: u64, i: int)
    requires
        0 <= i < reserved(start, budget, rids, step).need.len(),
    ensures
        rids.contains(reserved(start, budget, rids, step).need[i]),
    decreases rids.len(),
{
    let head = rids.drop_last();
    let before = reserved(start, budget, head, step);
    if i < before.need.len() {
        lemma_need_is_asked(start, budget, head, step, i);
        let x = before.need[i];
        let k = choose|k: int| 0 <= k < head.len() && head[k] == x;
        assert(rids[k] == x);
    } else {
        assert(rids[rids.len() - 1] == rids.last());
    }
}

/// A residency set over the mapped expert file.
#[derive(Debug)]
pub struct Residency {
    pub stride: usize,
    /// Position in `members` of each record in the set.
    pub member_pos: Vec<Option<usize>>,
    pub members: Vec<usize>,
    /// Records that room is reserved for until they come into memory.
    pub waiting: Vec<usize>,
    /// Step of last use per record (recency key and eviction guard).
    pub last_used: Vec<u64>,
    /// Records changed in the device's set since the last commit.
    pub dirty: bool,
    pub budget: usize,
}

impl View for Residency {
    type V = Members;

    open spec fn view(&self) -> Members {
        Members { members: self.members@, waiting: self.waiting@, last_used: self.last_used@ }
    }
}

impl Residency {
    /// Positions and members agree, members and reservations stay within the budget, and the
    /// mapping is addressable.
    pub open spec fn wf(self) -> bool {
        &&& self@.wf()
        &&& self@.within(self.budget as int)
        &&& self.positions()
        &&& self.last_used.len() * self.stride <= usize::MAX
    }

    pub open spec fn positions(self) -> bool {
        &&& self.member_pos.len() == self.last_used.len()
        &&& forall|i: int|
            0 <= i < self.members.len() ==> self.member_pos@[#[trigger] self.members@[i] as int] == Some(i as usize)
        &&& forall|r: int|
            0 <= r < self.member_pos.len() && (#[trigger] self.member_pos@[r]) is Some ==> {
                &&& self.member_pos@[r]->0 < self.members.len()
                &&& self.members@[self.member_pos@[r]->0 as int] == r
            }
    }

    pub open spec fn same_shape(self, other: Residency) -> bool {
        &&& self.stride == other.stride
        &&& self.budget == other.budget
        &&& self.last_used.len() == other.last_used.len()
    }

    pub fn new(stride: usize, n_records: usize, budget: usize) -> (r: Residency)
        requires
            n_records * stride <= usize::MAX,
        ensures
            r.wf(),
            r.stride == stride,
            r.budget == budget,
            r.members.len() == 0,
            r.waiting.len() == 0,
            r.last_used@ == Seq::new(n_records as nat, |i: int| 0u64),
            r.member_pos@ == Seq::new(n_records as nat, |i: int| None::<usize>),
            !r.dirty,
    {
        let set = Residency {
            stride,
            member_pos: vec![None; n_records],
            members: Vec::new(),
            waiting: Vec::new(),
            last_used: vec![0; n_records],
            dirty: false,
            budget,
        };
        assert(set.last_used@ =~= Seq::new(n_records as nat, |i: int| 0u64));
        assert(set.member_pos@ =~= Seq::new(n_records as nat, |i: int| None::<usize>));
        set
    }

    pub fn resident(&self) -> (r: usize)
        ensures
            r == self@.members.len(),
    {
        self.members.len()
    }

    pub fn is_member(&self, rid: usize) -> (r: bool)
        requires
            self.wf(),
            rid < self.last_used.len(),
        ensures
            r == self@.members.contains(rid),
    {
        proof {
            self.lemma_member(rid);
        }
        self.member_pos[rid].is_some()
    }

    proof fn lemma_member(self, rid: usize)
        requires
            self@.wf(),
            self.positions(),
            rid < self.last_used.len(),
        ensures
            self@.members.contains(rid) <==> self.member_pos@[rid as int] is Some,
    {
        if self.member_pos@[rid as int] is Some {
            assert(self.members@[self.member_pos@[rid as int]->0 as int] == rid);
        }
        if self@.members.contains(rid) {
            let i = choose|i: int| 0 <= i < self.members@.len() && self.members@[i] == rid;
            assert(self.member_pos@[self.members@[i] as int] == Some(i as usize));
        }
    }

    /// Where room is reserved for a record.
    fn waiting_at(&self, rid: usize) -> (r: Option<usize>)
        requires
            self@.wf(),
        ensures
            match r {
                Some(i) => {
                    &&& i < self.waiting.len()
                    &&& self@.waiting.contains(rid)
                    &&& self@.waiting.index_of(rid) == i
                },
                None => !self@.waiting.contains(rid),
            },
    {
        let mut i: usize = 0;
        while i < self.waiting.len()
            invariant
                i <= self.waiting.len(),
                self@.wf(),
                forall|k: int| 0 <= k < i ==> #[trigger] self.waiting@[k] != rid,
            decreases self.waiting.len() - i,
        {
            if self.waiting[i] == rid {
                proof {
                    let at = self@.waiting.index_of(rid);
                    assert(self.waiting@[i as int] == rid);
                    assert(0 <= at < self.waiting@.len() && self.waiting@[at] == rid);
                    if at < i {
                        assert(self@.waiting[at] != self@.waiting[i as int]);
                    } else if i < at {
                        assert(self@.waiting[i as int] != self@.waiting[at]);
                    }
                }
                return Some(i);
            }
            i = i + 1;
        }
        None
    }

    /// Gives up the reservations of other steps.
    fn lapse(&mut self, step: u64)
        requires
            old(self).wf(),
        ensures
            final(self).wf(),
            final(self).same_shape(*old(self)),
            final(self)@ == old(self)@.lapsed(step),
            final(self).dirty == old(self).dirty,
    {
        let ghost start = *self;
        let mut kept: Vec<usize> = Vec::new();
        let mut i: usize = 0;
        assert(start.waiting@.take(0) =~= Seq::<usize>::empty());
        while i < self.waiting.len()
            invariant
                i <= self.waiting.len(),
                *self == start,
                start.wf(),
                kept@ == of_step(start.waiting@.take(i as int), start.last_used@, step),
            decreases self.waiting.len() - i,
        {
            let rid: usize = self.waiting[i];
            assert(start.waiting@.take(i + 1).drop_last() =~= start.waiting@.take(i as int));
            assert(start@.waiting[i as int] == rid);
            if self.last_used[rid] == step {
                kept.push(rid);
            }
            i = i + 1;
        }
        assert(start.waiting@.take(i as int) =~= start.waiting@);
        self.waiting = kept;
        proof {
            lemma_lapsed(start@, step);
            assert(start@.within(start.budget as int));
            assert(self@ =~= start@.lapsed(step));
        }
    }

    /// Mark records used at `step` and reserve membership for them; see [`acquired`].
    pub fn acquire(&mut self, rids: &[usize], step: u64) -> (r: Result<Reservation, Refused>)
        requires
            old(self).wf(),
            forall|i: int| 0 <= i < rids.len() ==> (#[trigger] rids@[i]) < old(self).last_used.len(),
        ensures
            final(self).wf(),
            final(self).same_shape(*old(self)),
            final(self)@ == acquired(old(self)@, old(self).budget as int, rids@, step).members,
            final(self).dirty == (old(self).dirty || acquired(
                old(self)@,
                old(self).budget as int,
                rids@,
                step,
            ).evicted.len() > 0),
            match r {
                Ok(granted) => {
                    let out = acquired(old(self)@, old(self).budget as int, rids@, step);
                    &&& !out.full
                    &&& granted.need@ == out.need
                    &&& granted.evicted@ == out.evicted
                },
                Err(refused) => {
                    let out = acquired(old(self)@, old(self).budget as int, rids@, step);
                    &&& out.full
                    &&& refused.evicted@ == out.evicted
                    &&& refused.error == PoolError::BudgetTooSmall
                },
            },
    {
        let ghost start = *self;
        self.lapse(step);
        let ghost begun = *self;
        let held: usize = self.waiting.len();
        let mut need: Vec<usize> = Vec::new();
        let mut evicted: Vec<usize> = Vec::new();
        let mut i: usize = 0;
        while i < rids.len()
            invariant
                i <= rids.len(),
                start == *old(self),
                start.wf(),
                begun@ == start@.lapsed(step),
                begun.wf(),
                held == begun.waiting.len(),
                begun.same_shape(start),
                self.wf(),
                self.same_shape(start),
                need.len() <= i,
                forall|k: int| 0 <= k < rids.len() ==> (#[trigger] rids@[k]) < start.last_used.len(),
                !reserved(begun@, start.budget as int, rids@.take(i as int), step).full,
                self@ == reserved(begun@, start.budget as int, rids@.take(i as int), step).members,
                need@ == reserved(begun@, start.budget as int, rids@.take(i as int), step).need,
                evicted@ == reserved(begun@, start.budget as int, rids@.take(i as int), step).evicted,
                self.dirty == (start.dirty || evicted.len() > 0),
            decreases rids.len() - i,
        {
            let rid: usize = rids[i];
            let ghost before = self@;
            proof {
                assert(rids@.take(i + 1).drop_last() =~= rids@.take(i as int));
                assert(rids@.take(i + 1).last() == rid);
            }
            self.last_used.set(rid, step);
            let ghost marked = before.touch(rid as int, step);
            assert(self@ =~= marked);
            assert(self.wf());
            if !self.is_member(rid) {
                if self.waiting_at(rid).is_none() {
                    let taken: usize = self.members.len();
                    if taken >= self.budget || self.waiting.len() >= self.budget - taken {
                        match self.evict_one(step) {
                            Ok(gone) => {
                                evicted.push(gone);
                                proof {
                                    victim::lemma_victim_exists(marked.used(), step);
                                    lemma_without_wf(marked, victim::victim(marked.used(), step));
                                }
                            },
                            Err(e) => {
                                let ghost marked = self@;
                                self.waiting.truncate(held);
                                proof {
                                    lemma_waiting_kept(begun@, start.budget as int, rids@.take(i as int), step);
                                    assert(self@.waiting =~= begun@.waiting);
                                    lemma_reserved_full_stays(begun@, start.budget as int, rids@, i + 1, step);
                                    assert forall|k: int| 0 <= k < rids@.take(i + 1).len() implies (
                                    #[trigger] rids@.take(i + 1)[k]) < start.last_used.len() by {
                                        assert(rids@.take(i + 1)[k] == rids@[k]);
                                    }
                                    lemma_reserved_wf(begun@, start.budget as int, rids@.take(i + 1), step);
                                }
                                return Err(Refused { error: e, evicted });
                            },
                        }
                    }
                    let ghost room = self@;
                    proof {
                        lemma_reserve_wf(room, rid);
                    }
                    self.waiting.push(rid);
                    assert(self@ =~= room.reserve(rid));
                }
                need.push(rid);
            }
            i = i + 1;
        }
        assert(rids@.take(i as int) =~= rids@);
        Ok(Reservation { need, evicted })
    }

    /// Take the least recently used member that was not used at `step` out of the set.
    fn evict_one(&mut self, step: u64) -> (r: Result<usize, PoolError>)
        requires
            old(self).wf(),
        ensures
            final(self).wf(),
            final(self).same_shape(*old(self)),
            match r {
                Ok(gone) => {
                    let v = victim::victim(old(self)@.used(), step);
                    &&& victim::has_victim(old(self)@.used(), step)
                    &&& gone == old(self)@.members[v]
                    &&& final(self)@ == old(self)@.without(v)
                    &&& final(self).dirty
                },
                Err(e) => {
                    &&& !victim::has_victim(old(self)@.used(), step)
                    &&& e == PoolError::BudgetTooSmall
                    &&& *final(self) == *old(self)
                },
            },
    {
        let mut used: Vec<u64> = Vec::new();
        let mut i: usize = 0;
        while i < self.members.len()
            invariant
                i <= self.members.len(),
                self.wf(),
                used@ == self@.used().take(i as int),
            decreases self.members.len() - i,
        {
            let m: usize = self.members[i];
            used.push(self.last_used[m]);
            assert(used@ =~= self@.used().take(i + 1));
            i = i + 1;
        }
        assert(used@ =~= self@.used());
        match victim::find_victim(&used, step) {
            Some(best) => {
                let ghost before = *self;
                proof {
                    lemma_without_wf(before@, best as int);
                }
                let gone: usize = self.members[best];
                let last: usize = self.members.len() - 1;
                let moved: usize = self.members[last];
                self.members.set(best, moved);
                self.members.pop();
                self.member_pos.set(moved, Some(best));
                self.member_pos.set(gone, None);
                self.dirty = true;
                proof {
                    assert(self@ =~= before@.without(best as int));
                    assert(self.positions()) by {
                        assert forall|k: int| 0 <= k < self.members.len() implies self.member_pos@[
                            #[trigger] self.members@[k] as int
                        ] == Some(k as usize) by {
                            assert(self@.members.contains(self.members@[k]));
                            if k != best {
                                assert(self.members@[k] == before.members@[k]);
                                assert(before.member_pos@[before.members@[k] as int] == Some(k as usize));
                                assert(before.members@[k] != before.members@[last as int]);
                            }
                        }
                        assert forall|r: int|
                            0 <= r < self.member_pos.len() && (#[trigger] self.member_pos@[r]) is Some implies {
                            &&& self.member_pos@[r]->0 < self.members.len()
                            &&& self.members@[self.member_pos@[r]->0 as int] == r
                        } by {
                            if r != moved {
                                assert(before.member_pos@[r] is Some);
                                let at = before.member_pos@[r]->0 as int;
                                assert(before.members@[at] == r);
                            }
                        }
                    }
                }
                Ok(gone)
            },
            None => Err(PoolError::BudgetTooSmall),
        }
    }

    /// Add records whose pages are in memory, to the room that `acquire` reserved for them or to
    /// free room; the set is committed when it changed.
    pub fn finish(&mut self, rids: &[usize]) -> (r: Additions)
        requires
            old(self).wf(),
            forall|i: int| 0 <= i < rids.len() ==> (#[trigger] rids@[i]) < old(self).last_used.len(),
        ensures
            final(self).wf(),
            final(self).same_shape(*old(self)),
            final(self)@ == finished(old(self)@, old(self).budget as int, rids@),
            final(self)@.members == old(self)@.members + r.added@,
            r.commit == (old(self).dirty || r.added.len() > 0),
            !final(self).dirty,
    {
        let ghost start = *self;
        let mut added: Vec<usize> = Vec::new();
        let mut i: usize = 0;
        while i < rids.len()
            invariant
                i <= rids.len(),
                self.wf(),
                self.same_shape(start),
                forall|k: int| 0 <= k < rids.len() ==> (#[trigger] rids@[k]) < start.last_used.len(),
                start == *old(self),
                self@ == finished(start@, start.budget as int, rids@.take(i as int)),
                self@.members == start@.members + added@,
                self.dirty == (start.dirty || added.len() > 0),
            decreases rids.len() - i,
        {
            let rid: usize = rids[i];
            proof {
                assert(rids@.take(i + 1).drop_last() =~= rids@.take(i as int));
                assert(rids@.take(i + 1).last() == rid);
            }
            let ghost at_start = *self;
            proof {
                lemma_join_wf(at_start@, rid, start.budget as int);
                at_start.lemma_member(rid);
            }
            let taken: usize = self.members.len();
            let joins: bool = match self.waiting_at(rid) {
                Some(at) => {
                    self.waiting.remove(at);
                    true
                },
                None => !self.is_member(rid) && taken < self.budget && self.waiting.len() < self.budget - taken,
            };
            if joins {
                let last: usize = self.members.len();
                self.member_pos.set(rid, Some(last));
                self.members.push(rid);
                self.dirty = true;
                added.push(rid);
                proof {
                    assert(self@ =~= at_start@.join(rid, start.budget as int));
                    assert(self@.members =~= start@.members + added@);
                    assert forall|k: int| 0 <= k < at_start.members.len() implies #[trigger] at_start.members@[k]
                        != rid by {
                        if at_start@.waiting.contains(rid) {
                            assert(!at_start@.members.contains(at_start@.waiting[at_start@.waiting.index_of(rid)]));
                        }
                        assert(at_start.members@.contains(at_start.members@[k]));
                    }
                    assert(self.positions()) by {
                        assert forall|r: int|
                            0 <= r < self.member_pos.len() && (#[trigger] self.member_pos@[r]) is Some implies {
                            &&& self.member_pos@[r]->0 < self.members.len()
                            &&& self.members@[self.member_pos@[r]->0 as int] == r
                        } by {
                            if r != rid {
                                assert(at_start.member_pos@[r] is Some);
                                assert(at_start.members@[at_start.member_pos@[r]->0 as int] == r);
                            }
                        }
                    }
                }
            }
            assert(self@ =~= at_start@.join(rid, start.budget as int));
            i = i + 1;
        }
        assert(rids@.take(i as int) =~= rids@);
        let commit: bool = self.dirty;
        self.dirty = false;
        Additions { added, commit }
    }
}

proof fn lemma_reserved_full_stays(start: Members, budget: int, rids: Seq<usize>, n: int, step: u64)
    requires
        0 <= n <= rids.len(),
        reserved(start, budget, rids.take(n), step).full,
    ensures
        reserved(start, budget, rids, step) == reserved(start, budget, rids.take(n), step),
    decreases rids.len() - n,
{
    if n == rids.len() {
        assert(rids.take(n) =~= rids);
    } else {
        assert(rids.take(n + 1).drop_last() =~= rids.take(n));
        lemma_reserved_full_stays(start, budget, rids, n + 1, step);
    }
}

/// Asking for nothing keeps every member and those reservations that were made in the same step.
pub proof fn law_acquire_nothing(a: &mut Residency, rids: &[usize], step: u64, r: Result<Reservation, Refused>)
    requires
        old(a).wf(),
        rids@.len() == 0,
        call_ensures(Residency::acquire, (a, rids, step), r),
    ensures
        r matches Ok(granted) && granted.need@.len() == 0 && granted.evicted@.len() == 0,
        final(a).members@ == old(a).members@,
        final(a).last_used@ == old(a).last_used@,
        forall|x: usize|
            #[trigger] final(a).waiting@.contains(x) <==> old(a).waiting@.contains(x) && old(a).last_used@[x as int] == step,
{
    lemma_lapsed(old(a)@, step);
}

/// Asking for one record more: it is marked as used. A member needs nothing. Any other record is
/// needed: it has its reservation already, or takes free room, or takes the place of the member
/// that was used longest ago and not in this step. It is refused only where there is no such
/// member and no room.
pub proof fn law_acquire_one_more(
    a: &mut Residency,
    b: &mut Residency,
    front: &[usize],
    rids: &[usize],
    rid: usize,
    step: u64,
    granted: Reservation,
    r: Result<Reservation, Refused>,
)
    requires
        old(a).wf(),
        *old(b) == *old(a),
        rid < old(a).last_used@.len(),
        forall|i: int| 0 <= i < front@.len() ==> (#[trigger] front@[i]) < old(a).last_used@.len(),
        rids@ == front@.push(rid),
        call_ensures(Residency::acquire, (a, front, step), Ok(granted)),
        call_ensures(Residency::acquire, (b, rids, step), r),
    ensures
        final(b).last_used@ == final(a).last_used@.update(rid as int, step),
        final(a).members@.contains(rid) ==> {
            &&& r matches Ok(g) && g.need@ == granted.need@ && g.evicted@ == granted.evicted@
            &&& final(b).members@ == final(a).members@ && final(b).waiting@ == final(a).waiting@
        },
        !final(a).members@.contains(rid) && final(a).waiting@.contains(rid) ==> {
            &&& r matches Ok(g) && g.need@ == granted.need@.push(rid) && g.evicted@ == granted.evicted@
            &&& final(b).members@ == final(a).members@ && final(b).waiting@ == final(a).waiting@
        },
        !final(a).members@.contains(rid) && !final(a).waiting@.contains(rid) && final(a).members@.len() + final(
            a
        ).waiting@.len() < old(a).budget ==> {
            &&& r matches Ok(g) && g.need@ == granted.need@.push(rid) && g.evicted@ == granted.evicted@
            &&& final(b).members@ == final(a).members@ && final(b).waiting@ == final(a).waiting@.push(rid)
        },
        !final(a).members@.contains(rid) && !final(a).waiting@.contains(rid) && final(a).members@.len() + final(
            a
        ).waiting@.len() >= old(a).budget ==> {
            &&& r is Err <==> forall|i: int|
                0 <= i < final(a).members@.len() ==> final(a).last_used@[#[trigger] final(a).members@[i] as int] == step
                    || final(a).last_used@[final(a).members@[i] as int] == u64::MAX
            &&& r matches Err(refused) ==> refused.evicted@ == granted.evicted@ && refused.error is BudgetTooSmall
                && final(b).members@ == final(a).members@
            &&& r matches Ok(g) ==> {
                let gone = g.evicted@.last();
                &&& g.need@ == granted.need@.push(rid)
                &&& g.evicted@ == granted.evicted@.push(gone)
                &&& final(a).members@.contains(gone)
                &&& !final(b).members@.contains(gone)
                &&& final(b).members@.len() == final(a).members@.len() - 1
                &&& final(b).waiting@ == final(a).waiting@.push(rid)
                &&& final(a).last_used@[gone as int] != step
                &&& forall|i: int|
                    0 <= i < final(a).members@.len() && final(a).last_used@[#[trigger] final(a).members@[i] as int] != step
                        ==> final(a).last_used@[gone as int] <= final(a).last_used@[final(a).members@[i] as int]
            }
        },
{
    let start = old(a)@.lapsed(step);
    let budget = old(a).budget as int;
    lemma_lapsed(old(a)@, step);
    assert(rids@.drop_last() =~= front@);
    let before = reserved(start, budget, front@, step);
    assert(before.members == final(a)@);
    let marked = before.members.touch(rid as int, step);
    let m = before.members;
    assert(m.members == final(a).members@ && m.last_used == final(a).last_used@);
    assert(m.wf());
    if !m.members.contains(rid) {
        assert forall|i: int| 0 <= i < m.members.len() implies marked.used()[i] == m.last_used[#[trigger] m.members[i] as int] by {
            assert(m.members[i] != rid) by {
                if m.members[i] == rid {
                    assert(m.members.contains(m.members[i]));
                }
            }
        }
        let used = marked.used();
        if victim::has_victim(used, step) {
            victim::lemma_victim_exists(used, step);
            let v = victim::victim(used, step);
            assert(victim::evictable(used, step, v));
            let gone = m.members[v];
            assert(m.last_used[gone as int] == used[v]);
            assert forall|i: int|
                0 <= i < m.members.len() && m.last_used[#[trigger] m.members[i] as int] != step implies m.last_used[gone as int]
                <= m.last_used[m.members[i] as int] by {
                assert(used[i] == m.last_used[m.members[i] as int]);
                if used[i] != u64::MAX {
                    assert(victim::evictable(used, step, i));
                }
            }
            let rest = m.members.update(v, m.members.last()).drop_last();
            assert(!rest.contains(gone)) by {
                if rest.contains(gone) {
                    let k = choose|k: int| 0 <= k < rest.len() && rest[k] == gone;
                    if k == v {
                        assert(m.members[v] == m.members[m.members.len() - 1]);
                    } else {
                        assert(m.members[k] == m.members[v]);
                    }
                }
            }
        } else {
            assert forall|i: int| 0 <= i < m.members.len() implies m.last_used[#[trigger] m.members[i] as int] == step
                || m.last_used[m.members[i] as int] == u64::MAX by {
                assert(used[i] == m.last_used[m.members[i] as int]);
                assert(!victim::evictable(used, step, i));
            }
        }
    }
}

/// What was added was asked for and is new; every reservation that was asked for is a member then,
/// and no member is lost.
pub proof fn law_finish_adds(a: &mut Residency, rids: &[usize], r: Additions, x: usize)
    requires
        old(a).wf(),
        forall|i: int| 0 <= i < rids@.len() ==> (#[trigger] rids@[i]) < old(a).last_used@.len(),
        call_ensures(Residency::finish, (a, rids), r),
    ensures
        final(a).members@ == old(a).members@ + r.added@,
        old(a).members@.contains(x) ==> final(a).members@.contains(x),
        old(a).waiting@.contains(x) && rids@.contains(x) ==> final(a).members@.contains(x),
        final(a).members@.contains(x) ==> old(a).members@.contains(x) || rids@.contains(x),
        final(a).members@.len() + final(a).waiting@.len() <= old(a).budget,
        r.commit <==> old(a).dirty || r.added@.len() > 0,
        !final(a).dirty,
        final(a).last_used@ == old(a).last_used@,
{
    if old(a).members@.contains(x) || (old(a).waiting@.contains(x) && rids@.contains(x)) {
        law_finished_records_are_members(old(a)@, old(a).budget as int, rids@, x);
    }
    lemma_finished_only_asked(old(a)@, old(a).budget as int, rids@, x);
}

/// Nothing becomes a member that was not asked for, and no mark changes.
pub proof fn lemma_finished_only_asked(start: Members, budget: int, rids: Seq<usize>, x: usize)
    ensures
        finished(start, budget, rids).members.contains(x) ==> start.members.contains(x) || rids.contains(x),
        finished(start, budget, rids).last_used == start.last_used,
    decreases rids.len(),
{
    if rids.len() > 0 {
        let head = rids.drop_last();
        lemma_finished_only_asked(start, budget, head, x);
        let before = finished(start, budget, head);
        let after = finished(start, budget, rids);
        assert(rids[rids.len() - 1] == rids.last());
        if after.members.contains(x) {
            let k = choose|k: int| 0 <= k < after.members.len() && after.members[k] == x;
            if k < before.members.len() {
                assert(before.members[k] == x);
            } else {
                assert(rids.contains(rids.last()));
            }
            if head.contains(x) {
                let j = choose|j: int| 0 <= j < head.len() && head[j] == x;
                assert(rids[j] == x);
            }
        }
    }
}

} // verus!
