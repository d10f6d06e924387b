//! The expert pool: which records the device may touch, kept by least recent use,
//! with two backings behind one interface.
//!
//! [`Residency`] tracks a residency set over the mapped expert file: the set holds
//! up to a budget of records, and a record that leaves keeps its pages in the page
//! cache until the system needs the memory. [`CopyPool`] tracks one wired buffer of
//! record slots filled by uncached reads. The program performs the reads and the
//! changes of the device's set; this module decides which.

use crate::qwen4_exp::gpu::residency::copy_pool::{CopyPool, Slots};
use crate::qwen4_exp::gpu::residency::set::{Members, Residency};
use vstd::prelude::*;

pub mod copy_pool;
pub mod set;
pub mod victim;

verus! {

/// The bytes that one entry of a page report stands for.
pub const PAGE_BYTES: usize = 16384;

/// How long a record read may take before it counts as lost.
pub const LANDING_SECONDS: u64 = 30;

/// The address flag of a 3-bit record.
pub const THREE_BIT_FLAG: u64 = 0x8000_0000_0000_0000;

/// The address flag of a 2-bit record.
pub const TWO_BIT_FLAG: u64 = 0x4000_0000_0000_0000;

/// Why the pool could not serve a step.
#[derive(Debug, Clone, Copy, PartialEq, Eq, Structural)]
pub enum PoolError {
    /// Every slot of the copy pool is in use by the step.
    PoolTooSmall,
    /// Every member of the residency set is in use by the step.
    BudgetTooSmall,
    /// A record read did not land in time.
    ReadLost,
}

impl PoolError {
    pub fn message(&self) -> (r: &'static str)
        ensures
            r@ == match *self {
                PoolError::PoolTooSmall => "expert pool too small for one step"@,
                PoolError::BudgetTooSmall => "expert residency budget too small for one step"@,
                PoolError::ReadLost => "a record read did not land within 30 s"@,
            },
    {
        match self {
            PoolError::PoolTooSmall => "expert pool too small for one step",
            PoolError::BudgetTooSmall => "expert residency budget too small for one step",
            PoolError::ReadLost => "a record read did not land within 30 s",
        }
    }
}

/// One observation of a record read's completion flag, which the deadline policy
/// keeps until the record's slot is safe to reuse.
#[derive(Debug, Clone, Copy, PartialEq, Eq, Structural)]
pub struct Landed {
    pub landed: bool,
}

/// What a waiter does after one observation.
#[derive(Debug, Clone, Copy, PartialEq, Eq, Structural)]
pub enum Waiting {
    /// The record is in memory.
    Ready,
    /// Observe the flag again.
    Again,
}

impl Landed {
    pub fn done(&self) -> (r: bool)
        ensures
            r == self.landed,
    {
        self.landed
    }

    /// The decision after an observation made `elapsed_seconds` after the wait began.
    pub fn wait(&self, elapsed_seconds: u64) -> (r: Result<Waiting, PoolError>)
        ensures
            r == if self.landed {
                Ok::<Waiting, PoolError>(Waiting::Ready)
            } else if elapsed_seconds < LANDING_SECONDS {
                Ok(Waiting::Again)
            } else {
                Err(PoolError::ReadLost)
            },
    {
        if self.done() {
            Ok(Waiting::Ready)
        } else if elapsed_seconds < LANDING_SECONDS {
            Ok(Waiting::Again)
        } else {
            Err(PoolError::ReadLost)
        }
    }
}

/// One record read. A zero destination means a page-cache read for a mapped
/// residency-set record; otherwise it is an address in the copy pool.
/// `need_index` connects completion to the caller's acquired records.
#[derive(Debug, Clone, Copy, PartialEq, Eq, Structural)]
pub struct PlannedRead {
    pub destination: usize,
    pub file_offset: usize,
    pub bytes: usize,
    /// 0 = base 4-bit store, 1 = 3-bit, 2 = 2-bit.
    pub kind: u8,
    pub need_index: usize,
}

impl PlannedRead {
    /// A read through the page cache.
    pub open spec fn pull(self) -> bool {
        self.destination == 0
    }

    /// A copy of a 4-bit record into its slot.
    pub open spec fn base_copy(self) -> bool {
        self.destination != 0 && self.kind == 0
    }

    /// A copy of a low-bit record into its slot.
    pub open spec fn low_copy(self) -> bool {
        self.destination != 0 && self.kind != 0
    }
}

/// Reads required between pool acquisition and residency completion.
#[derive(Debug)]
pub struct ReadPlan {
    pub items: Vec<PlannedRead>,
    /// Whether some read comes from the low-bit store.
    pub low_file: bool,
    /// Base record size for reads through the page cache.
    pub stride: usize,
}

/// The reads of a plan by the file and path that serve them.
#[derive(Debug)]
pub struct ReadGroups {
    /// File offsets pulled through the page cache.
    pub pulls: Vec<usize>,
    /// (destination, file offset, bytes) of 4-bit copies.
    pub copies: Vec<(usize, usize, usize)>,
    /// (destination, file offset, bytes) of low-bit copies.
    pub low_copies: Vec<(usize, usize, usize)>,
}

/// The reads of `items` that satisfy `keep`, in order.
pub open spec fn selected(items: Seq<PlannedRead>, keep: spec_fn(PlannedRead) -> bool) -> Seq<PlannedRead> {
    items.filter(keep)
}

pub open spec fn copy_of(read: PlannedRead) -> (usize, usize, usize) {
    (read.destination, read.file_offset, read.bytes)
}

impl ReadPlan {
    /// Whether record `need_index` still waits for a read.
    pub open spec fn reads(self, need_index: int) -> bool {
        exists|i: int| 0 <= i < self.items.len() && #[trigger] self.items@[i].need_index == need_index
    }

    pub fn is_empty(&self) -> (r: bool)
        ensures
            r == (self.items.len() == 0),
    {
        self.items.len() == 0
    }

    pub fn len(&self) -> (r: usize)
        ensures
            r == self.items.len(),
    {
        self.items.len()
    }

    /// The completion flags before the reads run, one per entry of the `need` list
    /// that the plan was built for: records that need no read start set.
    pub fn run_tracked(&self, need_len: usize) -> (r: Vec<Landed>)
        requires
            forall|i: int| 0 <= i < self.items.len() ==> (#[trigger] self.items@[i]).need_index < need_len,
        ensures
            r.len() == need_len,
            forall|j: int| 0 <= j < need_len ==> (#[trigger] r@[j]).landed == !self.reads(j),
    {
        let mut flags: Vec<Landed> = Vec::new();
        let mut k: usize = 0;
        while k < need_len
            invariant
                k <= need_len,
                flags.len() == k,
                forall|j: int| 0 <= j < k ==> (#[trigger] flags@[j]).landed,
            decreases need_len - k,
        {
            flags.push(Landed { landed: true });
            k = k + 1;
        }
        let mut i: usize = 0;
        while i < self.items.len()
            invariant
                i <= self.items.len(),
                flags.len() == need_len,
                forall|n: int| 0 <= n < self.items.len() ==> (#[trigger] self.items@[n]).need_index < need_len,
                forall|j: int| 0 <= j < need_len ==> (#[trigger] flags@[j]).landed == !(exists|n: int|
                    0 <= n < i && #[trigger] self.items@[n].need_index == j),
            decreases self.items.len() - i,
        {
            let ghost before = flags@;
            let at: usize = self.items[i].need_index;
            flags.set(at, Landed { landed: false });
            proof {
                assert forall|j: int| 0 <= j < need_len implies (#[trigger] flags@[j]).landed == !(exists|n: int|
                    0 <= n < i + 1 && #[trigger] self.items@[n].need_index == j) by {
                    assert(before[j].landed == !(exists|n: int|
                        0 <= n < i && #[trigger] self.items@[n].need_index == j));
                    if j == at {
                        assert(self.items@[i as int].need_index == j);
                    }
                }
            }
            i = i + 1;
        }
        flags
    }

    /// The reads by the path that serves them: pulls through the page cache, copies of
    /// 4-bit records and copies of low-bit records, each in plan order.
    pub fn run(&self) -> (r: ReadGroups)
        ensures
            r.pulls@ == selected(self.items@, |p: PlannedRead| p.pull()).map_values(|p: PlannedRead| p.file_offset),
            r.copies@ == selected(self.items@, |p: PlannedRead| p.base_copy()).map_values(|p: PlannedRead| copy_of(p)),
            r.low_copies@ == selected(self.items@, |p: PlannedRead| p.low_copy()).map_values(|p: PlannedRead| copy_of(p)),
    {
        let mut pulls: Vec<usize> = Vec::new();
        let mut copies: Vec<(usize, usize, usize)> = Vec::new();
        let mut low_copies: Vec<(usize, usize, usize)> = Vec::new();
        let ghost is_pull = |p: PlannedRead| p.pull();
        let ghost is_base = |p: PlannedRead| p.base_copy();
        let ghost is_low = |p: PlannedRead| p.low_copy();
        let ghost offset = |p: PlannedRead| p.file_offset;
        let ghost copied = |p: PlannedRead| copy_of(p);
        let mut i: usize = 0;
        while i < self.items.len()
            invariant
                i <= self.items.len(),
                is_pull == (|p: PlannedRead| p.pull()),
                is_base == (|p: PlannedRead| p.base_copy()),
                is_low == (|p: PlannedRead| p.low_copy()),
                offset == (|p: PlannedRead| p.file_offset),
                copied == (|p: PlannedRead| copy_of(p)),
                pulls@ == self.items@.take(i as int).filter(is_pull).map_values(offset),
                copies@ == self.items@.take(i as int).filter(is_base).map_values(copied),
                low_copies@ == self.items@.take(i as int).filter(is_low).map_values(copied),
            decreases self.items.len() - i,
        {
            let read: PlannedRead = self.items[i];
            proof {
                let head = self.items@.take(i as int);
                let longer = self.items@.take(i + 1);
                assert(longer.drop_last() =~= head);
                assert(longer.last() == read);
                reveal(Seq::filter);
                lemma_map_push(head.filter(is_pull), read, offset);
                lemma_map_push(head.filter(is_base), read, copied);
                lemma_map_push(head.filter(is_low), read, copied);
            }
            if read.destination == 0 {
                pulls.push(read.file_offset);
            } else if read.kind == 0 {
                copies.push((read.destination, read.file_offset, read.bytes));
            } else {
                low_copies.push((read.destination, read.file_offset, read.bytes));
            }
            i = i + 1;
        }
        assert(self.items@.take(i as int) =~= self.items@);
        ReadGroups { pulls, copies, low_copies }
    }
}

proof fn lemma_map_push<A, B>(s: Seq<A>, a: A, f: spec_fn(A) -> B)
    ensures
        s.push(a).map_values(f) == s.map_values(f).push(f(a)),
{
    assert(s.push(a).map_values(f) =~= s.map_values(f).push(f(a)));
}

/// Every read of a plan is served by exactly one path.
pub proof fn law_read_groups_partition(plan: ReadPlan, i: int)
    requires
        0 <= i < plan.items.len(),
    ensures
        plan.items@[i].pull() || plan.items@[i].base_copy() || plan.items@[i].low_copy(),
        !(plan.items@[i].pull() && plan.items@[i].base_copy()),
        !(plan.items@[i].pull() && plan.items@[i].low_copy()),
        !(plan.items@[i].base_copy() && plan.items@[i].low_copy()),
        selected(plan.items@, |p: PlannedRead| p.pull()).len()
            + selected(plan.items@, |p: PlannedRead| p.base_copy()).len()
            + selected(plan.items@, |p: PlannedRead| p.low_copy()).len() == plan.items.len(),
{
    lemma_partition_lengths(plan.items@);
}

proof fn lemma_partition_lengths(items: Seq<PlannedRead>)
    ensures
        items.filter(|p: PlannedRead| p.pull()).len() + items.filter(|p: PlannedRead| p.base_copy()).len()
            + items.filter(|p: PlannedRead| p.low_copy()).len() == items.len(),
    decreases items.len(),
{
    reveal(Seq::filter);
    if items.len() > 0 {
        lemma_partition_lengths(items.drop_last());
    }
}

/// What `acquire` reserved and gave up.
#[derive(Debug)]
pub struct Reservation {
    /// Records that have to be read and added.
    pub need: Vec<usize>,
    /// Records to take out of the device's set.
    pub evicted: Vec<usize>,
}

/// Why nothing more could be acquired, and the records that had left the set by then.
#[derive(Debug)]
pub struct Refused {
    pub error: PoolError,
    pub evicted: Vec<usize>,
}

/// What `finish` asks of the device's set.
#[derive(Debug)]
pub struct Additions {
    /// Records to add to the device's set.
    pub added: Vec<usize>,
    /// Whether the set changed and has to be committed.
    pub commit: bool,
}

/// The bytes of one read through the page cache.
pub const PULL_BYTES: usize = 262144;

/// How far the read of a record has come.
#[derive(Debug, Clone, Copy, PartialEq, Eq, Structural)]
pub struct ReadProgress {
    pub done: usize,
    pub bytes: usize,
    /// Whether the file ended or failed.
    pub stopped: bool,
}

impl ReadProgress {
    /// Nothing read yet.
    pub fn new(bytes: usize) -> (r: ReadProgress)
        ensures
            r == (ReadProgress { done: 0, bytes, stopped: false }),
    {
        ReadProgress { done: 0, bytes, stopped: false }
    }

    /// What to read next: where it lies in the record and how long it is at most; nothing
    /// once the record is whole or the file stopped. A read through the page cache goes
    /// piece by piece.
    pub open spec fn piece(self, pulled: bool) -> Option<(usize, usize)> {
        if self.stopped || self.done >= self.bytes {
            None
        } else if pulled && self.bytes - self.done > PULL_BYTES {
            Some((self.done, PULL_BYTES))
        } else {
            Some((self.done, (self.bytes - self.done) as usize))
        }
    }

    pub fn next(&self, pulled: bool) -> (r: Option<(usize, usize)>)
        ensures
            r == self.piece(pulled),
    {
        if self.stopped || self.done >= self.bytes {
            None
        } else if pulled && self.bytes - self.done > PULL_BYTES {
            Some((self.done, PULL_BYTES))
        } else {
            Some((self.done, self.bytes - self.done))
        }
    }

    /// Takes what a read brought; nothing, or no bytes, ends the reading.
    pub fn advance(&mut self, got: Option<usize>)
        requires
            got matches Some(n) ==> old(self).done + n <= old(self).bytes,
        ensures
            *final(self) == match got {
                Some(n) => if n > 0 {
                    ReadProgress { done: (old(self).done + n) as usize, ..*old(self) }
                } else {
                    ReadProgress { stopped: true, ..*old(self) }
                },
                None => ReadProgress { stopped: true, ..*old(self) },
            },
    {
        match got {
            Some(n) => if n > 0 {
                self.done = self.done + n;
            } else {
                self.stopped = true;
            },
            None => self.stopped = true,
        }
    }

    /// The completion flag of the record: set once the whole record is in memory. A read that
    /// stopped short does not set it.
    pub fn landed(&self) -> (r: Landed)
        ensures
            r.landed == (self.done >= self.bytes),
    {
        Landed { landed: self.done >= self.bytes }
    }
}

impl ReadPlan {
    /// Whether every read of record `need_index` has brought the whole record.
    pub open spec fn whole(self, progress: Seq<ReadProgress>, need_index: int) -> bool {
        forall|i: int|
            0 <= i < self.items@.len() && (#[trigger] self.items@[i]).need_index == need_index ==> progress[i].done
                >= self.items@[i].bytes
    }

    /// The completion flags while the reads run, one per entry of the `need` list that the plan
    /// was built for, given how far each read has come. A flag is set exactly where the record
    /// is wholly in memory.
    pub fn flags(&self, need_len: usize, progress: &[ReadProgress]) -> (r: Vec<Landed>)
        requires
            progress@.len() == self.items@.len(),
            forall|i: int| 0 <= i < self.items@.len() ==> (#[trigger] self.items@[i]).need_index < need_len,
            forall|i: int| 0 <= i < self.items@.len() ==> (#[trigger] progress@[i]).bytes == self.items@[i].bytes,
        ensures
            r@.len() == need_len,
            forall|j: int| 0 <= j < need_len ==> (#[trigger] r@[j]).landed == self.whole(progress@, j),
    {
        let mut flags: Vec<Landed> = Vec::new();
        let mut k: usize = 0;
        while k < need_len
            invariant
                k <= need_len,
                flags@.len() == k,
                forall|j: int| 0 <= j < k ==> (#[trigger] flags@[j]).landed,
            decreases need_len - k,
        {
            flags.push(Landed { landed: true });
            k = k + 1;
        }
        let mut i: usize = 0;
        while i < self.items.len()
            invariant
                i <= self.items@.len(),
                flags@.len() == need_len,
                progress@.len() == self.items@.len(),
                forall|n: int| 0 <= n < self.items@.len() ==> (#[trigger] self.items@[n]).need_index < need_len,
                forall|n: int| 0 <= n < self.items@.len() ==> (#[trigger] progress@[n]).bytes == self.items@[n].bytes,
                forall|j: int| 0 <= j < need_len ==> (#[trigger] flags@[j]).landed == (forall|n: int|
                    0 <= n < i && (#[trigger] self.items@[n]).need_index == j ==> progress@[n].done
                        >= self.items@[n].bytes),
            decreases self.items@.len() - i,
        {
            let ghost before = flags@;
            let at: usize = self.items[i].need_index;
            if !progress[i].landed().done() {
                flags.set(at, Landed { landed: false });
            }
            proof {
                assert(progress@[i as int].bytes == self.items@[i as int].bytes);
                assert forall|j: int| 0 <= j < need_len implies (#[trigger] flags@[j]).landed == (forall|n: int|
                    0 <= n < i + 1 && (#[trigger] self.items@[n]).need_index == j ==> progress@[n].done
                        >= self.items@[n].bytes) by {
                    assert(before[j].landed == (forall|n: int|
                        0 <= n < i && (#[trigger] self.items@[n]).need_index == j ==> progress@[n].done
                            >= self.items@[n].bytes));
                    if j == at {
                        assert(self.items@[i as int].need_index == j);
                    }
                }
            }
            i = i + 1;
        }
        flags
    }
}

/// Before any read has brought something, the flags are set exactly for the records that need
/// no read.
pub proof fn law_first_flags(plan: ReadPlan, progress: Seq<ReadProgress>, j: int)
    requires
        progress.len() == plan.items@.len(),
        forall|i: int| 0 <= i < plan.items@.len() ==> (#[trigger] plan.items@[i]).bytes > 0 && progress[i].done == 0,
    ensures
        plan.whole(progress, j) == !plan.reads(j),
{
    if plan.reads(j) {
        let i = choose|i: int| 0 <= i < plan.items.len() && #[trigger] plan.items@[i].need_index == j;
        assert(plan.items@[i].bytes > 0);
    }
}

/// A record counts as landed only once each of its bytes was read: a read that stopped short
/// never sets the record's flag.
pub proof fn law_landed_is_in_memory(plan: ReadPlan, progress: Seq<ReadProgress>, i: int)
    requires
        progress.len() == plan.items@.len(),
        0 <= i < plan.items@.len(),
        progress[i].bytes == plan.items@[i].bytes,
        progress[i].done <= progress[i].bytes,
        plan.whole(progress, plan.items@[i].need_index as int),
    ensures
        progress[i].done == plan.items@[i].bytes,
{
    assert(plan.items@[i].need_index == plan.items@[i].need_index);
}

/// A read that has not stopped goes on until the record is whole, and stays within it.
pub proof fn law_reads_fill_the_record(p: ReadProgress, pulled: bool)
    requires
        p.done <= p.bytes,
        !p.stopped,
    ensures
        p.piece(pulled) is None <==> p.done == p.bytes,
        p.piece(pulled) matches Some((at, len)) ==> at == p.done && 0 < len && at + len <= p.bytes,
{
}

/// Whether a page report says that a whole record is in memory: the report succeeded
/// (`status` zero) and the low bit of each of the record's pages is set.
pub fn cached(status: i32, pages: &[u8]) -> (r: bool)
    ensures
        r == (status == 0 && forall|i: int| 0 <= i < pages.len() ==> (#[trigger] pages@[i]) & 1 == 1),
{
    let mut all: bool = true;
    let mut i: usize = 0;
    while i < pages.len()
        invariant
            i <= pages.len(),
            all == (forall|k: int| 0 <= k < i ==> (#[trigger] pages@[k]) & 1 == 1),
        decreases pages.len() - i,
    {
        if pages[i] & 1 != 1 {
            all = false;
        }
        i = i + 1;
    }
    status == 0 && all
}

/// The expert pool over either backing.
#[derive(Debug)]
pub enum Pool {
    Resident(Residency),
    Copy(CopyPool),
}

/// The file that backs a record read.
#[derive(Debug, Clone, Copy, PartialEq, Eq, Structural)]
pub enum StoreFile {
    /// The 4-bit expert file.
    Original,
    /// The attached low-bit store.
    LowBit,
}

/// A usable record as a buffer and a byte offset for binding.
#[derive(Debug, Clone, Copy, PartialEq, Eq, Structural)]
pub enum RecordBuffer {
    /// The record's own region of the mapping, from its start.
    Region { rid: usize },
    /// The pool's buffer at an offset.
    Slot { offset: usize },
}

/// A usable record's device address.
#[derive(Debug, Clone, Copy, PartialEq, Eq, Structural)]
pub enum RecordAddress {
    /// The device's address of the record's own region.
    Region { rid: usize },
    /// An address in the pool with the record's precision flag.
    Slot { address: u64 },
}

/// The address flag of a record kind.
pub open spec fn kind_flag(kind: u8) -> u64 {
    if kind == 1 {
        THREE_BIT_FLAG
    } else if kind == 2 {
        TWO_BIT_FLAG
    } else {
        0
    }
}

/// The number of slots that hold a record.
pub open spec fn occupied(slot_rec: Seq<Option<usize>>) -> nat
    decreases slot_rec.len(),
{
    if slot_rec.len() == 0 {
        0
    } else {
        occupied(slot_rec.drop_last()) + if slot_rec.last() is Some {
            1nat
        } else {
            0nat
        }
    }
}

/// The read of record `rid` into its slot of a copy pool.
pub open spec fn slot_read(pool: CopyPool, rid: int, need_index: int) -> PlannedRead {
    let slot = pool.rec_slot@[rid]->0;
    let kind = pool.slot_kind@[slot as int];
    let bytes = if kind != 0 {
        pool.low_stride
    } else {
        pool.stride
    };
    PlannedRead {
        destination: (pool.base + slot * pool.slot_stride) as usize,
        file_offset: (rid * bytes) as usize,
        bytes,
        kind,
        need_index: need_index as usize,
    }
}

/// The page-cache read of record `rid`.
pub open spec fn page_read(set: Residency, rid: int, need_index: int) -> PlannedRead {
    PlannedRead {
        destination: 0,
        file_offset: (rid * set.stride) as usize,
        bytes: set.stride,
        kind: 0,
        need_index: need_index as usize,
    }
}

/// The page-cache reads of the first `n` needed records that are not cached.
pub open spec fn page_reads(set: Residency, need: Seq<usize>, cached: Seq<bool>, n: nat) -> Seq<PlannedRead>
    decreases n,
{
    if n == 0 {
        Seq::empty()
    } else {
        let before = page_reads(set, need, cached, (n - 1) as nat);
        if cached[n - 1] {
            before
        } else {
            before.push(page_read(set, need[n - 1] as int, n - 1))
        }
    }
}

/// What a pool holds, over either backing.
pub enum Held {
    Resident { members: Members, budget: int },
    Copy { slots: Slots, default_kind: u8 },
}

/// The outcome of acquiring records from a pool.
pub struct Grant {
    pub pool: Held,
    pub need: Seq<usize>,
    pub evicted: Seq<usize>,
    pub full: bool,
}

impl Held {
    pub open spec fn acquire(self, rids: Seq<usize>, step: u64) -> Grant {
        match self {
            Held::Resident { members, budget } => {
                let out = set::acquired(members, budget, rids, step);
                Grant {
                    pool: Held::Resident { members: out.members, budget },
                    need: out.need,
                    evicted: out.evicted,
                    full: out.full,
                }
            },
            Held::Copy { slots, default_kind } => {
                let out = copy_pool::acquired(slots, rids, step, default_kind);
                Grant {
                    pool: Held::Copy { slots: out.slots, default_kind },
                    need: out.need,
                    evicted: Seq::empty(),
                    full: out.full,
                }
            },
        }
    }

    pub open spec fn member(self, rid: int) -> bool {
        match self {
            Held::Resident { members, .. } => members.members.contains(rid as usize),
            Held::Copy { slots, .. } => slots.resident(rid),
        }
    }

    /// The store that a record's slot holds; the base store where there is no slot.
    pub open spec fn kind_of(self, rid: int) -> u8 {
        match self {
            Held::Resident { .. } => 0,
            Held::Copy { slots, .. } => match slots.rec_slot[rid] {
                Some(slot) => slots.slot_kind[slot as int],
                None => 0,
            },
        }
    }
}

impl View for Pool {
    type V = Held;

    open spec fn view(&self) -> Held {
        match *self {
            Pool::Resident(s) => Held::Resident { members: s@, budget: s.budget as int },
            Pool::Copy(c) => Held::Copy { slots: c@, default_kind: c.default_kind },
        }
    }
}

impl Pool {
    /// The same backing over the same memory.
    pub open spec fn same_pool(self, other: Pool) -> bool {
        match (self, other) {
            (Pool::Resident(a), Pool::Resident(b)) => a.same_shape(b),
            (Pool::Copy(a), Pool::Copy(b)) => a.same_shape(b),
            _ => false,
        }
    }

    pub open spec fn wf(self) -> bool {
        match self {
            Pool::Resident(r) => r.wf(),
            Pool::Copy(c) => c.wf(),
        }
    }

    /// The number of records in the expert file.
    pub open spec fn records(self) -> nat {
        match self {
            Pool::Resident(r) => r.last_used@.len(),
            Pool::Copy(c) => c.rec_slot@.len(),
        }
    }

    pub open spec fn member(self, rid: int) -> bool {
        self@.member(rid)
    }

    pub open spec fn kind_of(self, rid: int) -> u8 {
        self@.kind_of(rid)
    }

    /// Where a usable record is bound.
    pub open spec fn record_buffer(self, rid: int) -> RecordBuffer {
        match self {
            Pool::Resident(_) => RecordBuffer::Region { rid: rid as usize },
            Pool::Copy(c) => RecordBuffer::Slot { offset: (c.rec_slot@[rid]->0 * c.slot_stride) as usize },
        }
    }

    /// Attach a low-bit store to a copy pool. With `default_kind` non-zero every slot
    /// holds a low-bit record, so nothing reads the 4-bit file.
    pub fn set_low_bit_store(&mut self, low_stride: usize, default_kind: u8)
        requires
            old(self).wf(),
            old(self).records() * low_stride <= usize::MAX,
        ensures
            final(self).wf(),
            match (*old(self), *final(self)) {
                (Pool::Resident(a), Pool::Resident(b)) => a == b,
                (Pool::Copy(a), Pool::Copy(b)) => {
                    &&& b.low_file
                    &&& b.low_stride == low_stride
                    &&& b.default_kind == default_kind
                    &&& b.slot_kind@ == if default_kind != 0 {
                        Seq::new(a.slot_kind@.len(), |i: int| default_kind)
                    } else {
                        a.slot_kind@
                    }
                    &&& (b.base, b.gpu_base, b.stride, b.slot_stride, b.budget) == (
                        a.base,
                        a.gpu_base,
                        a.stride,
                        a.slot_stride,
                        a.budget,
                    )
                    &&& (b.slot_rec, b.slot_used, b.rec_slot) == (a.slot_rec, a.slot_used, a.rec_slot)
                },
                _ => false,
            },
    {
        match self {
            Pool::Resident(_) => {},
            Pool::Copy(c) => {
                c.low_file = true;
                c.low_stride = low_stride;
                c.default_kind = default_kind;
                if default_kind != 0 {
                    let kinds: Vec<u8> = vec![default_kind; c.slot_kind.len()];
                    assert(kinds@ =~= Seq::new(c.slot_kind@.len(), |i: int| default_kind));
                    c.slot_kind = kinds;
                }
            },
        }
    }

    /// Which store a record's slot holds (0 = 4-bit, 1 = 3-bit, 2 = 2-bit); 0 when not
    /// resident or not a copy pool.
    pub fn kind(&self, rid: usize) -> (r: u8)
        requires
            self.wf(),
            rid < self.records(),
        ensures
            r == self.kind_of(rid as int),
    {
        match self {
            Pool::Resident(_) => 0,
            Pool::Copy(c) => match c.rec_slot[rid] {
                Some(slot) => c.slot_kind[slot],
                None => 0,
            },
        }
    }

    /// Choose the store for a record acquired this step, before `plan_reads`: copy pool
    /// only, and a low-bit kind only with a low-bit store attached.
    pub fn set_kind(&mut self, rid: usize, kind: u8)
        requires
            old(self).wf(),
            rid < old(self).records(),
        ensures
            final(self).wf(),
            match (*old(self), *final(self)) {
                (Pool::Resident(a), Pool::Resident(b)) => a == b,
                (Pool::Copy(a), Pool::Copy(b)) => {
                    &&& b.same_shape(a)
                    &&& b@ == if a@.resident(rid as int) && (kind == 0 || a.low_file) {
                        Slots {
                            slot_kind: a@.slot_kind.update(a@.rec_slot[rid as int]->0 as int, kind),
                            ..a@
                        }
                    } else {
                        a@
                    }
                },
                _ => false,
            },
    {
        match self {
            Pool::Resident(_) => {},
            Pool::Copy(c) => {
                if kind == 0 || c.low_file {
                    match c.rec_slot[rid] {
                        Some(slot) => {
                            c.slot_kind.set(slot, kind);
                        },
                        None => {},
                    }
                }
            },
        }
    }

    /// Store backing a prefill ring read. Its precision also selects the matrix kernel, so
    /// compressed bytes never reach a 4-bit kernel.
    pub fn store_file(&self, kind: u8) -> (r: StoreFile)
        requires
            kind != 0 ==> (*self matches Pool::Copy(c) && c.low_file),
        ensures
            r == if kind == 0 {
                StoreFile::Original
            } else {
                StoreFile::LowBit
            },
    {
        if kind == 0 {
            StoreFile::Original
        } else {
            StoreFile::LowBit
        }
    }

    pub fn budget(&self) -> (r: usize)
        ensures
            r == match *self {
                Pool::Resident(s) => s.budget,
                Pool::Copy(c) => c.budget,
            },
    {
        match self {
            Pool::Resident(s) => s.budget,
            Pool::Copy(c) => c.budget,
        }
    }

    /// How many records the pool holds.
    pub fn resident(&self) -> (r: usize)
        requires
            self.wf(),
        ensures
            r == match *self {
                Pool::Resident(s) => s@.members.len(),
                Pool::Copy(c) => occupied(c@.slot_rec),
            },
    {
        match self {
            Pool::Resident(s) => s.resident(),
            Pool::Copy(c) => {
                let mut n: usize = 0;
                let mut i: usize = 0;
                while i < c.slot_rec.len()
                    invariant
                        i <= c.slot_rec.len(),
                        n <= i,
                        n == occupied(c.slot_rec@.take(i as int)),
                    decreases c.slot_rec.len() - i,
                {
                    assert(c.slot_rec@.take(i + 1).drop_last() =~= c.slot_rec@.take(i as int));
                    if c.slot_rec[i].is_some() {
                        n = n + 1;
                    }
                    i = i + 1;
                }
                assert(c.slot_rec@.take(i as int) =~= c.slot_rec@);
                n
            },
        }
    }

    pub fn is_member(&self, rid: usize) -> (r: bool)
        requires
            self.wf(),
            rid < self.records(),
        ensures
            r == self.member(rid as int),
    {
        match self {
            Pool::Resident(s) => s.is_member(rid),
            Pool::Copy(c) => c.rec_slot[rid].is_some(),
        }
    }

    /// Mark records used this step and reserve room for them, evicting least recently used
    /// records not used this step. The records in `need` still have to be read
    /// (`plan_reads`, run the plan, then `finish`).
    pub fn acquire(&mut self, rids: &[usize], step: u64) -> (r: Result<Reservation, Refused>)
        requires
            old(self).wf(),
            forall|i: int| 0 <= i < rids.len() ==> (#[trigger] rids@[i]) < old(self).records(),
        ensures
            final(self).wf(),
            final(self).records() == old(self).records(),
            final(self).same_pool(*old(self)),
            final(self)@ == old(self)@.acquire(rids@, step).pool,
            match r {
                Ok(granted) => {
                    &&& !old(self)@.acquire(rids@, step).full
                    &&& granted.need@ == old(self)@.acquire(rids@, step).need
                    &&& granted.evicted@ == old(self)@.acquire(rids@, step).evicted
                },
                Err(refused) => {
                    &&& old(self)@.acquire(rids@, step).full
                    &&& refused.evicted@ == old(self)@.acquire(rids@, step).evicted
                    &&& refused.error == match *old(self) {
                        Pool::Resident(_) => PoolError::BudgetTooSmall,
                        Pool::Copy(_) => PoolError::PoolTooSmall,
                    }
                },
            },
            match (*old(self), *final(self)) {
                (Pool::Resident(a), Pool::Resident(b)) => b.dirty == (a.dirty || old(self)@.acquire(
                    rids@,
                    step,
                ).evicted.len() > 0),
                _ => true,
            },
    {
        match self {
            Pool::Resident(s) => s.acquire(rids, step),
            Pool::Copy(c) => match c.acquire(rids, step) {
                Ok(need) => Ok(Reservation { need, evicted: Vec::new() }),
                Err(error) => Err(Refused { error, evicted: Vec::new() }),
            },
        }
    }

    /// The reads for records returned by `acquire`, and how many of them need none because
    /// their pages are still in memory. `cached` says so of each needed record of a set.
    pub fn plan_reads(&self, need: &[usize], cached: &[bool]) -> (r: (ReadPlan, usize))
        requires
            self.wf(),
            forall|i: int| 0 <= i < need.len() ==> (#[trigger] need@[i]) < self.records(),
            self is Resident ==> cached.len() == need.len(),
            self is Copy ==> forall|i: int| 0 <= i < need.len() ==> self.member(#[trigger] need@[i] as int),
        ensures
            match *self {
                Pool::Resident(s) => {
                    &&& r.0.items@ == page_reads(s, need@, cached@, need@.len())
                    &&& !r.0.low_file
                    &&& r.0.stride == s.stride
                    &&& r.1 == need.len() - r.0.items.len()
                },
                Pool::Copy(c) => {
                    &&& r.0.items@ == Seq::new(need@.len(), |i: int| slot_read(c, need@[i] as int, i))
                    &&& r.0.low_file == (c.low_file && exists|i: int|
                        0 <= i < need.len() && c.slot_kind@[c.rec_slot@[#[trigger] need@[i] as int]->0 as int] != 0)
                    &&& r.0.stride == c.stride
                    &&& r.1 == 0
                },
            },
            forall|i: int| 0 <= i < r.0.items.len() ==> (#[trigger] r.0.items@[i]).need_index < need.len(),
    {
        match self {
            Pool::Resident(s) => {
                let mut items: Vec<PlannedRead> = Vec::new();
                let mut i: usize = 0;
                while i < need.len()
                    invariant
                        i <= need.len(),
                        items.len() <= i,
                        s.wf(),
                        self.wf(),
                        *self == Pool::Resident(*s),
                        cached.len() == need.len(),
                        forall|k: int| 0 <= k < need.len() ==> (#[trigger] need@[k]) < self.records(),
                        items@ == page_reads(*s, need@, cached@, i as nat),
                        forall|k: int| 0 <= k < items.len() ==> (#[trigger] items@[k]).need_index < i,
                    decreases need.len() - i,
                {
                    let rid: usize = need[i];
                    if !cached[i] {
                        assert(rid * s.stride <= s.last_used.len() * s.stride) by (nonlinear_arith)
                            requires
                                rid < s.last_used.len(),
                                s.stride >= 0,
                        ;
                        items.push(
                            PlannedRead {
                                destination: 0,
                                file_offset: rid * s.stride,
                                bytes: s.stride,
                                kind: 0,
                                need_index: i,
                            },
                        );
                    }
                    i = i + 1;
                }
                let warm: usize = need.len() - items.len();
                (ReadPlan { items, low_file: false, stride: s.stride }, warm)
            },
            Pool::Copy(c) => {
                let mut items: Vec<PlannedRead> = Vec::new();
                let mut low: bool = false;
                let mut i: usize = 0;
                while i < need.len()
                    invariant
                        i <= need.len(),
                        c.wf(),
                        *self == Pool::Copy(*c),
                        forall|k: int| 0 <= k < need.len() ==> (#[trigger] need@[k]) < self.records(),
                        forall|k: int| 0 <= k < need.len() ==> self.member(#[trigger] need@[k] as int),
                        items@ == Seq::new(i as nat, |k: int| slot_read(*c, need@[k] as int, k)),
                        low == exists|k: int|
                            0 <= k < i && c.slot_kind@[c.rec_slot@[#[trigger] need@[k] as int]->0 as int] != 0,
                    decreases need.len() - i,
                {
                    let rid: usize = need[i];
                    assert(self.member(rid as int));
                    match c.rec_slot[rid] {
                        Some(slot) => {
                            proof {
                                lemma_slot_fits(*c, rid as int, slot as int);
                            }
                            let kind: u8 = c.slot_kind[slot];
                            let bytes: usize = if kind != 0 { c.low_stride } else { c.stride };
                            let read = PlannedRead {
                                destination: c.base + slot * c.slot_stride,
                                file_offset: rid * bytes,
                                bytes,
                                kind,
                                need_index: i,
                            };
                            if kind != 0 {
                                low = true;
                            }
                            items.push(read);
                            assert(read == slot_read(*c, rid as int, i as int));
                        },
                        None => {},
                    }
                    assert(items@ =~= Seq::new((i + 1) as nat, |k: int| slot_read(*c, need@[k] as int, k)));
                    i = i + 1;
                }
                (ReadPlan { items, low_file: low && c.low_file, stride: c.stride }, 0)
            },
        }
    }

    /// Logical resident budget in bytes (low-bit slots are shorter).
    pub fn bytes(&self) -> (r: usize)
        requires
            self.wf(),
            *self matches Pool::Resident(s) ==> s.budget * s.stride <= usize::MAX,
        ensures
            r == match *self {
                Pool::Resident(s) => s.budget * s.stride,
                Pool::Copy(c) => c.budget * c.slot_stride,
            },
    {
        match self {
            Pool::Resident(s) => s.budget * s.stride,
            Pool::Copy(c) => c.budget * c.slot_stride,
        }
    }

    /// Records from `acquire` whose reads are done become usable.
    pub fn finish(&mut self, rids: &[usize]) -> (r: Additions)
        requires
            old(self).wf(),
            forall|i: int| 0 <= i < rids.len() ==> (#[trigger] rids@[i]) < old(self).records(),
        ensures
            final(self).wf(),
            final(self).records() == old(self).records(),
            final(self).same_pool(*old(self)),
            match (*old(self), *final(self)) {
                (Pool::Resident(a), Pool::Resident(b)) => {
                    &&& b.same_shape(a)
                    &&& b@ == set::finished(a@, a.budget as int, rids@)
                    &&& b@.members == a@.members + r.added@
                    &&& r.commit == (a.dirty || r.added.len() > 0)
                    &&& !b.dirty
                },
                (Pool::Copy(a), Pool::Copy(b)) => a == b && r.added.len() == 0 && !r.commit,
                _ => false,
            },
    {
        match self {
            Pool::Resident(s) => s.finish(rids),
            Pool::Copy(_) => Additions { added: Vec::new(), commit: false },
        }
    }

    /// Device address of a usable record.
    pub fn addr(&self, rid: usize) -> (r: RecordAddress)
        requires
            self.wf(),
            rid < self.records(),
            self is Copy ==> self.member(rid as int),
        ensures
            r == match *self {
                Pool::Resident(_) => RecordAddress::Region { rid },
                Pool::Copy(c) => {
                    let slot = c.rec_slot@[rid as int]->0;
                    RecordAddress::Slot {
                        address: ((c.gpu_base + slot * c.slot_stride) as u64) | kind_flag(c.slot_kind@[slot as int]),
                    }
                },
            },
    {
        match self {
            Pool::Resident(_) => RecordAddress::Region { rid },
            Pool::Copy(c) => match c.rec_slot[rid] {
                Some(slot) => {
                    let kind: u8 = c.slot_kind[slot];
                    let flag: u64 = if kind == 1 {
                        THREE_BIT_FLAG
                    } else if kind == 2 {
                        TWO_BIT_FLAG
                    } else {
                        0
                    };
                    proof {
                        lemma_slot_fits(*c, rid as int, slot as int);
                    }
                    RecordAddress::Slot { address: (c.gpu_base + (slot * c.slot_stride) as u64) | flag }
                },
                None => RecordAddress::Region { rid },
            },
        }
    }

    /// A usable record as (buffer, byte offset) for binding.
    pub fn buf(&self, rid: usize) -> (r: RecordBuffer)
        requires
            self.wf(),
            rid < self.records(),
            self is Copy ==> self.member(rid as int),
        ensures
            r == self.record_buffer(rid as int),
    {
        match self {
            Pool::Resident(_) => RecordBuffer::Region { rid },
            Pool::Copy(c) => match c.rec_slot[rid] {
                Some(slot) => {
                    proof {
                        lemma_slot_fits(*c, rid as int, slot as int);
                    }
                    RecordBuffer::Slot { offset: slot * c.slot_stride }
                },
                None => RecordBuffer::Region { rid },
            },
        }
    }
}

proof fn lemma_slot_fits(c: CopyPool, rid: int, slot: int)
    requires
        c.wf(),
        0 <= rid < c.rec_slot.len(),
        c.rec_slot@[rid] == Some(slot as usize),
        0 <= slot <= usize::MAX,
    ensures
        slot < c.budget,
        slot * c.slot_stride + c.slot_stride <= c.budget * c.slot_stride,
        0 <= slot * c.slot_stride <= usize::MAX,
        rid * c.stride + c.stride <= c.rec_slot.len() * c.stride,
        rid * c.low_stride + c.low_stride <= c.rec_slot.len() * c.low_stride,
        0 <= rid * c.stride,
        0 <= rid * c.low_stride,
{
    assert(c.rec_slot@[rid] is Some);
    let budget = c.budget as int;
    let pitch = c.slot_stride as int;
    let n = c.rec_slot.len() as int;
    let base = c.stride as int;
    let low = c.low_stride as int;
    assert(slot * pitch + pitch <= budget * pitch && 0 <= slot * pitch) by (nonlinear_arith)
        requires
            0 <= slot,
            slot + 1 <= budget,
            pitch >= 0,
    ;
    assert(rid * base + base <= n * base && 0 <= rid * base) by (nonlinear_arith)
        requires
            0 <= rid,
            rid + 1 <= n,
            base >= 0,
    ;
    assert(rid * low + low <= n * low && 0 <= rid * low) by (nonlinear_arith)
        requires
            0 <= rid,
            rid + 1 <= n,
            low >= 0,
    ;
}

/// Reads planned for different records of a copy pool never share a destination: each
/// fills its own slot of the buffer.
pub proof fn law_slot_reads_disjoint(c: CopyPool, a: int, b: int, i: int, j: int)
    requires
        c.wf(),
        0 <= a < c.rec_slot.len(),
        0 <= b < c.rec_slot.len(),
        a != b,
        c@.resident(a),
        c@.resident(b),
        c.stride <= c.slot_stride || c.slot_kind@[c.rec_slot@[a]->0 as int] != 0,
        c.stride <= c.slot_stride || c.slot_kind@[c.rec_slot@[b]->0 as int] != 0,
        c.low_stride <= c.slot_stride,
    ensures
        ({
            let x = slot_read(c, a, i);
            let y = slot_read(c, b, j);
            x.destination + x.bytes <= y.destination || y.destination + y.bytes <= x.destination
        }),
{
    let s = c.rec_slot@[a]->0;
    let t = c.rec_slot@[b]->0;
    assert(c.slot_rec@[s as int] == Some(a as usize));
    assert(c.slot_rec@[t as int] == Some(b as usize));
    lemma_slot_fits(c, a, s as int);
    lemma_slot_fits(c, b, t as int);
    let pitch = c.slot_stride as int;
    assert(s != t);
    if s < t {
        assert(s * pitch + pitch <= t * pitch) by (nonlinear_arith)
            requires
                s + 1 <= t,
                pitch >= 0,
        ;
    } else {
        assert(t * pitch + pitch <= s * pitch) by (nonlinear_arith)
            requires
                t + 1 <= s,
                pitch >= 0,
        ;
    }
}

/// Records that are read into the page cache: each needed record that is not there yet is read once,
/// whole, from its place in the file, in the order in which they are needed.
pub proof fn law_page_reads(set: Residency, need: Seq<usize>, cached: Seq<bool>, n: nat)
    requires
        n <= need.len(),
        n <= cached.len(),
    ensures
        ({
            let reads = page_reads(set, need, cached, n);
            &&& forall|i: int|
                0 <= i < reads.len() ==> {
                    let read = #[trigger] reads[i];
                    &&& exists|j: int| 0 <= j < n && read.need_index == j as usize && !#[trigger] cached[j] && read.file_offset
                        == (need[j] * set.stride) as usize
                    &&& read.destination == 0 && read.bytes == set.stride && read.kind == 0
                }
            &&& forall|j: int|
                0 <= j < n && !#[trigger] cached[j] ==> exists|i: int|
                    0 <= i < reads.len() && (#[trigger] reads[i]).need_index == j as usize && reads[i].file_offset == (need[j]
                        * set.stride) as usize
            &&& reads.len() <= n
        }),
    decreases n,
{
    if n > 0 {
        let m = (n - 1) as nat;
        law_page_reads(set, need, cached, m);
        let before = page_reads(set, need, cached, m);
        let reads = page_reads(set, need, cached, n);
        assert forall|i: int| 0 <= i < reads.len() implies {
            let read = #[trigger] reads[i];
            &&& exists|j: int| 0 <= j < n && read.need_index == j as usize && !#[trigger] cached[j] && read.file_offset
                == (need[j] * set.stride) as usize
            &&& read.destination == 0 && read.bytes == set.stride && read.kind == 0
        } by {
            if i < before.len() {
                assert(reads[i] == before[i]);
                let j = choose|j: int| 0 <= j < m && before[i].need_index == j as usize && !#[trigger] cached[j] && before[i].file_offset
                    == (need[j] * set.stride) as usize;
                assert(0 <= j < n && !cached[j]);
            } else {
                assert(!cached[n - 1]);
            }
        }
        assert forall|j: int| 0 <= j < n && !#[trigger] cached[j] implies exists|i: int|
            0 <= i < reads.len() && (#[trigger] reads[i]).need_index == j as usize && reads[i].file_offset == (need[j]
                * set.stride) as usize by {
            if j < m {
                let i = choose|i: int|
                    0 <= i < before.len() && (#[trigger] before[i]).need_index == j as usize && before[i].file_offset == (need[j]
                        * set.stride) as usize;
                assert(reads[i] == before[i]);
            } else {
                assert(reads[reads.len() - 1] == page_read(set, need[j] as int, j));
            }
        }
    }
}

/// A record that is read into its slot comes whole from its place in the file of its precision, and
/// goes to the slot that holds it.
pub proof fn law_slot_read(c: CopyPool, rid: int, need_index: int)
    requires
        c.wf(),
        0 <= rid < c.rec_slot@.len(),
        c.rec_slot@[rid] is Some,
        0 <= need_index <= usize::MAX,
    ensures
        ({
            let slot = c.rec_slot@[rid]->0 as int;
            let read = slot_read(c, rid, need_index);
            &&& read.destination == c.base + slot * c.slot_stride
            &&& c.slot_kind@[slot] == 0 ==> read.bytes == c.stride && read.file_offset == rid * c.stride && read.kind == 0
            &&& c.slot_kind@[slot] != 0 ==> read.bytes == c.low_stride && read.file_offset == rid * c.low_stride && read.kind
                == c.slot_kind@[slot]
            &&& read.need_index == need_index
        }),
{
    let slot = c.rec_slot@[rid]->0 as int;
    lemma_slot_fits(c, rid, slot);
}

/// A read goes on behind what it has, to the record's end; what is only pulled into the page cache
/// comes in pieces of at most 262144 bytes. It ends where all is there, or where nothing came.
pub proof fn law_read_pieces(p: ReadProgress, pulled: bool, r: Option<(usize, usize)>)
    requires
        call_ensures(ReadProgress::next, (&p, pulled), r),
    ensures
        r is Some <==> !p.stopped && p.done < p.bytes,
        r matches Some((at, n)) ==> {
            &&& at == p.done
            &&& n > 0 && at + n <= p.bytes
            &&& !pulled ==> at + n == p.bytes
            &&& pulled ==> n <= 262144 && (n == 262144 || at + n == p.bytes)
        },
{
}

/// What came is counted; nothing stops the read for good. A record has landed once all its bytes
/// have come.
pub proof fn law_read_advances(p: &mut ReadProgress, got: Option<usize>, q: ReadProgress, landed: Landed)
    requires
        call_ensures(ReadProgress::advance, (p, got), ()),
        got matches Some(n) ==> old(p).done + n <= old(p).bytes,
        q == *final(p),
        call_ensures(ReadProgress::landed, (&q,), landed),
    ensures
        final(p).bytes == old(p).bytes,
        got matches Some(n) && n > 0 ==> final(p).done == old(p).done + got->0 && final(p).stopped == old(p).stopped,
        got is None || got == Some(0usize) ==> final(p).stopped && final(p).done == old(p).done,
        landed.landed <==> final(p).done >= final(p).bytes,
{
}

/// A read that has landed is ready; one that has not is waited for until 30 seconds have passed.
pub proof fn law_landing_waited_for(l: Landed, elapsed_seconds: u64, r: Result<Waiting, PoolError>)
    requires
        call_ensures(Landed::wait, (&l, elapsed_seconds), r),
    ensures
        l.landed <==> r == Ok::<Waiting, PoolError>(Waiting::Ready),
        !l.landed && elapsed_seconds < 30 <==> r == Ok::<Waiting, PoolError>(Waiting::Again),
        !l.landed && elapsed_seconds >= 30 <==> r == Err::<Waiting, PoolError>(PoolError::ReadLost),
{
}

/// A record's address is its slot's; the highest bit marks three bits per weight, the next two.
pub proof fn law_record_address(pool: Pool, rid: usize, r: RecordAddress)
    requires
        call_ensures(Pool::addr, (&pool, rid), r),
    ensures
        pool is Resident ==> r == (RecordAddress::Region { rid }),
        pool matches Pool::Copy(c) ==> {
            let slot = c.rec_slot@[rid as int]->0;
            let kind = c.slot_kind@[slot as int];
            let at = (c.gpu_base + slot * c.slot_stride) as u64;
            &&& kind == 1 ==> r == (RecordAddress::Slot { address: at | 0x8000_0000_0000_0000 })
            &&& kind == 2 ==> r == (RecordAddress::Slot { address: at | 0x4000_0000_0000_0000 })
            &&& kind == 0 ==> r == (RecordAddress::Slot { address: at })
        },
{
    if pool is Copy {
        let c = pool->Copy_0;
        let at = (c.gpu_base + c.rec_slot@[rid as int]->0 * c.slot_stride) as u64;
        assert(at | 0u64 == at) by (bit_vector);
    }
}

/// A pool holds as many bytes as its budget has records.
pub proof fn law_pool_bytes(pool: Pool, bytes: usize, budget: usize)
    requires
        call_ensures(Pool::bytes, (&pool,), bytes),
        call_ensures(Pool::budget, (&pool,), budget),
    ensures
        pool matches Pool::Resident(s) ==> budget == s.budget && bytes == s.budget * s.stride,
        pool matches Pool::Copy(c) ==> budget == c.budget && bytes == c.budget * c.slot_stride,
{
}

/// A record whose slot has a precision of its own gets it only where the low-bit store is attached,
/// and no other slot changes.
pub proof fn law_set_kind(pool: &mut Pool, rid: usize, kind: u8)
    requires
        call_ensures(Pool::set_kind, (pool, rid, kind), ()),
        old(pool).wf(),
        rid < old(pool).records(),
    ensures
        *old(pool) matches Pool::Copy(c) ==> {
            &&& c.rec_slot@[rid as int] is Some && (kind == 0 || c.low_file) ==> final(pool).kind_of(rid as int) == kind
            &&& forall|other: int|
                0 <= other < c.rec_slot@.len() && other != rid ==> #[trigger] final(pool).kind_of(other) == old(pool).kind_of(
                    other
                )
            &&& forall|other: int|
                0 <= other < c.rec_slot@.len() ==> #[trigger] final(pool).member(other) == old(pool).member(other)
        },
        *old(pool) is Resident ==> *final(pool) == *old(pool),
{
    if *old(pool) is Copy {
        let c = (*old(pool))->Copy_0;
        let d = (*final(pool))->Copy_0;
        assert(c@.wf());
        assert forall|other: int| 0 <= other < c.rec_slot@.len() && other != rid implies #[trigger] final(pool).kind_of(other)
            == old(pool).kind_of(other) by {
            if c@.rec_slot[other] is Some && c@.rec_slot[rid as int] is Some {
                let s = c@.rec_slot[other]->0;
                let t = c@.rec_slot[rid as int]->0;
                assert(c@.slot_rec[s as int] == Some(other as usize));
                assert(c@.slot_rec[t as int] == Some(rid));
                assert(s != t);
            }
        }
    }
}

} // verus!
