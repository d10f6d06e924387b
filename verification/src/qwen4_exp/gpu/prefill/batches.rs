//! The batches of a block's experts: a machine that feeds the device through the ring.
//!
//! Each batch waits until the device is done with the ring slots that it overwrites, is read
//! into its destinations, and is then published.

use crate::qwen4_exp::gpu::prefill::experts;
use crate::qwen4_exp::gpu::prefill::experts::{
    read_expert_batch, ring_wait, BatchReads, ExpertJob, ExpertSource, GROUP, RING,
};
use vstd::prelude::*;

verus! {

/// The experts of a block on their way to the device.
#[derive(Debug)]
pub struct ExpertStream {
    pub jobs: Vec<ExpertJob>,
    /// The record of each expert.
    pub rids: Vec<usize>,
    /// The ring's address, and the bytes of a slot.
    pub ring_base: usize,
    pub stride: usize,
    /// The values before the block of the device's event and of the processor's.
    pub base: u64,
    pub cbase: u64,
    /// The batches that were handed out.
    pub batch: usize,
    /// The records and bytes read by them.
    pub fetched: usize,
    pub bytes: usize,
}

/// What one batch asks for.
#[derive(Debug)]
pub struct BatchWork {
    /// The value that the device has to signal before the ring is overwritten.
    pub wait: Option<u64>,
    pub reads: BatchReads,
    /// The value that says that the batch is in place.
    pub ready: u64,
}

/// The reads of the first `n` jobs.
pub open spec fn read_count(jobs: Seq<ExpertJob>, n: int) -> int
    decreases n,
{
    if n <= 0 {
        0
    } else {
        read_count(jobs, n - 1) + if experts::is_read(jobs[n - 1]) {
            1int
        } else {
            0
        }
    }
}

/// Where the first `n` batches of so many jobs end.
pub open spec fn batches_end(jobs: int, n: int) -> int {
    if n * GROUP < jobs {
        n * GROUP
    } else {
        jobs
    }
}

/// The jobs of a batch.
pub open spec fn batch_jobs(jobs: Seq<ExpertJob>, n: int) -> Seq<ExpertJob> {
    jobs.subrange(batches_end(jobs.len() as int, n), batches_end(jobs.len() as int, n + 1))
}

proof fn lemma_sub_reads(jobs: Seq<ExpertJob>, a: int, b: int)
    requires
        0 <= a <= b <= jobs.len(),
    ensures
        experts::read_bytes(jobs.subrange(a, b), b - a) == experts::read_bytes(jobs, b) - experts::read_bytes(jobs, a),
        read_count(jobs.subrange(a, b), b - a) == read_count(jobs, b) - read_count(jobs, a),
    decreases b - a,
{
    if a < b {
        lemma_sub_reads(jobs, a, b - 1);
        lemma_same_reads(jobs.subrange(a, b), jobs.subrange(a, b - 1), b - 1 - a);
        assert(jobs.subrange(a, b)[b - 1 - a] == jobs[b - 1]);
    }
}

proof fn lemma_same_reads(x: Seq<ExpertJob>, y: Seq<ExpertJob>, n: int)
    requires
        0 <= n <= x.len(),
        n <= y.len(),
        forall|i: int| 0 <= i < n ==> x[i] == y[i],
    ensures
        experts::read_bytes(x, n) == experts::read_bytes(y, n),
        read_count(x, n) == read_count(y, n),
    decreases n,
{
    if n > 0 {
        lemma_same_reads(x, y, n - 1);
    }
}

/// Every read of a batch goes to one of its three lists.
proof fn lemma_lists_count(jobs: Seq<ExpertJob>, rids: Seq<usize>, ring_base: int, stride: int, n: int)
    requires
        0 <= n <= jobs.len(),
    ensures
        experts::set_reads(jobs, n).len() + experts::ring_reads(jobs, rids, ring_base, stride, true, n).len()
            + experts::ring_reads(jobs, rids, ring_base, stride, false, n).len() == read_count(jobs, n),
    decreases n,
{
    if n > 0 {
        lemma_lists_count(jobs, rids, ring_base, stride, n - 1);
    }
}

proof fn lemma_reads_grow(jobs: Seq<ExpertJob>, a: int, b: int)
    requires
        0 <= a <= b <= jobs.len(),
    ensures
        0 <= experts::read_bytes(jobs, a) <= experts::read_bytes(jobs, b),
        0 <= read_count(jobs, a) <= read_count(jobs, b) <= b,
    decreases b,
{
    if a < b {
        lemma_reads_grow(jobs, a, b - 1);
    } else if a > 0 {
        lemma_reads_grow(jobs, a - 1, a - 1);
    }
}

impl ExpertStream {
    /// The jobs that were handed out.
    pub open spec fn handed(self) -> int {
        batches_end(self.jobs@.len() as int, self.batch as int)
    }

    /// The ring and both events have room, every job names a record and a slot, and what was
    /// handed out is counted.
    pub open spec fn wf(self) -> bool {
        let jobs = self.jobs@;
        &&& self.ring_base + RING * self.stride <= usize::MAX
        &&& self.base + jobs.len() + 1 <= u64::MAX
        &&& self.cbase + jobs.len() + 1 <= u64::MAX
        &&& experts::read_bytes(jobs, jobs.len() as int) <= usize::MAX
        &&& self.batch <= jobs.len()
        &&& forall|i: int| 0 <= i < jobs.len() ==> (#[trigger] jobs[i]).expert < self.rids@.len()
        &&& forall|i: int|
            0 <= i < jobs.len() && (#[trigger] jobs[i]).source is Ring ==> {
                &&& jobs[i].source->Ring_0 < RING
                &&& self.rids@[jobs[i].expert as int] * jobs[i].layout.stride <= usize::MAX
            }
        &&& self.fetched == read_count(jobs, self.handed())
        &&& self.bytes == experts::read_bytes(jobs, self.handed())
    }

    /// A stream of jobs, or nothing where the ring, the events or a job do not fit the machine.
    pub fn new(
        jobs: Vec<ExpertJob>,
        rids: Vec<usize>,
        ring_base: usize,
        stride: usize,
        base: u64,
        cbase: u64,
    ) -> (r: Option<ExpertStream>)
        ensures
            r is Some <==> {
                &&& ring_base + RING * stride <= usize::MAX
                &&& base + jobs@.len() + 1 <= u64::MAX
                &&& cbase + jobs@.len() + 1 <= u64::MAX
                &&& experts::read_bytes(jobs@, jobs@.len() as int) <= usize::MAX
                &&& forall|i: int| 0 <= i < jobs@.len() ==> (#[trigger] jobs@[i]).expert < rids@.len()
                &&& forall|i: int|
                    0 <= i < jobs@.len() && (#[trigger] jobs@[i]).source is Ring ==> {
                        &&& jobs@[i].source->Ring_0 < RING
                        &&& rids@[jobs@[i].expert as int] * jobs@[i].layout.stride <= usize::MAX
                    }
            },
            r matches Some(s) ==> s.wf() && s == (ExpertStream {
                jobs,
                rids,
                ring_base,
                stride,
                base,
                cbase,
                batch: 0,
                fetched: 0,
                bytes: 0,
            }),
    {
        let n: usize = jobs.len();
        match stride.checked_mul(RING) {
            Some(ring) => if ring > usize::MAX - ring_base {
                return None;
            },
            None => return None,
        }
        if n as u64 >= u64::MAX - base || n as u64 >= u64::MAX - cbase {
            return None;
        }
        let mut bytes: usize = 0;
        let mut i: usize = 0;
        while i < n
            invariant
                i <= n,
                n == jobs@.len(),
                bytes == experts::read_bytes(jobs@, i as int),
                forall|k: int| 0 <= k < i ==> (#[trigger] jobs@[k]).expert < rids@.len(),
                forall|k: int|
                    0 <= k < i && (#[trigger] jobs@[k]).source is Ring ==> {
                        &&& jobs@[k].source->Ring_0 < RING
                        &&& rids@[jobs@[k].expert as int] * jobs@[k].layout.stride <= usize::MAX
                    },
            decreases n - i,
        {
            let job: ExpertJob = jobs[i];
            proof {
                lemma_reads_grow(jobs@, i + 1, n as int);
            }
            if job.expert >= rids.len() {
                assert(!(jobs@[i as int].expert < rids@.len()));
                return None;
            }
            let read: bool = match job.source {
                ExpertSource::Pool { fetch, .. } => fetch,
                ExpertSource::Ring(slot) => {
                    assert(jobs@[i as int].source is Ring);
                    if slot as usize >= RING {
                        return None;
                    }
                    if rids[job.expert].checked_mul(job.layout.stride).is_none() {
                        return None;
                    }
                    true
                },
            };
            if read {
                if job.layout.stride > usize::MAX - bytes {
                    return None;
                }
                bytes = bytes + job.layout.stride;
            }
            i = i + 1;
        }
        Some(ExpertStream { jobs, rids, ring_base, stride, base, cbase, batch: 0, fetched: 0, bytes: 0 })
    }

    /// The next batch; nothing where all were handed out.
    pub fn next(&mut self) -> (r: Option<BatchWork>)
        requires
            old(self).wf(),
        ensures
            final(self).wf(),
            r is None <==> old(self).handed() == old(self).jobs@.len(),
            r is None ==> *final(self) == *old(self),
            r matches Some(work) ==> {
                let batch = batch_jobs(old(self).jobs@, old(self).batch as int);
                let n = batch.len() as int;
                &&& work.wait == if old(self).batch >= RING / GROUP {
                    Some((old(self).base + (old(self).batch - RING / GROUP) + 1) as u64)
                } else {
                    None
                }
                &&& work.ready == old(self).cbase + old(self).batch + 1
                &&& work.reads.to_set@ == experts::set_reads(batch, n)
                &&& work.reads.ring4@ == experts::ring_reads(
                    batch,
                    old(self).rids@,
                    old(self).ring_base as int,
                    old(self).stride as int,
                    true,
                    n,
                )
                &&& work.reads.ring_low@ == experts::ring_reads(
                    batch,
                    old(self).rids@,
                    old(self).ring_base as int,
                    old(self).stride as int,
                    false,
                    n,
                )
                &&& work.reads.fetched == read_count(batch, n)
                &&& work.reads.bytes == experts::read_bytes(batch, n)
                &&& *final(self) == (ExpertStream {
                    batch: (old(self).batch + 1) as usize,
                    fetched: (old(self).fetched + work.reads.fetched) as usize,
                    bytes: (old(self).bytes + work.reads.bytes) as usize,
                    ..*old(self)
                })
            },
    {
        let n: usize = self.jobs.len();
        if self.batch > n / GROUP || self.batch * GROUP >= n {
            return None;
        }
        let start: usize = self.batch * GROUP;
        let end: usize = if n - start > GROUP {
            start + GROUP
        } else {
            n
        };
        let ghost jobs = self.jobs@;
        let ghost batch = batch_jobs(jobs, self.batch as int);
        let slice: &[ExpertJob] = vstd::slice::slice_subrange(self.jobs.as_slice(), start, end);
        proof {
            assert(slice@ =~= batch);
            lemma_sub_reads(jobs, start as int, end as int);
            lemma_reads_grow(jobs, start as int, end as int);
            lemma_reads_grow(jobs, end as int, n as int);
            assert forall|i: int| 0 <= i < slice@.len() implies (#[trigger] slice@[i]).expert < self.rids@.len() by {
                assert(slice@[i] == jobs[start + i]);
            }
            assert forall|i: int| 0 <= i < slice@.len() && (#[trigger] slice@[i]).source is Ring implies {
                &&& slice@[i].source->Ring_0 < RING
                &&& self.rids@[slice@[i].expert as int] * slice@[i].layout.stride <= usize::MAX
            } by {
                assert(slice@[i] == jobs[start + i]);
            }
        }
        let reads = read_expert_batch(slice, self.rids.as_slice(), self.ring_base, self.stride);
        proof {
            lemma_lists_count(
                batch,
                self.rids@,
                self.ring_base as int,
                self.stride as int,
                batch.len() as int,
            );
        }
        let wait: Option<u64> = ring_wait(self.base, self.batch);
        let ready: u64 = self.cbase + self.batch as u64 + 1;
        self.batch = self.batch + 1;
        self.fetched = self.fetched + reads.fetched;
        self.bytes = self.bytes + reads.bytes;
        Some(BatchWork { wait, reads, ready })
    }
}

/// When all batches were handed out, every record that has to be read was read once, and its
/// bytes are counted.
pub proof fn law_stream_reads_all(stream: ExpertStream)
    requires
        stream.wf(),
        stream.handed() == stream.jobs@.len(),
    ensures
        stream.fetched == read_count(stream.jobs@, stream.jobs@.len() as int),
        stream.bytes == experts::read_bytes(stream.jobs@, stream.jobs@.len() as int),
{
}

/// Jobs are handed out in batches of eight, in order, each job in one of them; a batch waits, from
/// the ninth on, for the one whose ring slots it takes.
pub proof fn law_batches_in_order(s: &mut ExpertStream, r: Option<BatchWork>)
    requires
        call_ensures(ExpertStream::next, (s,), r),
        old(s).wf(),
        old(s).batch < usize::MAX,
    ensures
        r is Some <==> old(s).batch * 8 < old(s).jobs@.len(),
        r is None ==> *final(s) == *old(s),
        r matches Some(work) ==> {
            let from = old(s).batch * 8;
            let to = if from + 8 < old(s).jobs@.len() {
                from + 8
            } else {
                old(s).jobs@.len() as int
            };
            let batch = old(s).jobs@.subrange(from, to);
            &&& final(s).batch == old(s).batch + 1
            &&& work.ready == old(s).cbase + old(s).batch + 1
            &&& old(s).batch < 8 ==> work.wait is None
            &&& old(s).batch >= 8 ==> work.wait == Some((old(s).base + old(s).batch - 7) as u64)
            &&& work.reads.to_set@ == experts::set_reads(batch, batch.len() as int)
            &&& work.reads.ring4@ == experts::ring_reads(
                batch,
                old(s).rids@,
                old(s).ring_base as int,
                old(s).stride as int,
                true,
                batch.len() as int,
            )
            &&& work.reads.ring_low@ == experts::ring_reads(
                batch,
                old(s).rids@,
                old(s).ring_base as int,
                old(s).stride as int,
                false,
                batch.len() as int,
            )
            &&& old(s).fetched + work.reads.fetched <= usize::MAX ==> final(s).fetched == old(s).fetched
                + work.reads.fetched
            &&& old(s).bytes + work.reads.bytes <= usize::MAX ==> final(s).bytes == old(s).bytes + work.reads.bytes
            &&& final(s).jobs == old(s).jobs
        },
{
    let n = old(s).jobs@.len() as int;
    let k = old(s).batch as int;
    assert(RING / GROUP == 8);
    assert(batches_end(n, k) == if k * 8 < n {
        k * 8
    } else {
        n
    });
    assert(batches_end(n, k + 1) == if k * 8 + 8 < n {
        k * 8 + 8
    } else {
        n
    });
    if r is Some {
        let to = if k * 8 + 8 < n {
            k * 8 + 8
        } else {
            n
        };
        assert(batch_jobs(old(s).jobs@, k) == old(s).jobs@.subrange(k * 8, to));
    }
}

} // verus!
