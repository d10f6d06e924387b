//! The device's side of a chunk's expert stream.

use crate::qwen4_exp::gpu::hyperconnection;
use crate::qwen4_exp::gpu::launch::{
    args3, args5, args6, groups, threads, Arg, Buf, Command, Event, Pipe, Q,
};
use crate::qwen4_exp::gpu::model;
use crate::qwen4_exp::gpu::model::{Model, Moe, RecordLayout};
use crate::qwen4_exp::gpu::prefill::allocation;
use crate::qwen4_exp::gpu::prefill::allocation::ScratchBuffer;
use crate::qwen4_exp::gpu::prefill::attention;
use crate::qwen4_exp::gpu::prefill::experts;
use crate::qwen4_exp::gpu::prefill::experts::{ExpertJob, ExpertSource, GROUP};
use crate::qwen4_exp::gpu::residency::RecordBuffer;
use crate::runner;
use crate::runner::div_ceil;
use vstd::prelude::*;

verus! {

/// A matrix inside a record that lies at a byte offset.
pub open spec fn at_offset(q: Q, record: int) -> Q {
    Q { w: (q.w + record) as usize, s: (q.s + record) as usize, b: (q.b + record) as usize, ..q }
}

/// The buffer and byte offset of a job's record.
pub open spec fn record_place(job: ExpertJob, stride: int) -> (Buf, int) {
    match job.source {
        ExpertSource::Pool { buffer: RecordBuffer::Region { rid }, .. } => (Buf::Record(rid), 0),
        ExpertSource::Pool { buffer: RecordBuffer::Slot { offset }, .. } => (Buf::Pool, offset as int),
        ExpertSource::Ring(slot) => (Buf::Ring, slot * stride),
    }
}

/// The three projections of a record.
pub open spec fn gate_of(m: Model, l: RecordLayout) -> Q {
    Q { w: l.gate_w, s: l.gate_s, b: l.gate_b, out: m.inter as u32, inp: m.cfg.hidden_size as u32 }
}

pub open spec fn up_of(m: Model, l: RecordLayout) -> Q {
    Q { w: l.up_w, s: l.up_s, b: l.up_b, out: m.inter as u32, inp: m.cfg.hidden_size as u32 }
}

pub open spec fn down_of(m: Model, l: RecordLayout) -> Q {
    Q { w: l.down_w, s: l.down_s, b: l.down_b, out: m.cfg.hidden_size as u32, inp: m.inter as u32 }
}

/// A projection of `n` gathered rows with a matrix of the job's record.
pub open spec fn expert_product(job: ExpertJob, stride: int, q: Q, x: ScratchBuffer, y: ScratchBuffer) -> Command {
    let (record, offset) = record_place(job, stride);
    Command::ExpertQmm {
        record,
        weights: at_offset(q, offset),
        x: Buf::Scratch(x),
        y: Buf::Scratch(y),
        rows: job.row_count,
        bits: job.layout.bits,
    }
}

/// The gated activation of `n` rows.
pub open spec fn activation(m: Model, n: int) -> Command {
    threads(
        Pipe::SiluMul,
        args3(
            Arg::Bind(Buf::Scratch(ScratchBuffer::Ge), 0),
            Arg::Bind(Buf::Scratch(ScratchBuffer::Ue), 0),
            Arg::Bind(Buf::Scratch(ScratchBuffer::Hg), 0),
        ),
        (n * m.inter) as usize,
        256,
    )
}

/// One expert: its rows are gathered, computed and added back with their weights.
pub open spec fn job_commands(m: Model, job: ExpertJob, stride: int) -> Seq<Command> {
    let n = job.row_count as int;
    let l = job.layout;
    let h = m.cfg.hidden_size as u32;
    let rows_at = Arg::Bind(Buf::Scratch(ScratchBuffer::CsrRows), (job.csr_offset * 4) as usize);
    seq![
        threads(
            Pipe::GatherRows,
            args5(
                Arg::Bind(Buf::Scratch(ScratchBuffer::Mixed), 0),
                rows_at,
                Arg::Bind(Buf::Scratch(ScratchBuffer::Xg), 0),
                Arg::Word(n as u32),
                Arg::Word(h),
            ),
            (n * m.cfg.hidden_size) as usize,
            256,
        ),
        expert_product(job, stride, gate_of(m, l), ScratchBuffer::Xg, ScratchBuffer::Ge),
        expert_product(job, stride, up_of(m, l), ScratchBuffer::Xg, ScratchBuffer::Ue),
        activation(m, n),
        expert_product(job, stride, down_of(m, l), ScratchBuffer::Hg, ScratchBuffer::Ye),
        threads(
            Pipe::ScatterAddRows,
            args6(
                Arg::Bind(Buf::Scratch(ScratchBuffer::Ye), 0),
                rows_at,
                Arg::Bind(Buf::Scratch(ScratchBuffer::CsrW), (job.csr_offset * 4) as usize),
                Arg::Bind(Buf::Scratch(ScratchBuffer::MoeOut), 0),
                Arg::Word(n as u32),
                Arg::Word(h),
            ),
            (n * m.cfg.hidden_size) as usize,
            256,
        ),
    ]
}

/// The jobs `[from, to)` one after the other.
pub open spec fn jobs_commands(m: Model, jobs: Seq<ExpertJob>, stride: int, from: int, to: int) -> Seq<Command>
    decreases to - from,
{
    if from >= to {
        Seq::empty()
    } else {
        jobs_commands(m, jobs, stride, from, to - 1) + job_commands(m, jobs[to - 1], stride)
    }
}

/// One batch from job `at`: the device waits for its records and signals when it is done.
pub open spec fn batch_commands(m: Model, jobs: Seq<ExpertJob>, stride: int, at: int, base: int, cbase: int) -> Seq<Command> {
    let bi = at / (GROUP as int);
    seq![Command::EndPass, Command::Wait(Event::Fetched, (cbase + bi + 1) as u64), Command::BeginPass] + jobs_commands(
        m,
        jobs,
        stride,
        at,
        runner::chunk_end(jobs.len() as int, at, GROUP as int),
    ) + seq![Command::EndPass, Command::Signal(Event::Main, (base + bi + 1) as u64), Command::BeginPass]
}

/// The batches from job `at` on.
pub open spec fn batches(m: Model, jobs: Seq<ExpertJob>, stride: int, at: int, base: int, cbase: int) -> Seq<Command>
    decreases jobs.len() - at,
{
    if at >= jobs.len() {
        Seq::empty()
    } else {
        batch_commands(m, jobs, stride, at, base, cbase) + batches(
            m,
            jobs,
            stride,
            runner::chunk_end(jobs.len() as int, at, GROUP as int),
            base,
            cbase,
        )
    }
}

/// The shared expert over `t` rows, added to the zeroed block output.
pub open spec fn shared_commands(m: Model, moe: Moe, t: int) -> Seq<Command> {
    seq![
        attention::product(moe.sg, ScratchBuffer::Mixed, ScratchBuffer::Ge, t),
        attention::product(moe.su, ScratchBuffer::Mixed, ScratchBuffer::Ue, t),
        activation(m, t),
        attention::product(moe.sd, ScratchBuffer::Hg, ScratchBuffer::Ye, t),
        groups(
            Pipe::SharedAddRows,
            args5(
                Arg::Bind(Buf::Scratch(ScratchBuffer::MoeOut), 0),
                Arg::Bind(Buf::Scratch(ScratchBuffer::Ye), 0),
                Arg::Bind(Buf::Dense, moe.shared_gate),
                Arg::Bind(Buf::Scratch(ScratchBuffer::Mixed), 0),
                Arg::Word(m.cfg.hidden_size as u32),
            ),
            t as usize,
            256,
        ),
    ]
}

/// A block's experts over `t` rows. `base` and `cbase` are the values of the two events
/// before the block.
#[verifier::opaque]
pub open spec fn pf_experts_commands(
    m: Model,
    moe: Moe,
    t: int,
    jobs: Seq<ExpertJob>,
    stride: int,
    base: int,
    cbase: int,
) -> Seq<Command> {
    seq![Command::Zero { buf: Buf::Scratch(ScratchBuffer::MoeOut), words: (t * m.cfg.hidden_size) as u32 }] + (
    if m.skips.shared {
        Seq::empty()
    } else {
        shared_commands(m, moe, t)
    }) + (if m.skips.experts {
        Seq::empty()
    } else {
        batches(m, jobs, stride, 0, base, cbase)
    })
}

/// A job of a chunk of `t` rows: its rows fit the chunk, and its record is addressable.
pub open spec fn job_fits(job: ExpertJob, t: int, k: int, stride: int) -> bool {
    let l = job.layout;
    let offset = record_place(job, stride).1;
    &&& job.row_count <= t
    &&& job.csr_offset <= t * k
    &&& 0 <= offset
    &&& l.gate_w + offset <= usize::MAX
    &&& l.gate_s + offset <= usize::MAX
    &&& l.gate_b + offset <= usize::MAX
    &&& l.up_w + offset <= usize::MAX
    &&& l.up_s + offset <= usize::MAX
    &&& l.up_b + offset <= usize::MAX
    &&& l.down_w + offset <= usize::MAX
    &&& l.down_s + offset <= usize::MAX
    &&& l.down_b + offset <= usize::MAX
}

proof fn lemma_job_products(m: Model, t: nat, job: ExpertJob, stride: int)
    requires
        m.plans(t),
        job_fits(job, t as int, m.cfg.num_experts_per_tok as int, stride),
    ensures
        job.row_count * m.cfg.hidden_size <= usize::MAX,
        job.row_count * m.inter <= usize::MAX,
        job.csr_offset * 4 <= usize::MAX,
        t * m.inter <= usize::MAX,
{
    let c = m.cfg;
    let max = usize::MAX as nat;
    allocation::lemma_padded_rows(t);
    model::lemma_rows_fit(m, t, job.row_count as nat, ScratchBuffer::Xg);
    model::lemma_single(job.row_count as nat, 4, c.hidden_size as nat, max);
    model::lemma_rows_fit(m, t, job.row_count as nat, ScratchBuffer::Ge);
    model::lemma_single(job.row_count as nat, 4, c.moe_intermediate_size as nat, max);
    model::lemma_rows_fit(m, t, t, ScratchBuffer::Ge);
    model::lemma_single(t, 4, c.moe_intermediate_size as nat, max);
    model::lemma_rows_fit(m, t, t, ScratchBuffer::CsrRows);
    model::lemma_single(t, 4, c.num_experts_per_tok as nat, max);
}

fn expert_qmm(out: &mut Vec<Command>, record: Buf, offset: usize, q: Q, x: ScratchBuffer, y: ScratchBuffer, rows: usize, bits: u32)
    requires
        q.w + offset <= usize::MAX,
        q.s + offset <= usize::MAX,
        q.b + offset <= usize::MAX,
    ensures
        final(out)@ == old(out)@.push(
            Command::ExpertQmm {
                record,
                weights: at_offset(q, offset as int),
                x: Buf::Scratch(x),
                y: Buf::Scratch(y),
                rows,
                bits,
            },
        ),
{
    let weights = Q { w: q.w + offset, s: q.s + offset, b: q.b + offset, ..q };
    out.push(Command::ExpertQmm { record, weights, x: Buf::Scratch(x), y: Buf::Scratch(y), rows, bits });
}

fn job_stage(out: &mut Vec<Command>, m: &Model, job: &ExpertJob, stride: usize, t: usize)
    requires
        m.plans(t as nat),
        job_fits(*job, t as int, m.cfg.num_experts_per_tok as int, stride as int),
        job.source is Ring ==> job.source->Ring_0 * stride <= usize::MAX,
    ensures
        final(out)@ == old(out)@ + job_commands(*m, *job, stride as int),
{
    let ghost start = out@;
    let n: usize = job.row_count;
    let l: RecordLayout = job.layout;
    let h: u32 = m.cfg.hidden_size as u32;
    let inter: u32 = m.inter as u32;
    proof {
        lemma_job_products(*m, t as nat, *job, stride as int);
    }
    let (record, offset): (Buf, usize) = match job.source {
        ExpertSource::Pool { buffer, .. } => match buffer {
            RecordBuffer::Region { rid } => (Buf::Record(rid), 0),
            RecordBuffer::Slot { offset } => (Buf::Pool, offset),
        },
        ExpertSource::Ring(slot) => (Buf::Ring, slot as usize * stride),
    };
    out.push(
        threads(
            Pipe::GatherRows,
            args5(
                Arg::Bind(Buf::Scratch(ScratchBuffer::Mixed), 0),
                Arg::Bind(Buf::Scratch(ScratchBuffer::CsrRows), job.csr_offset * 4),
                Arg::Bind(Buf::Scratch(ScratchBuffer::Xg), 0),
                Arg::Word(n as u32),
                Arg::Word(h),
            ),
            n * m.cfg.hidden_size,
            256,
        ),
    );
    let gate = Q { w: l.gate_w, s: l.gate_s, b: l.gate_b, out: inter, inp: h };
    let up = Q { w: l.up_w, s: l.up_s, b: l.up_b, out: inter, inp: h };
    let down = Q { w: l.down_w, s: l.down_s, b: l.down_b, out: h, inp: inter };
    expert_qmm(out, record, offset, gate, ScratchBuffer::Xg, ScratchBuffer::Ge, n, l.bits);
    expert_qmm(out, record, offset, up, ScratchBuffer::Xg, ScratchBuffer::Ue, n, l.bits);
    out.push(
        threads(
            Pipe::SiluMul,
            args3(
                Arg::Bind(Buf::Scratch(ScratchBuffer::Ge), 0),
                Arg::Bind(Buf::Scratch(ScratchBuffer::Ue), 0),
                Arg::Bind(Buf::Scratch(ScratchBuffer::Hg), 0),
            ),
            n * m.inter,
            256,
        ),
    );
    expert_qmm(out, record, offset, down, ScratchBuffer::Hg, ScratchBuffer::Ye, n, l.bits);
    out.push(
        threads(
            Pipe::ScatterAddRows,
            args6(
                Arg::Bind(Buf::Scratch(ScratchBuffer::Ye), 0),
                Arg::Bind(Buf::Scratch(ScratchBuffer::CsrRows), job.csr_offset * 4),
                Arg::Bind(Buf::Scratch(ScratchBuffer::CsrW), job.csr_offset * 4),
                Arg::Bind(Buf::Scratch(ScratchBuffer::MoeOut), 0),
                Arg::Word(n as u32),
                Arg::Word(h),
            ),
            n * m.cfg.hidden_size,
            256,
        ),
    );
    assert(out@ =~= start + job_commands(*m, *job, stride as int));
}

/// The device work of a block's experts over `t` rows: the shared expert over all rows,
/// then the routed experts in batches behind their records.
pub fn pf_experts(
    out: &mut Vec<Command>,
    m: &Model,
    moe: &Moe,
    t: usize,
    jobs: &Vec<ExpertJob>,
    stride: usize,
    base: u64,
    cbase: u64,
)
    requires
        m.plans(t as nat),
        t * m.cfg.hidden_size <= u32::MAX,
        base + jobs.len() + 1 <= u64::MAX,
        cbase + jobs.len() + 1 <= u64::MAX,
        forall|i: int|
            0 <= i < jobs.len() ==> job_fits(
                #[trigger] jobs@[i],
                t as int,
                m.cfg.num_experts_per_tok as int,
                stride as int,
            ) && (jobs@[i].source is Ring ==> jobs@[i].source->Ring_0 * stride <= usize::MAX),
    ensures
        final(out)@ == old(out)@ + pf_experts_commands(
            *m,
            *moe,
            t as int,
            jobs@,
            stride as int,
            base as int,
            cbase as int,
        ),
{
    reveal(pf_experts_commands);
    let ghost start = out@;
    let h: u32 = m.cfg.hidden_size as u32;
    proof {
        hyperconnection::lemma_stream_products(*m, t as nat);
        allocation::lemma_padded_rows(t as nat);
        model::lemma_rows_fit(*m, t as nat, t as nat, ScratchBuffer::Ge);
        model::lemma_single(t as nat, 4, m.cfg.moe_intermediate_size as nat, usize::MAX as nat);
    }
    out.push(Command::Zero { buf: Buf::Scratch(ScratchBuffer::MoeOut), words: (t * m.cfg.hidden_size) as u32 });
    if !m.skips.shared {
        let mixed: Buf = Buf::Scratch(ScratchBuffer::Mixed);
        let ge: Buf = Buf::Scratch(ScratchBuffer::Ge);
        let ue: Buf = Buf::Scratch(ScratchBuffer::Ue);
        let hg: Buf = Buf::Scratch(ScratchBuffer::Hg);
        let ye: Buf = Buf::Scratch(ScratchBuffer::Ye);
        out.push(Command::Qmm { weights: moe.sg, x: mixed, y: ge, rows: t });
        out.push(Command::Qmm { weights: moe.su, x: mixed, y: ue, rows: t });
        out.push(
            threads(
                Pipe::SiluMul,
                args3(Arg::Bind(ge, 0), Arg::Bind(ue, 0), Arg::Bind(hg, 0)),
                t * m.inter,
                256,
            ),
        );
        out.push(Command::Qmm { weights: moe.sd, x: hg, y: ye, rows: t });
        out.push(
            groups(
                Pipe::SharedAddRows,
                args5(
                    Arg::Bind(Buf::Scratch(ScratchBuffer::MoeOut), 0),
                    Arg::Bind(ye, 0),
                    Arg::Bind(Buf::Dense, moe.shared_gate),
                    Arg::Bind(mixed, 0),
                    Arg::Word(h),
                ),
                t,
                256,
            ),
        );
    }
    let ghost shared = out@;
    proof {
        let zero = seq![Command::Zero { buf: Buf::Scratch(ScratchBuffer::MoeOut), words: (t * m.cfg.hidden_size) as u32 }];
        if m.skips.shared {
            assert(shared =~= start + zero);
            assert(zero + Seq::<Command>::empty() =~= zero);
        } else {
            assert(shared =~= start + (zero + shared_commands(*m, *moe, t as int)));
        }
    }
    if !m.skips.experts {
        let mut at: usize = 0;
        while at < jobs.len()
            invariant
                at <= jobs.len(),
                at % GROUP == 0 || at == jobs.len(),
                m.plans(t as nat),
                base + jobs.len() + 1 <= u64::MAX,
                cbase + jobs.len() + 1 <= u64::MAX,
                forall|i: int|
                    0 <= i < jobs.len() ==> job_fits(
                        #[trigger] jobs@[i],
                        t as int,
                        m.cfg.num_experts_per_tok as int,
                        stride as int,
                    ) && (jobs@[i].source is Ring ==> jobs@[i].source->Ring_0 * stride <= usize::MAX),
                out@ + batches(*m, jobs@, stride as int, at as int, base as int, cbase as int) == shared + batches(
                    *m,
                    jobs@,
                    stride as int,
                    0,
                    base as int,
                    cbase as int,
                ),
            decreases jobs.len() - at,
        {
            let ghost before = out@;
            let bi: u64 = (at / GROUP) as u64;
            let left: usize = jobs.len() - at;
            let end: usize = if left <= GROUP { jobs.len() } else { at + GROUP };
            out.push(Command::EndPass);
            out.push(Command::Wait(Event::Fetched, cbase + bi + 1));
            out.push(Command::BeginPass);
            let ghost opened = out@;
            assert(opened + Seq::<Command>::empty() =~= opened);
            let mut i: usize = at;
            while i < end
                invariant
                    at <= i <= end <= jobs.len(),
                    m.plans(t as nat),
                    forall|q: int|
                        0 <= q < jobs.len() ==> job_fits(
                            #[trigger] jobs@[q],
                            t as int,
                            m.cfg.num_experts_per_tok as int,
                            stride as int,
                        ) && (jobs@[q].source is Ring ==> jobs@[q].source->Ring_0 * stride <= usize::MAX),
                    out@ == opened + jobs_commands(*m, jobs@, stride as int, at as int, i as int),
                decreases end - i,
            {
                assert(job_fits(jobs@[i as int], t as int, m.cfg.num_experts_per_tok as int, stride as int));
                job_stage(out, m, &jobs[i], stride, t);
                assert(out@ =~= opened + jobs_commands(*m, jobs@, stride as int, at as int, i + 1));
                i = i + 1;
            }
            out.push(Command::EndPass);
            out.push(Command::Signal(Event::Main, base + bi + 1));
            out.push(Command::BeginPass);
            proof {
                let batch = batch_commands(*m, jobs@, stride as int, at as int, base as int, cbase as int);
                let rest = batches(*m, jobs@, stride as int, end as int, base as int, cbase as int);
                assert(out@ =~= before + batch);
                assert((before + batch) + rest =~= before + (batch + rest));
            }
            at = end;
        }
        assert(batches(*m, jobs@, stride as int, at as int, base as int, cbase as int) =~= Seq::empty());
        assert(out@ + Seq::<Command>::empty() =~= out@);
    }
    assert(out@ =~= start + pf_experts_commands(*m, *moe, t as int, jobs@, stride as int, base as int, cbase as int));
}

/// The batches of a block, and the events' values behind it.
pub fn batch_count(jobs: usize) -> (r: usize)
    ensures
        r == runner::ceil_div(jobs as nat, GROUP as nat),
{
    div_ceil(jobs, GROUP)
}

} // verus!
