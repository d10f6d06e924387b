//! Grouped normalization and gated residual mixing and injection.

use crate::number::Real32;
use crate::qwen4_exp::gpu::launch::{
    args4, args5, args9, groups, threads, Arg, Buf, Command, GroupParams, Hc, NormPrepParams, Part, Pipe, Prepared,
    QmvParams, RowBuffer, Stream,
};
use crate::qwen4_exp::gpu::model;
use crate::qwen4_exp::gpu::model::Model;
use crate::qwen4_exp::gpu::prefill::allocation;
use crate::qwen4_exp::gpu::prefill::allocation::ScratchBuffer;
use crate::runner;
use crate::runner::div_ceil;
use vstd::prelude::*;

verus! {

/// The grouping of the residual stream, with the model's epsilon or none.
pub open spec fn grouping(m: Model, eps: bool, shift: Real32) -> GroupParams {
    GroupParams {
        n: m.cfg.hidden_size as u32,
        groups: m.cfg.hc_count as u32,
        eps: if eps {
            m.figures.eps
        } else {
            Real32 { bits: 0 }
        },
        shift,
    }
}

pub fn group_params(m: &Model, eps: bool, shift: Real32) -> (r: GroupParams)
    ensures
        r == grouping(*m, eps, shift),
{
    GroupParams {
        n: m.cfg.hidden_size as u32,
        groups: m.cfg.hc_count as u32,
        eps: if eps { m.figures.eps } else { Real32 { bits: 0 } },
        shift,
    }
}

/// Grouped norm of `rows` rows, each `groups` slices of `n`, the weight shifted by `shift`.
pub open spec fn group_norm_command(
    m: Model,
    x: Buf,
    x_off: usize,
    w: usize,
    y: Buf,
    n: u32,
    count: u32,
    shift: Real32,
    rows: int,
) -> Command {
    groups(
        Pipe::GroupNormB,
        args4(
            Arg::Bind(x, x_off),
            Arg::Bind(Buf::Dense, w),
            Arg::Bind(y, 0),
            Arg::Group(GroupParams { n, groups: count, eps: m.figures.eps, shift }),
        ),
        (rows * count) as usize,
        256,
    )
}

pub fn group_norm_b(
    out: &mut Vec<Command>,
    m: &Model,
    x: Buf,
    x_off: usize,
    w: usize,
    y: Buf,
    n: u32,
    count: u32,
    shift: Real32,
    nb: usize,
)
    requires
        nb * count <= usize::MAX,
    ensures
        final(out)@ == old(out)@.push(group_norm_command(*m, x, x_off, w, y, n, count, shift, nb as int)),
{
    out.push(
        groups(
            Pipe::GroupNormB,
            args4(
                Arg::Bind(x, x_off),
                Arg::Bind(Buf::Dense, w),
                Arg::Bind(y, 0),
                Arg::Group(GroupParams { n, groups: count, eps: m.figures.eps, shift }),
            ),
            nb * count as usize,
            256,
        ),
    );
}

/// The products of stream rows stay within the scratch.
pub proof fn lemma_stream_products(m: Model, n: nat)
    requires
        m.plans(n),
    ensures
        n * m.cfg.hc_count <= usize::MAX,
        n * (m.cfg.hc_count as u32) <= usize::MAX,
        n * m.cfg.hidden_size <= usize::MAX,
        n * (m.cfg.hidden_size as u32) <= usize::MAX,
        n * m.cfg.stream() <= usize::MAX,
        n * (4 * m.cfg.stream()) <= usize::MAX,
        m.cfg.stream() <= usize::MAX,
{
    let c = m.cfg;
    let limit = usize::MAX as nat;
    allocation::lemma_padded_rows(n);
    model::lemma_rows_fit(m, n, n, ScratchBuffer::Hyper);
    model::lemma_partial(n, 4, c.hc_count as nat, c.hidden_size as nat, limit);
    model::lemma_rows_fit(m, n, 1, ScratchBuffer::Hyper);
    let (a, b) = (c.hc_count, c.hidden_size);
    assert(a as u32 <= a && b as u32 <= b) by (bit_vector);
    assert(n * (a as u32) <= n * a && n * (b as u32) <= n * b) by (nonlinear_arith)
        requires
            a as u32 <= a,
            b as u32 <= b,
    ;
}

/// A gated residual read of `n` rows of `hyper` from a byte offset: the block input lands
/// in the stream's mixed buffer and, prepared, in its input; injection logits in its own.
/// A block output that is not yet injected is applied first by the fused norm.
#[verifier::opaque]
pub open spec fn hc_read_commands(
    m: Model,
    hc: Hc,
    n: int,
    hyper: Buf,
    hyper_off: usize,
    pending: Option<Buf>,
    bufs: Stream,
    inject: bool,
) -> Seq<Command> {
    let c = m.cfg;
    let input = Prepared::Input(bufs);
    let neck = Prepared::Bottleneck(bufs);
    let xe = Arg::Bind(Buf::Row(RowBuffer::Prep(input, Part::Even)), 0);
    let xo = Arg::Bind(Buf::Row(RowBuffer::Prep(input, Part::Odd)), 0);
    let xsum = Arg::Bind(Buf::Row(RowBuffer::Prep(input, Part::Sum)), 0);
    let np = NormPrepParams {
        n: c.hidden_size as u32,
        groups: c.hc_count as u32,
        eps: m.figures.eps,
        inject: if pending is Some {
            1
        } else {
            0
        },
    };
    let applied = match pending {
        Some(out) => out,
        None => Buf::Row(RowBuffer::MixOut),
    };
    let read = seq![
        groups(
            Pipe::NormPrepB,
            args9(
                Arg::Bind(hyper, hyper_off),
                Arg::Bind(Buf::Dense, hc.norm),
                Arg::Bind(Buf::Row(RowBuffer::Normed(bufs)), 0),
                xe,
                xo,
                xsum,
                Arg::Bind(applied, 0),
                Arg::Bind(Buf::Row(RowBuffer::Inj(bufs)), 0),
                Arg::NormPrep(np),
            ),
            (n * c.hc_count) as usize,
            256,
        ),
        groups(
            Pipe::QmvSiluB(n as usize),
            args9(
                Arg::Bind(Buf::Dense, hc.down.w),
                Arg::Bind(Buf::Dense, hc.down.s),
                Arg::Bind(Buf::Dense, hc.down.b),
                xe,
                xo,
                xsum,
                Arg::Bind(Buf::Row(RowBuffer::D(bufs)), 0),
                Arg::Qmv(QmvParams { out_dim: hc.down.out, in_dim: hc.down.inp }),
                Arg::Number(m.figures.streams),
            ),
            runner::ceil_div(hc.down.out as nat, 4) as usize,
            128,
        ),
    ];
    let logits = match hc.inject {
        Some(q) if inject => seq![
            Command::QmvH { weights: q, y: Buf::Row(RowBuffer::Inj(bufs)), rows: n as usize, input: input },
        ],
        _ => Seq::empty(),
    };
    let mix = seq![
        Command::PrepH {
            x: Buf::Row(RowBuffer::D(bufs)),
            offset: 0,
            width: hc.down.out,
            rows: n as usize,
            prepared: neck,
        },
        Command::QmvH { weights: hc.up, y: Buf::Row(RowBuffer::U(bufs)), rows: n as usize, input: neck },
        threads(
            Pipe::HcMixB,
            args5(
                Arg::Bind(Buf::Row(RowBuffer::U(bufs)), 0),
                Arg::Bind(Buf::Row(RowBuffer::Normed(bufs)), 0),
                Arg::Bind(Buf::Row(RowBuffer::Mixed(bufs)), 0),
                Arg::Group(grouping(m, false, Real32 { bits: 0 })),
                Arg::Word(n as u32),
            ),
            (n * (c.hidden_size as u32)) as usize,
            256,
        ),
        Command::PrepH {
            x: Buf::Row(RowBuffer::Mixed(bufs)),
            offset: 0,
            width: c.hidden_size as u32,
            rows: n as usize,
            prepared: input,
        },
    ];
    read + logits + mix
}

pub fn hc_read_b(
    out: &mut Vec<Command>,
    m: &Model,
    hc: &Hc,
    nb: usize,
    hyper: Buf,
    hyper_off: usize,
    pending: Option<Buf>,
    bufs: Stream,
    inject: bool,
)
    requires
        m.plans(nb as nat),
    ensures
        final(out)@ == old(out)@ + hc_read_commands(*m, *hc, nb as int, hyper, hyper_off, pending, bufs, inject),
{
    reveal(hc_read_commands);
    let ghost start = out@;
    let c = &m.cfg;
    proof {
        lemma_stream_products(*m, nb as nat);
    }
    let input: Prepared = Prepared::Input(bufs);
    let neck: Prepared = Prepared::Bottleneck(bufs);
    let xe: Arg = Arg::Bind(Buf::Row(RowBuffer::Prep(input, Part::Even)), 0);
    let xo: Arg = Arg::Bind(Buf::Row(RowBuffer::Prep(input, Part::Odd)), 0);
    let xsum: Arg = Arg::Bind(Buf::Row(RowBuffer::Prep(input, Part::Sum)), 0);
    let np = NormPrepParams {
        n: c.hidden_size as u32,
        groups: c.hc_count as u32,
        eps: m.figures.eps,
        inject: if pending.is_some() { 1 } else { 0 },
    };
    let applied: Buf = match pending {
        Some(buf) => buf,
        None => Buf::Row(RowBuffer::MixOut),
    };
    out.push(
        groups(
            Pipe::NormPrepB,
            args9(
                Arg::Bind(hyper, hyper_off),
                Arg::Bind(Buf::Dense, hc.norm),
                Arg::Bind(Buf::Row(RowBuffer::Normed(bufs)), 0),
                xe,
                xo,
                xsum,
                Arg::Bind(applied, 0),
                Arg::Bind(Buf::Row(RowBuffer::Inj(bufs)), 0),
                Arg::NormPrep(np),
            ),
            nb * c.hc_count,
            256,
        ),
    );
    out.push(
        groups(
            Pipe::QmvSiluB(nb),
            args9(
                Arg::Bind(Buf::Dense, hc.down.w),
                Arg::Bind(Buf::Dense, hc.down.s),
                Arg::Bind(Buf::Dense, hc.down.b),
                xe,
                xo,
                xsum,
                Arg::Bind(Buf::Row(RowBuffer::D(bufs)), 0),
                Arg::Qmv(QmvParams { out_dim: hc.down.out, in_dim: hc.down.inp }),
                Arg::Number(m.figures.streams),
            ),
            div_ceil(hc.down.out as usize, 4),
            128,
        ),
    );
    if inject {
        match hc.inject {
            Some(q) => {
                out.push(Command::QmvH { weights: q, y: Buf::Row(RowBuffer::Inj(bufs)), rows: nb, input: input });
            },
            None => {},
        }
    }
    out.push(
        Command::PrepH {
            x: Buf::Row(RowBuffer::D(bufs)),
            offset: 0,
            width: hc.down.out,
            rows: nb,
            prepared: neck,
        },
    );
    out.push(Command::QmvH { weights: hc.up, y: Buf::Row(RowBuffer::U(bufs)), rows: nb, input: neck });
    let gp: GroupParams = group_params(m, false, Real32 { bits: 0 });
    out.push(
        threads(
            Pipe::HcMixB,
            args5(
                Arg::Bind(Buf::Row(RowBuffer::U(bufs)), 0),
                Arg::Bind(Buf::Row(RowBuffer::Normed(bufs)), 0),
                Arg::Bind(Buf::Row(RowBuffer::Mixed(bufs)), 0),
                Arg::Group(gp),
                Arg::Word(nb as u32),
            ),
            nb * c.hidden_size as u32 as usize,
            256,
        ),
    );
    out.push(
        Command::PrepH {
            x: Buf::Row(RowBuffer::Mixed(bufs)),
            offset: 0,
            width: c.hidden_size as u32,
            rows: nb,
            prepared: input,
        },
    );
    assert(out@ =~= start + hc_read_commands(*m, *hc, nb as int, hyper, hyper_off, pending, bufs, inject));
}

/// A block output is injected into `n` rows of the stream.
pub open spec fn inject_command(m: Model, hyper: Buf, output: Buf, inj: Buf, n: int) -> Command {
    threads(
        Pipe::InjectB,
        args5(
            Arg::Bind(hyper, 0),
            Arg::Bind(output, 0),
            Arg::Bind(inj, 0),
            Arg::Group(grouping(m, false, Real32 { bits: 0 })),
            Arg::Word(n as u32),
        ),
        (n * m.cfg.stream()) as usize,
        256,
    )
}

/// Inject with the given logits.
pub fn inject_rows(out: &mut Vec<Command>, m: &Model, hyper: Buf, output: Buf, inj: Buf, n: usize)
    requires
        m.plans(n as nat),
    ensures
        final(out)@ == old(out)@.push(inject_command(*m, hyper, output, inj, n as int)),
{
    proof {
        lemma_stream_products(*m, n as nat);
    }
    let gp: GroupParams = group_params(m, false, Real32 { bits: 0 });
    out.push(
        threads(
            Pipe::InjectB,
            args5(Arg::Bind(hyper, 0), Arg::Bind(output, 0), Arg::Bind(inj, 0), Arg::Group(gp), Arg::Word(n as u32)),
            n * m.cfg.hc_hidden(),
            256,
        ),
    );
}

/// Inject a block output with the block's own logits.
pub fn inject_b(out: &mut Vec<Command>, m: &Model, hyper: Buf, output: Buf, nb: usize)
    requires
        m.plans(nb as nat),
    ensures
        final(out)@ == old(out)@.push(
            inject_command(*m, hyper, output, Buf::Row(RowBuffer::Inj(Stream::Block)), nb as int),
        ),
{
    inject_rows(out, m, hyper, output, Buf::Row(RowBuffer::Inj(Stream::Block)), nb);
}

} // verus!
