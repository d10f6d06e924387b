//! Causal convolution and recurrent mixing.

use crate::number::Real32;
use crate::qwen4_exp::gpu::attention;
use crate::qwen4_exp::gpu::launch::{
    args3, args4, args6, args7, groups, threads, Arg, Buf, Command, ConvParams, DeltaPrepParams, LayerBuffer, Pipe,
    Prepared, RowBuffer, Stream, DELTA_EPS,
};
use crate::qwen4_exp::gpu::model;
use crate::qwen4_exp::gpu::model::{Delta, Model};
use crate::qwen4_exp::gpu::prefill::allocation;
use crate::qwen4_exp::gpu::prefill::allocation::ScratchBuffer;
use crate::runner;
use crate::runner::div_ceil;
use vstd::prelude::*;

verus! {

/// The buffers that a recurrent mixer works on.
#[derive(Debug, Clone, Copy, PartialEq, Eq, Structural)]
pub struct DeltaBufs {
    pub qkv: Buf,
    pub z: Buf,
    pub a: Buf,
    pub b: Buf,
    pub kqn: Buf,
    pub gbuf: Buf,
    pub delta_y: Buf,
}

pub open spec fn delta_params(m: Model, n: int, snap_after: int) -> DeltaPrepParams {
    let c = m.cfg;
    DeltaPrepParams {
        n_k: c.linear_num_key_heads as u32,
        n_v: c.linear_num_value_heads as u32,
        d_k: c.linear_key_head_dim as u32,
        d_v: c.linear_value_head_dim as u32,
        eps: Real32 { bits: DELTA_EPS },
        nb: n as u32,
        snap_after: snap_after as u32,
    }
}

/// Convolution, norms, gates, scan and output gate over `n` projected rows. The state after
/// each of the first `snap_after` rows is kept for rollback.
pub open spec fn mix_commands(m: Model, d: Delta, bufs: DeltaBufs, n: int, snap_after: int) -> Seq<Command> {
    let c = m.cfg;
    let p = delta_params(m, n, snap_after);
    seq![
        threads(
            Pipe::ConvB,
            args7(
                Arg::Bind(bufs.qkv, 0),
                Arg::Bind(Buf::Dense, d.conv),
                Arg::Bind(Buf::Layer(LayerBuffer::ConvHistory), 0),
                Arg::Conv(ConvParams { channels: d.qkv.out, ksize: c.linear_conv_kernel_dim as u32 }),
                Arg::Word(n as u32),
                Arg::Word(snap_after as u32),
                Arg::Bind(Buf::Layer(LayerBuffer::ConvSnapshots), 0),
            ),
            d.qkv.out as usize,
            256,
        ),
        groups(
            Pipe::DeltaNorms,
            args3(Arg::Bind(bufs.qkv, 0), Arg::Bind(bufs.kqn, 0), Arg::DeltaPrep(p)),
            runner::ceil_div((n * c.linear_num_key_heads) as nat, 4) as usize,
            128,
        ),
        threads(
            Pipe::DeltaGates,
            args6(
                Arg::Bind(bufs.a, 0),
                Arg::Bind(bufs.b, 0),
                Arg::Bind(Buf::Dense, d.a_log),
                Arg::Bind(Buf::Dense, d.dt_bias),
                Arg::Bind(bufs.gbuf, 0),
                Arg::DeltaPrep(p),
            ),
            (n * c.linear_num_value_heads) as usize,
            96,
        ),
        groups(
            Pipe::DeltaScan2,
            args7(
                Arg::Bind(bufs.qkv, 0),
                Arg::Bind(bufs.kqn, 0),
                Arg::Bind(bufs.gbuf, 0),
                Arg::Bind(Buf::Layer(LayerBuffer::State), 0),
                Arg::Bind(bufs.delta_y, 0),
                Arg::Bind(Buf::Layer(LayerBuffer::StateSnapshots), 0),
                Arg::DeltaPrep(p),
            ),
            runner::ceil_div(allocation::value_dim(c), 4) as usize,
            128,
        ),
        groups(
            Pipe::GateNormSigmoidB,
            args4(
                Arg::Bind(bufs.delta_y, 0),
                Arg::Bind(bufs.z, 0),
                Arg::Bind(Buf::Dense, d.norm),
                Arg::DeltaPrep(p),
            ),
            (n * c.linear_num_value_heads) as usize,
            c.linear_value_head_dim,
        ),
    ]
}

proof fn lemma_delta_products(m: Model, n: nat)
    requires
        m.plans(n),
    ensures
        n * m.cfg.linear_num_key_heads <= usize::MAX,
        n * m.cfg.linear_num_value_heads <= usize::MAX,
        allocation::value_dim(m.cfg) <= usize::MAX,
{
    let c = m.cfg;
    allocation::lemma_padded_rows(n);
    model::lemma_rows_fit(m, n, n, ScratchBuffer::Kqn);
    model::lemma_partial(n, 8, c.linear_num_key_heads as nat, c.linear_key_head_dim as nat, usize::MAX as nat);
    model::lemma_rows_fit(m, n, n, ScratchBuffer::A);
    model::lemma_single(n, 4, c.linear_num_value_heads as nat, usize::MAX as nat);
    model::lemma_rows_fit(m, n, 1, ScratchBuffer::Z);
}

pub fn mix_stage(out: &mut Vec<Command>, m: &Model, d: &Delta, bufs: &DeltaBufs, n: usize, snap_after: usize)
    requires
        m.plans(n as nat),
    ensures
        final(out)@ == old(out)@ + mix_commands(*m, *d, *bufs, n as int, snap_after as int),
{
    let ghost start = out@;
    let c = &m.cfg;
    proof {
        lemma_delta_products(*m, n as nat);
    }
    out.push(
        threads(
            Pipe::ConvB,
            args7(
                Arg::Bind(bufs.qkv, 0),
                Arg::Bind(Buf::Dense, d.conv),
                Arg::Bind(Buf::Layer(LayerBuffer::ConvHistory), 0),
                Arg::Conv(ConvParams { channels: d.qkv.out, ksize: c.linear_conv_kernel_dim as u32 }),
                Arg::Word(n as u32),
                Arg::Word(snap_after as u32),
                Arg::Bind(Buf::Layer(LayerBuffer::ConvSnapshots), 0),
            ),
            d.qkv.out as usize,
            256,
        ),
    );
    let p = DeltaPrepParams {
        n_k: c.linear_num_key_heads as u32,
        n_v: c.linear_num_value_heads as u32,
        d_k: c.linear_key_head_dim as u32,
        d_v: c.linear_value_head_dim as u32,
        eps: Real32 { bits: DELTA_EPS },
        nb: n as u32,
        snap_after: snap_after as u32,
    };
    out.push(
        groups(
            Pipe::DeltaNorms,
            args3(Arg::Bind(bufs.qkv, 0), Arg::Bind(bufs.kqn, 0), Arg::DeltaPrep(p)),
            div_ceil(n * c.linear_num_key_heads, 4),
            128,
        ),
    );
    out.push(
        threads(
            Pipe::DeltaGates,
            args6(
                Arg::Bind(bufs.a, 0),
                Arg::Bind(bufs.b, 0),
                Arg::Bind(Buf::Dense, d.a_log),
                Arg::Bind(Buf::Dense, d.dt_bias),
                Arg::Bind(bufs.gbuf, 0),
                Arg::DeltaPrep(p),
            ),
            n * c.linear_num_value_heads,
            96,
        ),
    );
    out.push(
        groups(
            Pipe::DeltaScan2,
            args7(
                Arg::Bind(bufs.qkv, 0),
                Arg::Bind(bufs.kqn, 0),
                Arg::Bind(bufs.gbuf, 0),
                Arg::Bind(Buf::Layer(LayerBuffer::State), 0),
                Arg::Bind(bufs.delta_y, 0),
                Arg::Bind(Buf::Layer(LayerBuffer::StateSnapshots), 0),
                Arg::DeltaPrep(p),
            ),
            div_ceil(c.linear_num_value_heads * c.linear_value_head_dim, 4),
            128,
        ),
    );
    out.push(
        groups(
            Pipe::GateNormSigmoidB,
            args4(
                Arg::Bind(bufs.delta_y, 0),
                Arg::Bind(bufs.z, 0),
                Arg::Bind(Buf::Dense, d.norm),
                Arg::DeltaPrep(p),
            ),
            n * c.linear_num_value_heads,
            c.linear_value_head_dim,
        ),
    );
    assert(out@ =~= start + mix_commands(*m, *d, *bufs, n as int, snap_after as int));
}

pub open spec fn decode_bufs() -> DeltaBufs {
    DeltaBufs {
        qkv: Buf::Row(RowBuffer::Qkv),
        z: Buf::Row(RowBuffer::Z),
        a: Buf::Row(RowBuffer::A),
        b: Buf::Row(RowBuffer::B),
        kqn: Buf::Row(RowBuffer::Kqn),
        gbuf: Buf::Row(RowBuffer::Gbuf),
        delta_y: Buf::Row(RowBuffer::DeltaY),
    }
}

/// The recurrent mixer over `n` decode rows.
#[verifier::opaque]
pub open spec fn deltanet_commands(m: Model, d: Delta, n: int, snap_after: int) -> Seq<Command> {
    let input = Prepared::Input(Stream::Block);
    seq![
        attention::product(d.qkv, RowBuffer::Qkv, n, input),
        attention::product(d.z, RowBuffer::Z, n, input),
        attention::product(d.a, RowBuffer::A, n, input),
        attention::product(d.b, RowBuffer::B, n, input),
    ] + mix_commands(m, d, decode_bufs(), n, snap_after) + seq![
        Command::PrepH {
            x: Buf::Row(RowBuffer::DeltaY),
            offset: 0,
            width: allocation::value_dim(m.cfg) as u32,
            rows: n as usize,
            prepared: input,
        },
        attention::product(d.o, RowBuffer::MixOut, n, input),
    ]
}

/// The gated recurrent mixer over `nb` rows; the state after each of the first `snap_after`
/// rows is kept for rollback. The input is prepared.
pub fn deltanet_b(out: &mut Vec<Command>, m: &Model, d: &Delta, nb: usize, snap_after: usize)
    requires
        m.plans(nb as nat),
    ensures
        final(out)@ == old(out)@ + deltanet_commands(*m, *d, nb as int, snap_after as int),
{
    reveal(deltanet_commands);
    let ghost start = out@;
    let input: Prepared = Prepared::Input(Stream::Block);
    proof {
        lemma_delta_products(*m, nb as nat);
    }
    out.push(Command::QmvH { weights: d.qkv, y: Buf::Row(RowBuffer::Qkv), rows: nb, input: input });
    out.push(Command::QmvH { weights: d.z, y: Buf::Row(RowBuffer::Z), rows: nb, input: input });
    out.push(Command::QmvH { weights: d.a, y: Buf::Row(RowBuffer::A), rows: nb, input: input });
    out.push(Command::QmvH { weights: d.b, y: Buf::Row(RowBuffer::B), rows: nb, input: input });
    let bufs = DeltaBufs {
        qkv: Buf::Row(RowBuffer::Qkv),
        z: Buf::Row(RowBuffer::Z),
        a: Buf::Row(RowBuffer::A),
        b: Buf::Row(RowBuffer::B),
        kqn: Buf::Row(RowBuffer::Kqn),
        gbuf: Buf::Row(RowBuffer::Gbuf),
        delta_y: Buf::Row(RowBuffer::DeltaY),
    };
    mix_stage(out, m, d, &bufs, nb, snap_after);
    let rows: usize = m.cfg.linear_num_value_heads * m.cfg.linear_value_head_dim;
    out.push(
        Command::PrepH { x: Buf::Row(RowBuffer::DeltaY), offset: 0, width: rows as u32, rows: nb, prepared: input },
    );
    out.push(Command::QmvH { weights: d.o, y: Buf::Row(RowBuffer::MixOut), rows: nb, input: input });
    assert(out@ =~= start + deltanet_commands(*m, *d, nb as int, snap_after as int));
}

} // verus!
