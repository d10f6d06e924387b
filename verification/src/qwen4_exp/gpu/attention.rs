//! Sparse-attention indexing, quantized cache append, and selected decode attention.

use crate::qwen4_exp::gpu::launch::{
    args3, args4, args5, args6, args7, groups, threads, Arg, Args, AttnPartParams, Buf, Command, IndexParams,
    KvQParams, LayerBuffer, Pipe, Prepared, QkRopeParams, RowBuffer, Stream, Q,
};
use crate::qwen4_exp::gpu::model;
use crate::qwen4_exp::gpu::model::{Attn, Model};
use crate::qwen4_exp::gpu::prefill::allocation;
use crate::qwen4_exp::gpu::prefill::allocation::ScratchBuffer;
use crate::runner;
use crate::runner::div_ceil;
use vstd::prelude::*;

verus! {

/// The buffers that indexing works on.
#[derive(Debug, Clone, Copy, PartialEq, Eq, Structural)]
pub struct IndexBufs {
    pub iqk: Buf,
    pub iq: Buf,
    pub bscore: Buf,
    pub vis: Buf,
    pub nvis: Buf,
    pub vmask: Buf,
}

/// The blocks that a row past the budget attends to.
pub open spec fn budget_blocks(m: Model) -> int {
    m.cfg.indexer_budget as int / m.cfg.indexer_compress_ratio as int
}

/// The parameters of indexing `n` rows from position `base`.
pub open spec fn indexing(m: Model, qk_dim: u32, base: int, n: int) -> IndexParams {
    let c = m.cfg;
    let ratio = c.indexer_compress_ratio as int;
    IndexParams {
        ihd: c.indexer_head_dim as u32,
        inh: c.indexer_n_heads as u32,
        qk_dim,
        ratio: c.indexer_compress_ratio as u32,
        rot: m.figures.rot,
        theta: m.figures.theta,
        eps: m.figures.eps,
        base_pos: base as u32,
        nb: n as u32,
        b0: (base / ratio) as u32,
        b1: ((base + n) / ratio) as u32,
        k: budget_blocks(m) as u32,
        max_blocks: allocation::max_blocks(c, m.max_t) as u32,
        vis_stride: (c.indexer_budget + c.indexer_compress_ratio) as u32,
        mask_words: runner::ceil_div(allocation::max_blocks(c, m.max_t), 32) as u32,
    }
}

/// Whether some of `n` rows from `base` sees more blocks than the budget.
pub open spec fn selects(m: Model, base: int, n: int) -> bool {
    (base + n) / (m.cfg.indexer_compress_ratio as int) > budget_blocks(m)
}

/// Indexing: raw keys are cached, completed blocks are refreshed, and blocks are picked for
/// rows past the budget.
pub open spec fn index_commands(m: Model, a: Attn, bufs: IndexBufs, base: int, n: int) -> Seq<Command> {
    let c = m.cfg;
    let ip = indexing(m, a.iqk.out, base, n);
    let keys = Buf::Layer(LayerBuffer::IndexKeys);
    let blocks = Buf::Layer(LayerBuffer::IndexBlocks);
    let append = seq![
        threads(
            Pipe::IndexAppend,
            args3(Arg::Bind(bufs.iqk, 0), Arg::Bind(keys, 0), Arg::Index(ip)),
            (n * c.indexer_head_dim) as usize,
            256,
        ),
    ];
    let refresh = if ip.b1 > ip.b0 {
        seq![
            groups(
                Pipe::IndexBlocks,
                args4(Arg::Bind(keys, 0), Arg::Bind(blocks, 0), Arg::Bind(Buf::Dense, a.ikn), Arg::Index(ip)),
                (ip.b1 - ip.b0) as usize,
                c.indexer_head_dim,
            ),
        ]
    } else {
        Seq::empty()
    };
    let pick = if selects(m, base, n) {
        seq![
            groups(
                Pipe::IndexQ,
                args4(Arg::Bind(bufs.iqk, 0), Arg::Bind(bufs.iq, 0), Arg::Bind(Buf::Dense, a.iqn), Arg::Index(ip)),
                (n * c.indexer_n_heads) as usize,
                c.indexer_head_dim,
            ),
            groups(
                Pipe::IndexScore,
                args4(Arg::Bind(bufs.iq, 0), Arg::Bind(blocks, 0), Arg::Bind(bufs.bscore, 0), Arg::Index(ip)),
                (n * runner::ceil_div(allocation::max_blocks(c, m.max_t), 256)) as usize,
                256,
            ),
            groups(
                Pipe::IndexSelect,
                args5(
                    Arg::Bind(bufs.bscore, 0),
                    Arg::Bind(bufs.vis, 0),
                    Arg::Bind(bufs.nvis, 0),
                    Arg::Index(ip),
                    Arg::Bind(bufs.vmask, 0),
                ),
                n as usize,
                1024,
            ),
        ]
    } else {
        Seq::empty()
    };
    append + refresh + pick
}

/// The rows of an indexed batch have their products within the scratch.
proof fn lemma_index_products(m: Model, n: nat)
    requires
        m.plans(n),
    ensures
        n * m.cfg.indexer_head_dim <= usize::MAX,
        n * m.cfg.indexer_n_heads <= usize::MAX,
        n * runner::ceil_div(allocation::max_blocks(m.cfg, m.max_t), 256) <= usize::MAX,
        m.cfg.indexer_budget + m.cfg.indexer_compress_ratio <= usize::MAX,
        0 < allocation::max_blocks(m.cfg, m.max_t) <= usize::MAX - 30,
        n <= usize::MAX,
{
    let c = m.cfg;
    allocation::lemma_padded_rows(n);
    model::lemma_rows_fit(m, n, n, ScratchBuffer::Iq);
    model::lemma_partial(n, 4, c.indexer_n_heads as nat, c.indexer_head_dim as nat, usize::MAX as nat);
    model::lemma_rows_fit(m, n, n, ScratchBuffer::Bscore);
    let blocks = allocation::max_blocks(c, m.max_t);
    assert(n * runner::ceil_div(blocks, 256) <= n * (4 * blocks)) by (nonlinear_arith)
        requires
            runner::ceil_div(blocks, 256) <= 4 * blocks,
    ;
    model::lemma_rows_fit(m, n, 1, ScratchBuffer::Vis);
    let (t, ratio) = (m.max_t as int, c.indexer_compress_ratio as int);
    assert(0 <= t / ratio <= t) by (nonlinear_arith)
        requires
            ratio > 0,
            t >= 0,
    ;
}

pub fn index_stage(out: &mut Vec<Command>, m: &Model, a: &Attn, bufs: &IndexBufs, base: usize, n: usize)
    requires
        m.plans(n as nat),
        base + n <= m.max_t,
    ensures
        final(out)@ == old(out)@ + index_commands(*m, *a, *bufs, base as int, n as int),
{
    let ghost start = out@;
    let c = &m.cfg;
    let ratio: usize = c.indexer_compress_ratio;
    proof {
        lemma_index_products(*m, n as nat);
    }
    let kblk: usize = c.indexer_budget / ratio;
    let max_blocks: usize = m.max_t / ratio + 1;
    let ip = IndexParams {
        ihd: c.indexer_head_dim as u32,
        inh: c.indexer_n_heads as u32,
        qk_dim: a.iqk.out,
        ratio: ratio as u32,
        rot: m.figures.rot,
        theta: m.figures.theta,
        eps: m.figures.eps,
        base_pos: base as u32,
        nb: n as u32,
        b0: (base / ratio) as u32,
        b1: ((base + n) / ratio) as u32,
        k: kblk as u32,
        max_blocks: max_blocks as u32,
        vis_stride: (c.indexer_budget + ratio) as u32,
        mask_words: div_ceil(max_blocks, 32) as u32,
    };
    assert(ip == indexing(*m, a.iqk.out, base as int, n as int));
    let keys: Buf = Buf::Layer(LayerBuffer::IndexKeys);
    let blocks: Buf = Buf::Layer(LayerBuffer::IndexBlocks);
    out.push(
        threads(
            Pipe::IndexAppend,
            args3(Arg::Bind(bufs.iqk, 0), Arg::Bind(keys, 0), Arg::Index(ip)),
            n * c.indexer_head_dim,
            256,
        ),
    );
    if ip.b1 > ip.b0 {
        out.push(
            groups(
                Pipe::IndexBlocks,
                args4(Arg::Bind(keys, 0), Arg::Bind(blocks, 0), Arg::Bind(Buf::Dense, a.ikn), Arg::Index(ip)),
                (ip.b1 - ip.b0) as usize,
                c.indexer_head_dim,
            ),
        );
    }
    if (base + n) / ratio > kblk {
        out.push(
            groups(
                Pipe::IndexQ,
                args4(Arg::Bind(bufs.iqk, 0), Arg::Bind(bufs.iq, 0), Arg::Bind(Buf::Dense, a.iqn), Arg::Index(ip)),
                n * c.indexer_n_heads,
                c.indexer_head_dim,
            ),
        );
        out.push(
            groups(
                Pipe::IndexScore,
                args4(Arg::Bind(bufs.iq, 0), Arg::Bind(blocks, 0), Arg::Bind(bufs.bscore, 0), Arg::Index(ip)),
                n * div_ceil(max_blocks, 256),
                256,
            ),
        );
        out.push(
            groups(
                Pipe::IndexSelect,
                args5(
                    Arg::Bind(bufs.bscore, 0),
                    Arg::Bind(bufs.vis, 0),
                    Arg::Bind(bufs.nvis, 0),
                    Arg::Index(ip),
                    Arg::Bind(bufs.vmask, 0),
                ),
                n,
                1024,
            ),
        );
    }
    assert(out@ =~= start + index_commands(*m, *a, *bufs, base as int, n as int));
}

/// The rotation of `heads` heads whose rows lie `stride` apart.
pub open spec fn rotation(m: Model, heads: usize, stride: u32, base: int) -> QkRopeParams {
    QkRopeParams {
        n_heads: heads as u32,
        head_dim: m.cfg.head_dim as u32,
        stride,
        rot: m.figures.rot,
        pos: base as u32,
        theta: m.figures.theta,
        eps: m.figures.eps,
    }
}

/// Queries and keys are normed and rotated in place.
pub open spec fn rope_commands(m: Model, a: Attn, qg: Buf, k: Buf, base: int, n: int) -> Seq<Command> {
    let c = m.cfg;
    seq![
        groups(
            Pipe::QkNormRopeB,
            args4(
                Arg::Bind(qg, 0),
                Arg::Bind(Buf::Dense, a.qn),
                Arg::QkRope(rotation(m, c.num_attention_heads, (2 * c.head_dim) as u32, base)),
                Arg::Word(n as u32),
            ),
            runner::ceil_div((n * c.num_attention_heads) as nat, 4) as usize,
            128,
        ),
        groups(
            Pipe::QkNormRopeB,
            args4(
                Arg::Bind(k, 0),
                Arg::Bind(Buf::Dense, a.kn),
                Arg::QkRope(rotation(m, c.num_key_value_heads, c.head_dim as u32, base)),
                Arg::Word(n as u32),
            ),
            runner::ceil_div((n * c.num_key_value_heads) as nat, 4) as usize,
            128,
        ),
    ]
}

/// The products of attention rows stay within the scratch.
pub proof fn lemma_head_products(m: Model, n: nat)
    requires
        m.plans(n),
    ensures
        n * m.cfg.num_attention_heads <= usize::MAX,
        n * m.cfg.num_key_value_heads <= usize::MAX,
        n * (2 * (m.cfg.num_attention_heads * m.cfg.head_dim)) <= usize::MAX,
        n * (8 * (m.cfg.num_attention_heads * m.cfg.head_dim)) <= usize::MAX,
        n * (4 * (m.cfg.num_attention_heads * m.cfg.head_dim)) <= usize::MAX,
        n * (m.cfg.num_attention_heads * m.cfg.head_dim) <= usize::MAX,
        n * (m.cfg.num_key_value_heads * m.cfg.head_dim) <= usize::MAX,
        m.cfg.num_attention_heads * m.cfg.head_dim * 8 <= usize::MAX,
        m.cfg.num_key_value_heads * m.cfg.head_dim * 4 <= usize::MAX,
        32 * m.cfg.num_attention_heads <= usize::MAX,
        n * (2 * (m.cfg.num_key_value_heads * m.cfg.head_dim / 32)) <= usize::MAX,
        n * (m.cfg.indexer_budget + m.cfg.indexer_compress_ratio) * 4 <= usize::MAX,
        n * (4 * (m.cfg.indexer_budget + m.cfg.indexer_compress_ratio)) <= usize::MAX,
{
    let c = m.cfg;
    let limit = usize::MAX as nat;
    let (heads, kv, hd) = (c.num_attention_heads as nat, c.num_key_value_heads as nat, c.head_dim as nat);
    allocation::lemma_padded_rows(n);
    model::lemma_rows_fit(m, n, n, ScratchBuffer::Qg);
    model::lemma_partial(n, 8, heads, hd, limit);
    model::lemma_rows_fit(m, n, 32, ScratchBuffer::Qg);
    model::lemma_partial(32, 8, heads, hd, limit);
    model::lemma_rows_fit(m, n, n, ScratchBuffer::K);
    model::lemma_partial(n, 4, kv, hd, limit);
    model::lemma_rows_fit(m, n, 1, ScratchBuffer::K);
    model::lemma_rows_fit(m, n, 1, ScratchBuffer::Qg);
    model::lemma_rows_fit(m, n, n, ScratchBuffer::Vis);
    let row = kv * hd;
    assert(n * (2 * (row / 32)) <= n * row) by (nonlinear_arith)
        requires
            2 * (row / 32) <= row,
    ;
    let q = heads * hd;
    assert(n * (2 * q) <= n * (8 * q) && n * (4 * q) <= n * (8 * q)) by (nonlinear_arith);
    let stride = (c.indexer_budget + c.indexer_compress_ratio) as nat;
    assert(n * stride * 4 == n * (4 * stride)) by (nonlinear_arith);
}

pub fn rope_stage(out: &mut Vec<Command>, m: &Model, a: &Attn, qg: Buf, k: Buf, base: usize, n: usize)
    requires
        m.plans(n as nat),
        base + n <= m.max_t,
    ensures
        final(out)@ == old(out)@ + rope_commands(*m, *a, qg, k, base as int, n as int),
{
    let ghost start = out@;
    let c = &m.cfg;
    proof {
        lemma_head_products(*m, n as nat);
    }
    let qp = QkRopeParams {
        n_heads: c.num_attention_heads as u32,
        head_dim: c.head_dim as u32,
        stride: 2 * c.head_dim as u32,
        rot: m.figures.rot,
        pos: base as u32,
        theta: m.figures.theta,
        eps: m.figures.eps,
    };
    out.push(
        groups(
            Pipe::QkNormRopeB,
            args4(Arg::Bind(qg, 0), Arg::Bind(Buf::Dense, a.qn), Arg::QkRope(qp), Arg::Word(n as u32)),
            div_ceil(n * c.num_attention_heads, 4),
            128,
        ),
    );
    let kp = QkRopeParams { n_heads: c.num_key_value_heads as u32, stride: c.head_dim as u32, ..qp };
    out.push(
        groups(
            Pipe::QkNormRopeB,
            args4(Arg::Bind(k, 0), Arg::Bind(Buf::Dense, a.kn), Arg::QkRope(kp), Arg::Word(n as u32)),
            div_ceil(n * c.num_key_value_heads, 4),
            128,
        ),
    );
    assert(out@ =~= start + rope_commands(*m, *a, qg, k, base as int, n as int));
}

/// Keys and values of `n` rows join the quantized cache from position `base`.
pub open spec fn append_command(m: Model, k: Buf, v: Buf, base: int, n: int) -> Command {
    let row = m.cfg.num_key_value_heads * m.cfg.head_dim;
    groups(
        Pipe::KvAppendQ8,
        args5(
            Arg::Bind(k, 0),
            Arg::Bind(v, 0),
            Arg::Bind(Buf::Layer(LayerBuffer::Keys), 0),
            Arg::Bind(Buf::Layer(LayerBuffer::Values), 0),
            Arg::KvQ(
                KvQParams { row: row as u32, t0: base as u32, nb: n as u32, scale_off: m.figures.scale_off as u32 },
            ),
        ),
        runner::ceil_div((n * (2 * (row / 32))) as nat, 4) as usize,
        128,
    )
}

pub fn append_stage(out: &mut Vec<Command>, m: &Model, k: Buf, v: Buf, base: usize, n: usize)
    requires
        m.plans(n as nat),
        base + n <= m.max_t,
    ensures
        final(out)@ == old(out)@.push(append_command(*m, k, v, base as int, n as int)),
{
    let c = &m.cfg;
    proof {
        lemma_head_products(*m, n as nat);
    }
    let row: usize = c.num_key_value_heads * c.head_dim;
    let kq = KvQParams { row: row as u32, t0: base as u32, nb: n as u32, scale_off: m.figures.scale_off as u32 };
    out.push(
        groups(
            Pipe::KvAppendQ8,
            args5(
                Arg::Bind(k, 0),
                Arg::Bind(v, 0),
                Arg::Bind(Buf::Layer(LayerBuffer::Keys), 0),
                Arg::Bind(Buf::Layer(LayerBuffer::Values), 0),
                Arg::KvQ(kq),
            ),
            div_ceil(n * (2 * (row / 32)), 4),
            128,
        ),
    );
}

// ---- decode rows ----
/// Whether a row that sees `len` tokens attends to picked blocks only.
pub open spec fn selective(m: Model, len: int) -> bool {
    len / (m.cfg.indexer_compress_ratio as int) > budget_blocks(m)
}

/// The tokens that a row attends to: its causal prefix, or the picked blocks and the
/// tokens behind the last complete block.
pub open spec fn visible(m: Model, len: int) -> int {
    let ratio = m.cfg.indexer_compress_ratio as int;
    if selective(m, len) {
        budget_blocks(m) * ratio + (len - (len / ratio) * ratio)
    } else {
        len
    }
}

/// The groups that split a row's attention: about three tiles of 32 tokens each.
pub open spec fn splits(m: Model, len: int) -> int {
    let n = runner::ceil_div(runner::ceil_div(visible(m, len) as nat, 32), 3) as int;
    if n < 1 {
        1
    } else if n > m.attn_max_wg {
        m.attn_max_wg as int
    } else {
        n
    }
}

pub open spec fn part_params(m: Model, base: int, b: int) -> AttnPartParams {
    let c = m.cfg;
    let most = runner::ceil_div(m.max_t as nat, m.attn_tb as nat);
    AttnPartParams {
        n_heads: c.num_attention_heads as u32,
        n_kv: c.num_key_value_heads as u32,
        head_dim: c.head_dim as u32,
        t_len: visible(m, base + b + 1) as u32,
        q_stride: (2 * c.head_dim) as u32,
        q_off: (b * (2 * (c.num_attention_heads * c.head_dim))) as u32,
        max_blk: (if most < m.attn_max_wg {
            m.attn_max_wg as nat
        } else {
            most
        }) as u32,
        scale: m.figures.scale,
    }
}

/// The attention of row `b`: partial results per split, then their combination.
pub open spec fn row_commands(m: Model, base: int, b: int) -> Seq<Command> {
    let c = m.cfg;
    let len = base + b + 1;
    let n_wg = splits(m, len);
    let ap = part_params(m, base, b);
    let stride = c.indexer_budget + c.indexer_compress_ratio;
    let dense = args7(
        Arg::Bind(Buf::Row(RowBuffer::Qg), 0),
        Arg::Bind(Buf::Layer(LayerBuffer::Keys), 0),
        Arg::Bind(Buf::Layer(LayerBuffer::Values), 0),
        Arg::Bind(Buf::Row(RowBuffer::AttnParts), 0),
        Arg::AttnPart(ap),
        Arg::Word(n_wg as u32),
        Arg::Word(m.figures.scale_off as u32),
    );
    let args = if selective(m, len) {
        Args { a7: Arg::Bind(Buf::Row(RowBuffer::Vis), (b * (4 * stride)) as usize), ..dense }
    } else {
        dense
    };
    seq![
        groups(
            if selective(m, len) {
                Pipe::AttnSel
            } else {
                Pipe::AttnPart2Q8
            },
            args,
            (c.num_key_value_heads * n_wg) as usize,
            (32 * allocation::heads_per_kv(c)) as usize,
        ),
        groups(
            Pipe::AttnCombine,
            args6(
                Arg::Bind(Buf::Row(RowBuffer::Qg), 0),
                Arg::Bind(Buf::Row(RowBuffer::AttnParts), 0),
                Arg::Bind(Buf::Row(RowBuffer::AttnOut), 0),
                Arg::AttnPart(ap),
                Arg::Word(n_wg as u32),
                Arg::Word((b * (c.num_attention_heads * c.head_dim)) as u32),
            ),
            c.num_attention_heads,
            256,
        ),
    ]
}

/// The attention of the first `n` rows, one after the other.
pub open spec fn rows_commands(m: Model, base: int, n: int) -> Seq<Command>
    decreases n,
{
    if n <= 0 {
        Seq::empty()
    } else {
        rows_commands(m, base, n - 1) + row_commands(m, base, n - 1)
    }
}

/// A product of prepared rows with a matrix.
pub open spec fn product(weights: Q, y: RowBuffer, rows: int, x: Prepared) -> Command {
    Command::QmvH { weights, y: Buf::Row(y), rows: rows as usize, input: x }
}

pub open spec fn decode_bufs() -> IndexBufs {
    IndexBufs {
        iqk: Buf::Row(RowBuffer::Iqk),
        iq: Buf::Row(RowBuffer::Iq),
        bscore: Buf::Row(RowBuffer::Bscore),
        vis: Buf::Row(RowBuffer::Vis),
        nvis: Buf::Row(RowBuffer::Nvis),
        vmask: Buf::Row(RowBuffer::Vmask),
    }
}

/// Full attention over `n` rows from position `base`.
#[verifier::opaque]
pub open spec fn attention_commands(m: Model, a: Attn, base: int, n: int) -> Seq<Command> {
    let input = Prepared::Input(Stream::Block);
    let width = m.cfg.num_attention_heads * m.cfg.head_dim;
    seq![
        product(a.q, RowBuffer::Qg, n, input),
        product(a.k, RowBuffer::K, n, input),
        product(a.v, RowBuffer::V, n, input),
        product(a.iqk, RowBuffer::Iqk, n, input),
    ] + index_commands(m, a, decode_bufs(), base, n) + rope_commands(
        m,
        a,
        Buf::Row(RowBuffer::Qg),
        Buf::Row(RowBuffer::K),
        base,
        n,
    ) + seq![append_command(m, Buf::Row(RowBuffer::K), Buf::Row(RowBuffer::V), base, n)] + rows_commands(m, base, n)
        + seq![
        Command::PrepH {
            x: Buf::Row(RowBuffer::AttnOut),
            offset: 0,
            width: width as u32,
            rows: n as usize,
            prepared: input,
        },
        product(a.o, RowBuffer::MixOut, n, input),
    ]
}

/// A row attends to no more tokens than it has before it, and a row past the budget to no
/// more than its list of visible tokens holds.
pub proof fn law_visible_bounded(m: Model, len: int)
    requires
        m.cfg.indexer_compress_ratio > 0,
        len >= 0,
    ensures
        0 <= visible(m, len) <= len,
        selective(m, len) ==> visible(m, len) < m.cfg.indexer_budget + m.cfg.indexer_compress_ratio,
{
    let ratio = m.cfg.indexer_compress_ratio as int;
    let budget = m.cfg.indexer_budget as int;
    let kblk = budget / ratio;
    let blocks = len / ratio;
    vstd::arithmetic::div_mod::lemma_fundamental_div_mod(len, ratio);
    vstd::arithmetic::div_mod::lemma_fundamental_div_mod(budget, ratio);
    assert(blocks * ratio == ratio * blocks) by (nonlinear_arith);
    assert(kblk * ratio == ratio * kblk) by (nonlinear_arith);
    vstd::arithmetic::div_mod::lemma_mod_bound(len, ratio);
    vstd::arithmetic::div_mod::lemma_mod_bound(budget, ratio);
    assert(kblk >= 0) by {
        vstd::arithmetic::div_mod::lemma_div_pos_is_pos(budget, ratio);
    }
    assert(kblk * ratio >= 0) by (nonlinear_arith)
        requires
            kblk >= 0,
            ratio > 0,
    ;
    if selective(m, len) {
        assert(kblk * ratio <= blocks * ratio) by (nonlinear_arith)
            requires
                kblk < blocks,
                ratio > 0,
        ;
    }
}

fn row_stage(out: &mut Vec<Command>, m: &Model, base: usize, b: usize, n: usize)
    requires
        m.plans(n as nat),
        b < n,
        base + n <= m.max_t,
    ensures
        final(out)@ == old(out)@ + row_commands(*m, base as int, b as int),
{
    let ghost start = out@;
    let c = &m.cfg;
    proof {
        lemma_head_products(*m, n as nat);
        let (x, y) = (b as int, n as int);
        let q = 2 * (c.num_attention_heads * c.head_dim);
        let h = c.num_attention_heads * c.head_dim;
        let s = 4 * (c.indexer_budget + c.indexer_compress_ratio);
        assert(0 <= x * q <= y * q && 0 <= x * h <= y * h && 0 <= x * s <= y * s) by (nonlinear_arith)
            requires
                0 <= x <= y,
                q >= 0,
                h >= 0,
                s >= 0,
        ;
        model::lemma_rows_fit(*m, n as nat, 1, ScratchBuffer::Vis);
        allocation::lemma_padded_rows(n as nat);
        law_visible_bounded(*m, base + b + 1);
        let (heads, kv) = (c.num_attention_heads as int, c.num_key_value_heads as int);
        assert(0 <= heads / kv <= heads) by (nonlinear_arith)
            requires
                kv > 0,
                heads >= 0,
        ;
    }
    let ratio: usize = c.indexer_compress_ratio;
    let kblk: usize = c.indexer_budget / ratio;
    let stride: usize = c.indexer_budget + ratio;
    let t_len: usize = base + b + 1;
    let blocks: usize = t_len / ratio;
    let selected: bool = blocks > kblk;
    proof {
        let (t, r) = (t_len as int, ratio as int);
        vstd::arithmetic::div_mod::lemma_fundamental_div_mod(t, r);
        assert((t / r) * r == r * (t / r)) by (nonlinear_arith);
        assert(0 <= (t / r) * r <= t);
        let (w, k) = (c.indexer_budget as int, kblk as int);
        vstd::arithmetic::div_mod::lemma_fundamental_div_mod(w, r);
        assert(k * r == r * k) by (nonlinear_arith);
        vstd::arithmetic::div_mod::lemma_mod_bound(w, r);
        vstd::arithmetic::div_mod::lemma_mod_bound(t, r);
        assert(0 <= k * r) by (nonlinear_arith)
            requires
                k >= 0,
                r > 0,
        ;
    }
    let n_vis: usize = if selected {
        kblk * ratio + (t_len - blocks * ratio)
    } else {
        t_len
    };
    assert(n_vis == visible(*m, t_len as int));
    let wanted: usize = div_ceil(div_ceil(n_vis, 32), 3);
    let n_wg: usize = if wanted < 1 {
        1
    } else if wanted > m.attn_max_wg {
        m.attn_max_wg
    } else {
        wanted
    };
    assert(n_wg == splits(*m, t_len as int));
    assert(c.num_key_value_heads * n_wg <= c.num_key_value_heads * m.attn_max_wg) by (nonlinear_arith)
        requires
            n_wg <= m.attn_max_wg,
    ;
    let most: usize = div_ceil(m.max_t, m.attn_tb);
    let ap = AttnPartParams {
        n_heads: c.num_attention_heads as u32,
        n_kv: c.num_key_value_heads as u32,
        head_dim: c.head_dim as u32,
        t_len: n_vis as u32,
        q_stride: 2 * c.head_dim as u32,
        q_off: (b * (2 * (c.num_attention_heads * c.head_dim))) as u32,
        max_blk: (if most < m.attn_max_wg { m.attn_max_wg } else { most }) as u32,
        scale: m.figures.scale,
    };
    assert(ap == part_params(*m, base as int, b as int));
    let dense = args7(
        Arg::Bind(Buf::Row(RowBuffer::Qg), 0),
        Arg::Bind(Buf::Layer(LayerBuffer::Keys), 0),
        Arg::Bind(Buf::Layer(LayerBuffer::Values), 0),
        Arg::Bind(Buf::Row(RowBuffer::AttnParts), 0),
        Arg::AttnPart(ap),
        Arg::Word(n_wg as u32),
        Arg::Word(m.figures.scale_off as u32),
    );
    let args = if selected {
        Args { a7: Arg::Bind(Buf::Row(RowBuffer::Vis), b * (4 * stride)), ..dense }
    } else {
        dense
    };
    out.push(
        groups(
            if selected { Pipe::AttnSel } else { Pipe::AttnPart2Q8 },
            args,
            c.num_key_value_heads * n_wg,
            32 * (c.num_attention_heads / c.num_key_value_heads),
        ),
    );
    out.push(
        groups(
            Pipe::AttnCombine,
            args6(
                Arg::Bind(Buf::Row(RowBuffer::Qg), 0),
                Arg::Bind(Buf::Row(RowBuffer::AttnParts), 0),
                Arg::Bind(Buf::Row(RowBuffer::AttnOut), 0),
                Arg::AttnPart(ap),
                Arg::Word(n_wg as u32),
                Arg::Word((b * (c.num_attention_heads * c.head_dim)) as u32),
            ),
            c.num_attention_heads,
            256,
        ),
    );
    assert(out@ =~= start + row_commands(*m, base as int, b as int));
}

/// Full attention over `nb` rows from position `base_pos`: dense while a row's context fits
/// the indexer budget, otherwise over the blocks picked for that row. The input is
/// prepared; the output is the mixer's.
pub fn attention_b(out: &mut Vec<Command>, m: &Model, a: &Attn, base_pos: usize, nb: usize)
    requires
        m.plans(nb as nat),
        base_pos + nb <= m.max_t,
    ensures
        final(out)@ == old(out)@ + attention_commands(*m, *a, base_pos as int, nb as int),
{
    reveal(attention_commands);
    let ghost start = out@;
    let input: Prepared = Prepared::Input(Stream::Block);
    proof {
        lemma_head_products(*m, nb as nat);
    }
    out.push(Command::QmvH { weights: a.q, y: Buf::Row(RowBuffer::Qg), rows: nb, input: input });
    out.push(Command::QmvH { weights: a.k, y: Buf::Row(RowBuffer::K), rows: nb, input: input });
    out.push(Command::QmvH { weights: a.v, y: Buf::Row(RowBuffer::V), rows: nb, input: input });
    out.push(Command::QmvH { weights: a.iqk, y: Buf::Row(RowBuffer::Iqk), rows: nb, input: input });
    let bufs = IndexBufs {
        iqk: Buf::Row(RowBuffer::Iqk),
        iq: Buf::Row(RowBuffer::Iq),
        bscore: Buf::Row(RowBuffer::Bscore),
        vis: Buf::Row(RowBuffer::Vis),
        nvis: Buf::Row(RowBuffer::Nvis),
        vmask: Buf::Row(RowBuffer::Vmask),
    };
    index_stage(out, m, a, &bufs, base_pos, nb);
    rope_stage(out, m, a, Buf::Row(RowBuffer::Qg), Buf::Row(RowBuffer::K), base_pos, nb);
    append_stage(out, m, Buf::Row(RowBuffer::K), Buf::Row(RowBuffer::V), base_pos, nb);
    let ghost before_rows = out@;
    let mut b: usize = 0;
    assert(before_rows + Seq::<Command>::empty() =~= before_rows);
    while b < nb
        invariant
            b <= nb,
            m.plans(nb as nat),
            base_pos + nb <= m.max_t,
            out@ == before_rows + rows_commands(*m, base_pos as int, b as int),
        decreases nb - b,
    {
        row_stage(out, m, base_pos, b, nb);
        assert(out@ =~= before_rows + rows_commands(*m, base_pos as int, b + 1));
        b = b + 1;
    }
    let c = &m.cfg;
    out.push(
        Command::PrepH {
            x: Buf::Row(RowBuffer::AttnOut),
            offset: 0,
            width: (c.num_attention_heads * c.head_dim) as u32,
            rows: nb,
            prepared: input,
        },
    );
    out.push(Command::QmvH { weights: a.o, y: Buf::Row(RowBuffer::MixOut), rows: nb, input: input });
    assert(out@ =~= start + attention_commands(*m, *a, base_pos as int, nb as int));
}

} // verus!
