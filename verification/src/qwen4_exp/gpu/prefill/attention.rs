//! Masks and matrix-form attention over query sub-chunks.

use crate::qwen4_exp::gpu::attention;
use crate::qwen4_exp::gpu::attention::{append_stage, index_stage, rope_stage, IndexBufs};
use crate::qwen4_exp::gpu::launch::{
    args4, args5, groups, threads, Arg, AttnGemmParams, Buf, Command, GemmHParams, LayerBuffer, Pipe, SelMaskParams,
};
use crate::qwen4_exp::gpu::model;
use crate::qwen4_exp::gpu::model::{Attn, Model};
use crate::qwen4_exp::gpu::prefill::allocation;
use crate::qwen4_exp::gpu::prefill::allocation::{ScratchBuffer, QS};
use crate::runner;
use crate::runner::div_ceil;
use vstd::prelude::*;

verus! {

/// Keys up to `kl` rounded up to whole tiles.
pub open spec fn padded(kl: int) -> int {
    runner::ceil_div(kl as nat, 32) as int * 32
}

/// The parameters of one key head over the queries `[q0, q0 + n)`.
pub open spec fn gemm_params(m: Model, base: int, q0: int, n: int, head: int) -> AttnGemmParams {
    let c = m.cfg;
    let row = c.num_key_value_heads * c.head_dim;
    AttnGemmParams {
        kv_row: row as u32,
        blocks_per_row: (row / 32) as u32,
        head: head as u32,
        kl: (base + q0 + n) as u32,
        kl_pad: padded(base + q0 + n) as u32,
        scale_off: m.figures.scale_off as u32,
        base: (base + q0) as u32,
        nb: n as u32,
        n_rep: allocation::heads_per_kv(c) as u32,
        scale: m.figures.scale,
    }
}

pub open spec fn mask_params(m: Model, q0: int) -> SelMaskParams {
    SelMaskParams {
        row0: q0 as u32,
        mask_words: runner::ceil_div(allocation::max_blocks(m.cfg, m.max_t), 32) as u32,
        ratio: m.cfg.indexer_compress_ratio as u32,
        k: attention::budget_blocks(m) as u32,
    }
}

/// Bytes of a sub-chunk's first query in the projected rows.
pub open spec fn query_offset(m: Model, q0: int) -> int {
    q0 * (8 * (m.cfg.num_attention_heads * m.cfg.head_dim))
}

/// Half-precision words of one key head's queries.
pub open spec fn head_words(m: Model, n: int) -> int {
    allocation::heads_per_kv(m.cfg) * (n * m.cfg.head_dim)
}

pub open spec fn scratch_buf(b: ScratchBuffer) -> Buf {
    Buf::Scratch(b)
}

/// One key head of a sub-chunk: its keys and values are staged, scores are computed and
/// masked into probabilities, and the outputs are scattered through the gates.
pub open spec fn head_commands(m: Model, base: int, q0: int, n: int, head: int) -> Seq<Command> {
    let c = m.cfg;
    let hd = c.head_dim as int;
    let kl_pad = padded(base + q0 + n);
    let rows = allocation::heads_per_kv(c) * n;
    let ph = gemm_params(m, base, q0, n, head);
    seq![
        threads(
            Pipe::AttnKvStage,
            args5(
                Arg::Bind(Buf::Layer(LayerBuffer::Keys), 0),
                Arg::Bind(Buf::Layer(LayerBuffer::Values), 0),
                Arg::Bind(scratch_buf(ScratchBuffer::AgKh), 0),
                Arg::Bind(scratch_buf(ScratchBuffer::AgVt), 0),
                Arg::AttnGemm(ph),
            ),
            (kl_pad * hd) as usize,
            256,
        ),
        groups(
            Pipe::GemmHh,
            args4(
                Arg::Bind(scratch_buf(ScratchBuffer::AgQh), (head * (2 * head_words(m, n))) as usize),
                Arg::Bind(scratch_buf(ScratchBuffer::AgKh), 0),
                Arg::Bind(scratch_buf(ScratchBuffer::AgS), 0),
                Arg::GemmH(
                    GemmHParams {
                        m: rows as u32,
                        n: kl_pad as u32,
                        k: hd as u32,
                        lda: hd as u32,
                        ldb: hd as u32,
                        ldc: kl_pad as u32,
                    },
                ),
            ),
            (runner::ceil_div(rows as nat, 128) * (kl_pad / 32)) as usize,
            128,
        ),
        groups(
            Pipe::SoftmaxSel,
            args5(
                Arg::Bind(scratch_buf(ScratchBuffer::AgS), 0),
                Arg::Bind(scratch_buf(ScratchBuffer::AgP), 0),
                Arg::AttnGemm(ph),
                Arg::Bind(scratch_buf(ScratchBuffer::Vmask), 0),
                Arg::SelMask(mask_params(m, q0)),
            ),
            rows as usize,
            256,
        ),
        groups(
            Pipe::GemmHh,
            args4(
                Arg::Bind(scratch_buf(ScratchBuffer::AgP), 0),
                Arg::Bind(scratch_buf(ScratchBuffer::AgVt), 0),
                Arg::Bind(scratch_buf(ScratchBuffer::AgO), 0),
                Arg::GemmH(
                    GemmHParams {
                        m: rows as u32,
                        n: hd as u32,
                        k: kl_pad as u32,
                        lda: kl_pad as u32,
                        ldb: kl_pad as u32,
                        ldc: hd as u32,
                    },
                ),
            ),
            (runner::ceil_div(rows as nat, 128) * (hd / 32)) as usize,
            128,
        ),
        threads(
            Pipe::AttnOScatter,
            args5(
                Arg::Bind(scratch_buf(ScratchBuffer::AgO), 0),
                Arg::Bind(scratch_buf(ScratchBuffer::Qg), query_offset(m, q0) as usize),
                Arg::Bind(
                    scratch_buf(ScratchBuffer::AttnOut),
                    (q0 * (4 * (c.num_attention_heads * c.head_dim))) as usize,
                ),
                Arg::AttnGemm(ph),
                Arg::Word(c.num_attention_heads as u32),
            ),
            head_words(m, n) as usize,
            256,
        ),
    ]
}

/// The first `heads` key heads of a sub-chunk.
pub open spec fn heads_commands(m: Model, base: int, q0: int, n: int, heads: int) -> Seq<Command>
    decreases heads,
{
    if heads <= 0 {
        Seq::empty()
    } else {
        heads_commands(m, base, q0, n, heads - 1) + head_commands(m, base, q0, n, heads - 1)
    }
}

/// The sub-chunk of queries `[q0, q0 + n)`.
pub open spec fn sub_chunk_commands(m: Model, base: int, q0: int, n: int) -> Seq<Command> {
    let c = m.cfg;
    seq![
        threads(
            Pipe::AttnQStage,
            args4(
                Arg::Bind(scratch_buf(ScratchBuffer::Qg), query_offset(m, q0) as usize),
                Arg::Bind(scratch_buf(ScratchBuffer::AgQh), 0),
                Arg::AttnGemm(gemm_params(m, base, q0, n, 0)),
                Arg::Word(c.num_attention_heads as u32),
            ),
            (n * (c.num_attention_heads * c.head_dim)) as usize,
            256,
        ),
    ] + heads_commands(m, base, q0, n, c.num_key_value_heads as int)
}

/// The sub-chunks from query `q0` to the last of `t`.
pub open spec fn sub_chunks(m: Model, base: int, q0: int, t: int) -> Seq<Command>
    decreases t - q0,
{
    if q0 >= t {
        Seq::empty()
    } else {
        let end = runner::chunk_end(t, q0, QS as int);
        sub_chunk_commands(m, base, q0, end - q0) + sub_chunks(m, base, end, t)
    }
}

pub open spec fn prefill_bufs() -> IndexBufs {
    IndexBufs {
        iqk: Buf::Scratch(ScratchBuffer::Iqk),
        iq: Buf::Scratch(ScratchBuffer::Iq),
        bscore: Buf::Scratch(ScratchBuffer::Bscore),
        vis: Buf::Scratch(ScratchBuffer::Vis),
        nvis: Buf::Scratch(ScratchBuffer::Nvis),
        vmask: Buf::Scratch(ScratchBuffer::Vmask),
    }
}

/// A product of scratch rows with a matrix.
pub open spec fn product(weights: crate::qwen4_exp::gpu::launch::Q, x: ScratchBuffer, y: ScratchBuffer, rows: int) -> Command {
    Command::Qmm { weights, x: Buf::Scratch(x), y: Buf::Scratch(y), rows: rows as usize }
}

/// Full attention over `t` rows from position `base`.
#[verifier::opaque]
pub open spec fn pf_attention_commands(m: Model, a: Attn, base: int, t: int) -> Seq<Command> {
    let qg = Buf::Scratch(ScratchBuffer::Qg);
    let k = Buf::Scratch(ScratchBuffer::K);
    let v = Buf::Scratch(ScratchBuffer::V);
    seq![
        product(a.q, ScratchBuffer::Mixed, ScratchBuffer::Qg, t),
        product(a.k, ScratchBuffer::Mixed, ScratchBuffer::K, t),
        product(a.v, ScratchBuffer::Mixed, ScratchBuffer::V, t),
        product(a.iqk, ScratchBuffer::Mixed, ScratchBuffer::Iqk, t),
    ] + attention::rope_commands(m, a, qg, k, base, t) + attention::index_commands(m, a, prefill_bufs(), base, t) + seq![
        attention::append_command(m, k, v, base, t),
    ] + sub_chunks(m, base, 0, t) + seq![product(a.o, ScratchBuffer::AttnOut, ScratchBuffer::MixOut, t)]
}

/// The products of a sub-chunk stay within the scratch.
proof fn lemma_sub_chunk(m: Model, t: nat, base: int, q0: int, n: int, head: int)
    requires
        m.plans(t),
        0 <= base,
        base + t <= m.max_t,
        0 <= q0,
        0 < n <= QS,
        q0 + n <= t,
        0 <= head < m.cfg.num_key_value_heads,
    ensures
        ({
            let c = m.cfg;
            let hd = c.head_dim as int;
            let kl_pad = padded(base + q0 + n);
            let n_rep = allocation::heads_per_kv(c) as int;
            let words = head_words(m, n);
            &&& 0 <= query_offset(m, q0)
            &&& query_offset(m, q0) + query_offset(m, n) <= allocation::buffer_bytes(c, m.max_t, t, ScratchBuffer::Qg)
            &&& query_offset(m, q0) <= usize::MAX
            &&& 0 <= q0 * (4 * (c.num_attention_heads * c.head_dim)) <= usize::MAX
            &&& 0 <= n * (c.num_attention_heads * c.head_dim) <= usize::MAX
            &&& base + q0 + n <= kl_pad < base + q0 + n + 32
            &&& kl_pad <= allocation::padded_keys(m.max_t)
            &&& 0 <= kl_pad * hd
            &&& 2 * (kl_pad * hd) <= allocation::buffer_bytes(c, m.max_t, t, ScratchBuffer::AgKh)
            &&& kl_pad * hd <= usize::MAX
            &&& 0 <= n_rep * n <= usize::MAX
            &&& 4 * (n_rep * n * kl_pad) <= allocation::buffer_bytes(c, m.max_t, t, ScratchBuffer::AgS)
            &&& 2 * (n_rep * n * kl_pad) <= allocation::buffer_bytes(c, m.max_t, t, ScratchBuffer::AgP)
            &&& 4 * words <= allocation::buffer_bytes(c, m.max_t, t, ScratchBuffer::AgO)
            &&& 0 <= n * hd <= words <= usize::MAX
            &&& 0 <= 2 * words <= usize::MAX
            &&& 0 <= head * (2 * words)
            &&& head * (2 * words) + 2 * words <= allocation::buffer_bytes(c, m.max_t, t, ScratchBuffer::AgQh)
            &&& head * (2 * words) <= usize::MAX
            &&& runner::ceil_div((n_rep * n) as nat, 128) * (kl_pad / 32) <= usize::MAX
            &&& runner::ceil_div((n_rep * n) as nat, 128) * (hd / 32) <= usize::MAX
        }),
{
    let c = m.cfg;
    let max = usize::MAX as int;
    let hd = c.head_dim as int;
    let heads = c.num_attention_heads as int;
    let kv = c.num_key_value_heads as int;
    let n_rep = allocation::heads_per_kv(c) as int;
    let kl_pad = padded(base + q0 + n);
    let keys = allocation::padded_keys(m.max_t) as int;
    let words = head_words(m, n);
    let q = heads * hd;
    let qs = QS as int;
    allocation::lemma_padded_rows(t);
    assert(allocation::paged(allocation::buffer_bytes(c, m.max_t, t, ScratchBuffer::AgQh)) <= max);
    assert(allocation::paged(allocation::buffer_bytes(c, m.max_t, t, ScratchBuffer::AgKh)) <= max);
    assert(allocation::paged(allocation::buffer_bytes(c, m.max_t, t, ScratchBuffer::AgS)) <= max);
    assert(allocation::paged(allocation::buffer_bytes(c, m.max_t, t, ScratchBuffer::AgP)) <= max);
    assert(allocation::paged(allocation::buffer_bytes(c, m.max_t, t, ScratchBuffer::AgO)) <= max);
    allocation::lemma_paged(allocation::buffer_bytes(c, m.max_t, t, ScratchBuffer::AgQh));
    allocation::lemma_paged(allocation::buffer_bytes(c, m.max_t, t, ScratchBuffer::AgKh));
    allocation::lemma_paged(allocation::buffer_bytes(c, m.max_t, t, ScratchBuffer::AgS));
    allocation::lemma_paged(allocation::buffer_bytes(c, m.max_t, t, ScratchBuffer::AgP));
    allocation::lemma_paged(allocation::buffer_bytes(c, m.max_t, t, ScratchBuffer::AgO));
    model::lemma_rows_fit(m, t, (q0 + n) as nat, ScratchBuffer::Qg);
    attention::lemma_head_products(m, t);
    assert(q0 * (8 * q) + n * (8 * q) == (q0 + n) * (8 * q)) by (nonlinear_arith);
    assert(0 <= q0 * (8 * q) && 0 <= n * (8 * q) && 0 <= q0 * (4 * q) <= q0 * (8 * q) && 0 <= n * q <= n * (8 * q))
        by (nonlinear_arith)
        requires
            q0 >= 0,
            n >= 0,
            q >= 0,
    ;
    assert(q >= 0) by (nonlinear_arith)
        requires
            q == heads * hd,
            heads >= 0,
            hd >= 0,
    ;
    assert(kl_pad <= keys);
    assert(0 <= kl_pad * hd <= keys * hd) by (nonlinear_arith)
        requires
            0 <= kl_pad <= keys,
            hd >= 0,
    ;
    assert(n_rep * kv <= heads && n_rep >= 0) by (nonlinear_arith)
        requires
            n_rep == heads / kv,
            kv > 0,
            heads >= 0,
    ;
    assert(n_rep >= 1) by (nonlinear_arith)
        requires
            n_rep == heads / kv,
            kv > 0,
            heads >= kv,
    ;
    assert(0 <= n_rep * n * kl_pad <= n_rep * qs * keys) by (nonlinear_arith)
        requires
            0 <= n <= qs,
            0 <= kl_pad <= keys,
            n_rep >= 0,
    ;
    assert(4 * (n_rep * qs * keys) == (4 * qs) * (n_rep * keys)) by (nonlinear_arith);
    assert(2 * (n_rep * qs * keys) == (2 * qs) * (n_rep * keys)) by (nonlinear_arith);
    assert(2 * (qs * q) == (2 * qs) * q) by (nonlinear_arith);
    assert(allocation::buffer_bytes(c, m.max_t, t, ScratchBuffer::AgS) == (4 * qs) * (n_rep * keys));
    assert(allocation::buffer_bytes(c, m.max_t, t, ScratchBuffer::AgQh) == (2 * qs) * q);
    let nh = n * hd;
    assert(0 <= nh <= qs * hd) by (nonlinear_arith)
        requires
            nh == n * hd,
            0 <= n <= qs,
            hd >= 0,
    ;
    assert(nh <= words && words <= qs * (n_rep * hd)) by (nonlinear_arith)
        requires
            words == n_rep * nh,
            0 <= nh <= qs * hd,
            n_rep >= 1,
    ;
    assert((4 * qs) * (n_rep * hd) == 4 * (qs * (n_rep * hd)));
    assert(head * (2 * words) + 2 * words <= 2 * (qs * q) && 0 <= head * (2 * words)) by {
        assert(head * (2 * words) + 2 * words == 2 * ((head + 1) * words)) by (nonlinear_arith);
        assert((head + 1) * words <= kv * words) by (nonlinear_arith)
            requires
                head + 1 <= kv,
                words >= 0,
        ;
        assert(kv * words == (n_rep * kv) * nh) by (nonlinear_arith)
            requires
                words == n_rep * nh,
        ;
        assert((n_rep * kv) * nh <= heads * (qs * hd)) by (nonlinear_arith)
            requires
                0 <= n_rep * kv <= heads,
                0 <= nh <= qs * hd,
        ;
        assert(heads * (qs * hd) == qs * q) by (nonlinear_arith)
            requires
                q == heads * hd,
        ;
        assert(0 <= head * (2 * words)) by (nonlinear_arith)
            requires
                head >= 0,
                words >= 0,
        ;
    }
    let rows = n_rep * n;
    assert(0 <= rows <= words) by (nonlinear_arith)
        requires
            rows == n_rep * n,
            words == n_rep * (n * hd),
            hd >= 1,
            n_rep >= 0,
            n >= 0,
    ;
    let tiles = runner::ceil_div(rows as nat, 128) as int;
    assert(tiles <= rows);
    assert(tiles * (kl_pad / 32) <= rows * kl_pad) by (nonlinear_arith)
        requires
            0 <= tiles <= rows,
            0 <= kl_pad / 32 <= kl_pad,
    ;
    assert(rows * kl_pad == n_rep * n * kl_pad);
    assert(tiles * (hd / 32) <= rows * hd) by (nonlinear_arith)
        requires
            0 <= tiles <= rows,
            0 <= hd / 32 <= hd,
    ;
    assert(rows * hd == words) by (nonlinear_arith)
        requires
            rows == n_rep * n,
            words == n_rep * (n * hd),
    ;
}

/// A sub-chunk's queries, staged keys, scores, probabilities and outputs lie within their
/// buffers, and its keys within the context.
pub proof fn law_sub_chunk_within_scratch(m: Model, t: nat, base: int, q0: int, n: int, head: int)
    requires
        m.plans(t),
        0 <= base,
        base + t <= m.max_t,
        0 <= q0,
        0 < n <= QS,
        q0 + n <= t,
        0 <= head < m.cfg.num_key_value_heads,
    ensures
        ({
            let c = m.cfg;
            let kl_pad = padded(base + q0 + n);
            let rows = allocation::heads_per_kv(c) as int * n;
            let words = head_words(m, n);
            &&& query_offset(m, q0) + query_offset(m, n) <= allocation::buffer_bytes(c, m.max_t, t, ScratchBuffer::Qg)
            &&& head * (2 * words) + 2 * words <= allocation::buffer_bytes(c, m.max_t, t, ScratchBuffer::AgQh)
            &&& 2 * (kl_pad * c.head_dim) <= allocation::buffer_bytes(c, m.max_t, t, ScratchBuffer::AgKh)
            &&& 4 * (rows * kl_pad) <= allocation::buffer_bytes(c, m.max_t, t, ScratchBuffer::AgS)
            &&& 2 * (rows * kl_pad) <= allocation::buffer_bytes(c, m.max_t, t, ScratchBuffer::AgP)
            &&& 4 * words <= allocation::buffer_bytes(c, m.max_t, t, ScratchBuffer::AgO)
            &&& base + q0 + n <= m.max_t
        }),
{
    lemma_sub_chunk(m, t, base, q0, n, head);
}

fn head_stage(out: &mut Vec<Command>, m: &Model, base: usize, t: usize, q0: usize, n: usize, head: usize)
    requires
        m.plans(t as nat),
        base + t <= m.max_t,
        0 < n <= QS,
        q0 + n <= t,
        head < m.cfg.num_key_value_heads,
    ensures
        final(out)@ == old(out)@ + head_commands(*m, base as int, q0 as int, n as int, head as int),
{
    let ghost start = out@;
    let c = &m.cfg;
    proof {
        lemma_sub_chunk(*m, t as nat, base as int, q0 as int, n as int, head as int);
        attention::lemma_head_products(*m, t as nat);
        let (limit, ratio) = (m.max_t as int, c.indexer_compress_ratio as int);
        assert(0 <= limit / ratio <= limit) by (nonlinear_arith)
            requires
                ratio > 0,
                limit >= 0,
        ;
    }
    let hd: usize = c.head_dim;
    let n_rep: usize = c.num_attention_heads / c.num_key_value_heads;
    let kv_row: usize = c.num_key_value_heads * hd;
    let kl: usize = base + q0 + n;
    let kl_pad: usize = div_ceil(kl, 32) * 32;
    let rows: usize = n_rep * n;
    let words: usize = n_rep * (n * hd);
    let ph = AttnGemmParams {
        kv_row: kv_row as u32,
        blocks_per_row: (kv_row / 32) as u32,
        head: head as u32,
        kl: kl as u32,
        kl_pad: kl_pad as u32,
        scale_off: m.figures.scale_off as u32,
        base: (base + q0) as u32,
        nb: n as u32,
        n_rep: n_rep as u32,
        scale: m.figures.scale,
    };
    assert(ph == gemm_params(*m, base as int, q0 as int, n as int, head as int));
    let max_blocks: usize = m.max_t / c.indexer_compress_ratio + 1;
    let sm = SelMaskParams {
        row0: q0 as u32,
        mask_words: div_ceil(max_blocks, 32) as u32,
        ratio: c.indexer_compress_ratio as u32,
        k: (c.indexer_budget / c.indexer_compress_ratio) as u32,
    };
    assert(sm == mask_params(*m, q0 as int));
    out.push(
        threads(
            Pipe::AttnKvStage,
            args5(
                Arg::Bind(Buf::Layer(LayerBuffer::Keys), 0),
                Arg::Bind(Buf::Layer(LayerBuffer::Values), 0),
                Arg::Bind(Buf::Scratch(ScratchBuffer::AgKh), 0),
                Arg::Bind(Buf::Scratch(ScratchBuffer::AgVt), 0),
                Arg::AttnGemm(ph),
            ),
            kl_pad * hd,
            256,
        ),
    );
    let ps = GemmHParams {
        m: rows as u32,
        n: kl_pad as u32,
        k: hd as u32,
        lda: hd as u32,
        ldb: hd as u32,
        ldc: kl_pad as u32,
    };
    out.push(
        groups(
            Pipe::GemmHh,
            args4(
                Arg::Bind(Buf::Scratch(ScratchBuffer::AgQh), head * (2 * words)),
                Arg::Bind(Buf::Scratch(ScratchBuffer::AgKh), 0),
                Arg::Bind(Buf::Scratch(ScratchBuffer::AgS), 0),
                Arg::GemmH(ps),
            ),
            div_ceil(rows, 128) * (kl_pad / 32),
            128,
        ),
    );
    out.push(
        groups(
            Pipe::SoftmaxSel,
            args5(
                Arg::Bind(Buf::Scratch(ScratchBuffer::AgS), 0),
                Arg::Bind(Buf::Scratch(ScratchBuffer::AgP), 0),
                Arg::AttnGemm(ph),
                Arg::Bind(Buf::Scratch(ScratchBuffer::Vmask), 0),
                Arg::SelMask(sm),
            ),
            rows,
            256,
        ),
    );
    let po = GemmHParams {
        m: rows as u32,
        n: hd as u32,
        k: kl_pad as u32,
        lda: kl_pad as u32,
        ldb: kl_pad as u32,
        ldc: hd as u32,
    };
    out.push(
        groups(
            Pipe::GemmHh,
            args4(
                Arg::Bind(Buf::Scratch(ScratchBuffer::AgP), 0),
                Arg::Bind(Buf::Scratch(ScratchBuffer::AgVt), 0),
                Arg::Bind(Buf::Scratch(ScratchBuffer::AgO), 0),
                Arg::GemmH(po),
            ),
            div_ceil(rows, 128) * (hd / 32),
            128,
        ),
    );
    out.push(
        threads(
            Pipe::AttnOScatter,
            args5(
                Arg::Bind(Buf::Scratch(ScratchBuffer::AgO), 0),
                Arg::Bind(Buf::Scratch(ScratchBuffer::Qg), q0 * (8 * (c.num_attention_heads * c.head_dim))),
                Arg::Bind(Buf::Scratch(ScratchBuffer::AttnOut), q0 * (4 * (c.num_attention_heads * c.head_dim))),
                Arg::AttnGemm(ph),
                Arg::Word(c.num_attention_heads as u32),
            ),
            words,
            256,
        ),
    );
    assert(out@ =~= start + head_commands(*m, base as int, q0 as int, n as int, head as int));
}

fn sub_chunk_stage(out: &mut Vec<Command>, m: &Model, base: usize, t: usize, q0: usize, n: usize)
    requires
        m.plans(t as nat),
        base + t <= m.max_t,
        0 < n <= QS,
        q0 + n <= t,
    ensures
        final(out)@ == old(out)@ + sub_chunk_commands(*m, base as int, q0 as int, n as int),
{
    let ghost start = out@;
    let c = &m.cfg;
    proof {
        lemma_sub_chunk(*m, t as nat, base as int, q0 as int, n as int, 0);
        attention::lemma_head_products(*m, t as nat);
    }
    let kv_row: usize = c.num_key_value_heads * c.head_dim;
    let kl: usize = base + q0 + n;
    let p = AttnGemmParams {
        kv_row: kv_row as u32,
        blocks_per_row: (kv_row / 32) as u32,
        head: 0,
        kl: kl as u32,
        kl_pad: (div_ceil(kl, 32) * 32) as u32,
        scale_off: m.figures.scale_off as u32,
        base: (base + q0) as u32,
        nb: n as u32,
        n_rep: (c.num_attention_heads / c.num_key_value_heads) as u32,
        scale: m.figures.scale,
    };
    assert(p == gemm_params(*m, base as int, q0 as int, n as int, 0));
    out.push(
        threads(
            Pipe::AttnQStage,
            args4(
                Arg::Bind(Buf::Scratch(ScratchBuffer::Qg), q0 * (8 * (c.num_attention_heads * c.head_dim))),
                Arg::Bind(Buf::Scratch(ScratchBuffer::AgQh), 0),
                Arg::AttnGemm(p),
                Arg::Word(c.num_attention_heads as u32),
            ),
            n * (c.num_attention_heads * c.head_dim),
            256,
        ),
    );
    let ghost staged = out@;
    assert(staged + Seq::<Command>::empty() =~= staged);
    let mut head: usize = 0;
    while head < c.num_key_value_heads
        invariant
            head <= c.num_key_value_heads,
            c == &m.cfg,
            m.plans(t as nat),
            base + t <= m.max_t,
            0 < n <= QS,
            q0 + n <= t,
            out@ == staged + heads_commands(*m, base as int, q0 as int, n as int, head as int),
        decreases c.num_key_value_heads - head,
    {
        head_stage(out, m, base, t, q0, n, head);
        assert(out@ =~= staged + heads_commands(*m, base as int, q0 as int, n as int, head + 1));
        head = head + 1;
    }
    assert(out@ =~= start + sub_chunk_commands(*m, base as int, q0 as int, n as int));
}

/// Full attention over `t` rows from position `base`: matrix form in sub-chunks of queries,
/// with the picked blocks as a mask for rows past the budget. The block input is the
/// scratch's mixed rows; the output is the mixer's.
pub fn pf_attention(out: &mut Vec<Command>, m: &Model, a: &Attn, base: usize, t: usize)
    requires
        m.plans(t as nat),
        base + t <= m.max_t,
    ensures
        final(out)@ == old(out)@ + pf_attention_commands(*m, *a, base as int, t as int),
{
    reveal(pf_attention_commands);
    let ghost start = out@;
    let mixed: Buf = Buf::Scratch(ScratchBuffer::Mixed);
    let qg: Buf = Buf::Scratch(ScratchBuffer::Qg);
    let k: Buf = Buf::Scratch(ScratchBuffer::K);
    let v: Buf = Buf::Scratch(ScratchBuffer::V);
    out.push(Command::Qmm { weights: a.q, x: mixed, y: qg, rows: t });
    out.push(Command::Qmm { weights: a.k, x: mixed, y: k, rows: t });
    out.push(Command::Qmm { weights: a.v, x: mixed, y: v, rows: t });
    out.push(Command::Qmm { weights: a.iqk, x: mixed, y: Buf::Scratch(ScratchBuffer::Iqk), rows: t });
    rope_stage(out, m, a, qg, k, base, t);
    let bufs = IndexBufs {
        iqk: Buf::Scratch(ScratchBuffer::Iqk),
        iq: Buf::Scratch(ScratchBuffer::Iq),
        bscore: Buf::Scratch(ScratchBuffer::Bscore),
        vis: Buf::Scratch(ScratchBuffer::Vis),
        nvis: Buf::Scratch(ScratchBuffer::Nvis),
        vmask: Buf::Scratch(ScratchBuffer::Vmask),
    };
    index_stage(out, m, a, &bufs, base, t);
    append_stage(out, m, k, v, base, t);
    let ghost staged = out@;
    let mut q0: usize = 0;
    while q0 < t
        invariant
            q0 <= t,
            m.plans(t as nat),
            base + t <= m.max_t,
            out@ + sub_chunks(*m, base as int, q0 as int, t as int) == staged + sub_chunks(
                *m,
                base as int,
                0,
                t as int,
            ),
        decreases t - q0,
    {
        let left: usize = t - q0;
        let n: usize = if left <= QS { left } else { QS };
        let ghost before = out@;
        sub_chunk_stage(out, m, base, t, q0, n);
        proof {
            let chunk = sub_chunk_commands(*m, base as int, q0 as int, n as int);
            let rest = sub_chunks(*m, base as int, q0 + n, t as int);
            assert((before + chunk) + rest =~= before + (chunk + rest));
        }
        q0 = q0 + n;
    }
    assert(sub_chunks(*m, base as int, q0 as int, t as int) =~= Seq::empty());
    assert(out@ + Seq::<Command>::empty() =~= out@);
    out.push(
        Command::Qmm {
            weights: a.o,
            x: Buf::Scratch(ScratchBuffer::AttnOut),
            y: Buf::Scratch(ScratchBuffer::MixOut),
            rows: t,
        },
    );
    assert(out@ =~= start + pf_attention_commands(*m, *a, base as int, t as int));
}

} // verus!
