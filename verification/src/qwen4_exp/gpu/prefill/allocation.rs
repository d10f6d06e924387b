//! Prefill scratch allocation and chunk capacity.
//!
//! Sizing and allocation walk the same table of buffers, including padding and the
//! attention buffers that grow with context capacity.

use crate::metal::PAGE_SIZE;
use crate::qwen4_exp::config::Qwen4ExpConfig;
use crate::runner;
use crate::runner::div_ceil;
use vstd::prelude::*;

verus! {

/// Query rows per attention sub-chunk (bounds the score matrix).
pub const QS: usize = 256;

/// Rows that one chunk holds at most.
pub const MAX_PREFILL_ROWS: usize = 4096;

/// The buffers of the prefill scratch.
#[derive(Debug, Clone, Copy, PartialEq, Eq, Structural)]
pub enum ScratchBuffer {
    /// Token ids.
    Ids,
    /// Embedded rows.
    E,
    /// The replicated residual stream.
    Hyper,
    /// The normed stream.
    Normed,
    /// Bottleneck of the residual gates.
    D,
    /// Gates at the width of the stream.
    U,
    /// Block input.
    Mixed,
    /// Injection logits.
    Inj,
    /// Mixer output.
    MixOut,
    /// Expert output.
    MoeOut,
    /// Queries and gates.
    Qg,
    /// Keys.
    K,
    /// Values.
    V,
    /// Attention output.
    AttnOut,
    /// Indexer queries and keys.
    Iqk,
    /// Indexer queries.
    Iq,
    /// Block scores.
    Bscore,
    /// Visible tokens.
    Vis,
    /// Visible token counts.
    Nvis,
    /// Selected blocks as a bit mask.
    Vmask,
    /// Half-precision queries of a sub-chunk.
    AgQh,
    /// Half-precision keys of a head.
    AgKh,
    /// Half-precision transposed values of a head.
    AgVt,
    /// Scores of a sub-chunk.
    AgS,
    /// Probabilities of a sub-chunk.
    AgP,
    /// Outputs of a sub-chunk.
    AgO,
    /// Convolution channels.
    Qkv,
    /// Output gates.
    Z,
    /// Decay inputs.
    A,
    /// Update gates.
    B,
    /// Normed keys and queries.
    Kqn,
    /// Gate pairs.
    Gbuf,
    /// Scan output.
    DeltaY,
    /// Router logits.
    Router,
    /// Chosen experts.
    TopkIdx,
    /// Weights of the chosen experts.
    TopkW,
    /// Rows grouped by expert.
    CsrRows,
    /// Weights grouped by expert.
    CsrW,
    /// Gathered rows.
    Xg,
    /// Gate projections.
    Ge,
    /// Up projections.
    Ue,
    /// Activations.
    Hg,
    /// Down projections.
    Ye,
    /// The draft head's stream.
    MtpHyper,
    /// Folded embeddings.
    Fe,
    /// Folded streams.
    Fh,
    /// Logits of every row.
    LogitsAll,
}

/// Why a scratch cannot be sized.
#[derive(Debug, Clone, Copy, PartialEq, Eq, Structural)]
pub enum ScratchError {
    Overflow,
    Insufficient,
}

impl ScratchError {
    pub fn message(&self) -> (r: &'static str)
        ensures
            r@ == match *self {
                ScratchError::Overflow => "prefill scratch size overflow"@,
                ScratchError::Insufficient =>
                    "insufficient memory for prefill scratch; reduce expert pool or context capacity"@,
            },
    {
        match self {
            ScratchError::Overflow => "prefill scratch size overflow",
            ScratchError::Insufficient =>
                "insufficient memory for prefill scratch; reduce expert pool or context capacity",
        }
    }
}

/// Rows rounded up to whole tiles, with one tile to spare.
pub open spec fn padded_rows(rows: nat) -> nat {
    runner::ceil_div(rows, 32) * 32 + 32
}

/// Keys of the whole context rounded up to whole tiles.
pub open spec fn padded_keys(max_t: usize) -> nat {
    runner::ceil_div(max_t as nat, 32) * 32
}

/// Blocks of the indexer over the whole context.
pub open spec fn max_blocks(c: Qwen4ExpConfig, max_t: usize) -> nat {
    (max_t / c.indexer_compress_ratio + 1) as nat
}

/// Query heads per key head.
pub open spec fn heads_per_kv(c: Qwen4ExpConfig) -> nat {
    (c.num_attention_heads / c.num_key_value_heads) as nat
}

/// Channels of the recurrent layers' convolution.
pub open spec fn conv_dim(c: Qwen4ExpConfig) -> nat {
    (2 * (c.linear_num_key_heads * c.linear_key_head_dim) + c.linear_num_value_heads * c.linear_value_head_dim) as nat
}

/// Value channels of the recurrent layers.
pub open spec fn value_dim(c: Qwen4ExpConfig) -> nat {
    (c.linear_num_value_heads * c.linear_value_head_dim) as nat
}

/// Whether a buffer's size does not depend on the rows of the chunk.
pub open spec fn is_fixed(b: ScratchBuffer) -> bool {
    b == ScratchBuffer::AgQh || b == ScratchBuffer::AgKh || b == ScratchBuffer::AgVt || b == ScratchBuffer::AgS || b == ScratchBuffer::AgP || b == ScratchBuffer::AgO
}

/// The bytes that one row takes in a buffer.
pub open spec fn row_bytes(c: Qwen4ExpConfig, max_t: usize, b: ScratchBuffer) -> nat {
    match b {
        ScratchBuffer::Ids => (4) as nat,
        ScratchBuffer::E => (4 * c.hidden_size) as nat,
        ScratchBuffer::Hyper => (4 * c.stream()) as nat,
        ScratchBuffer::Normed => (4 * c.stream()) as nat,
        ScratchBuffer::D => (4 * c.hc_lowrank) as nat,
        ScratchBuffer::U => (4 * c.stream()) as nat,
        ScratchBuffer::Mixed => (4 * c.hidden_size) as nat,
        ScratchBuffer::Inj => (4 * c.hc_count) as nat,
        ScratchBuffer::MixOut => (4 * c.hidden_size) as nat,
        ScratchBuffer::MoeOut => (4 * c.hidden_size) as nat,
        ScratchBuffer::Qg => (8 * (c.num_attention_heads * c.head_dim)) as nat,
        ScratchBuffer::K => (4 * (c.num_key_value_heads * c.head_dim)) as nat,
        ScratchBuffer::V => (4 * (c.num_key_value_heads * c.head_dim)) as nat,
        ScratchBuffer::AttnOut => (4 * (c.num_attention_heads * c.head_dim)) as nat,
        ScratchBuffer::Iqk => (4 * ((c.indexer_n_heads + 1) * c.indexer_head_dim)) as nat,
        ScratchBuffer::Iq => (4 * (c.indexer_n_heads * c.indexer_head_dim)) as nat,
        ScratchBuffer::Bscore => (4 * max_blocks(c, max_t)) as nat,
        ScratchBuffer::Vis => (4 * (c.indexer_budget + c.indexer_compress_ratio)) as nat,
        ScratchBuffer::Nvis => (4) as nat,
        ScratchBuffer::Vmask => (4 * runner::ceil_div(max_blocks(c, max_t), 32)) as nat,
        ScratchBuffer::Qkv => (4 * conv_dim(c)) as nat,
        ScratchBuffer::Z => (4 * value_dim(c)) as nat,
        ScratchBuffer::A => (4 * c.linear_num_value_heads) as nat,
        ScratchBuffer::B => (4 * c.linear_num_value_heads) as nat,
        ScratchBuffer::Kqn => (8 * (c.linear_num_key_heads * c.linear_key_head_dim)) as nat,
        ScratchBuffer::Gbuf => (8 * c.linear_num_value_heads) as nat,
        ScratchBuffer::DeltaY => (4 * value_dim(c)) as nat,
        ScratchBuffer::Router => (4 * c.num_experts) as nat,
        ScratchBuffer::TopkIdx => (4 * c.num_experts_per_tok) as nat,
        ScratchBuffer::TopkW => (4 * c.num_experts_per_tok) as nat,
        ScratchBuffer::CsrRows => (4 * c.num_experts_per_tok) as nat,
        ScratchBuffer::CsrW => (4 * c.num_experts_per_tok) as nat,
        ScratchBuffer::Xg => (4 * c.hidden_size) as nat,
        ScratchBuffer::Ge => (4 * c.moe_intermediate_size) as nat,
        ScratchBuffer::Ue => (4 * c.moe_intermediate_size) as nat,
        ScratchBuffer::Hg => (4 * c.moe_intermediate_size) as nat,
        ScratchBuffer::Ye => (4 * c.hidden_size) as nat,
        ScratchBuffer::MtpHyper => (4 * c.stream()) as nat,
        ScratchBuffer::Fe => (4 * c.hidden_size) as nat,
        ScratchBuffer::Fh => (4 * c.stream()) as nat,
        ScratchBuffer::LogitsAll => (4 * c.vocab_size) as nat,
        _ => 0,
    }
}

/// The bytes of a buffer whose size does not depend on the rows.
pub open spec fn fixed_bytes(c: Qwen4ExpConfig, max_t: usize, b: ScratchBuffer) -> nat {
    match b {
        ScratchBuffer::AgQh => ((2 * QS) * (c.num_attention_heads * c.head_dim)) as nat,
        ScratchBuffer::AgKh => (2 * (padded_keys(max_t) * c.head_dim)) as nat,
        ScratchBuffer::AgVt => (2 * (c.head_dim * padded_keys(max_t))) as nat,
        ScratchBuffer::AgS => ((4 * QS) * (heads_per_kv(c) * padded_keys(max_t))) as nat,
        ScratchBuffer::AgP => ((2 * QS) * (heads_per_kv(c) * padded_keys(max_t))) as nat,
        ScratchBuffer::AgO => ((4 * QS) * (heads_per_kv(c) * c.head_dim)) as nat,
        _ => 0,
    }
}

/// The bytes of a buffer for a chunk of `rows`.
pub open spec fn buffer_bytes(c: Qwen4ExpConfig, max_t: usize, rows: nat, b: ScratchBuffer) -> nat {
    if is_fixed(b) {
        fixed_bytes(c, max_t, b)
    } else {
        padded_rows(rows) * row_bytes(c, max_t, b)
    }
}

/// Bytes rounded up to whole pages.
pub open spec fn paged(bytes: nat) -> nat {
    runner::ceil_div(bytes, PAGE_SIZE as nat) * PAGE_SIZE as nat
}

/// Every quantity of the layout is a machine number.
pub open spec fn layout_fits(c: Qwen4ExpConfig, max_t: usize, rows: nat) -> bool {
    &&& c.num_key_value_heads > 0
    &&& c.indexer_compress_ratio > 0
    &&& c.indexer_n_heads < usize::MAX
    &&& max_t + 31 <= usize::MAX
    &&& rows + 63 <= usize::MAX
    &&& forall|b: ScratchBuffer| #[trigger] paged(buffer_bytes(c, max_t, rows, b)) <= usize::MAX
}

/// The buffers of a scratch in the order in which they are allocated.
pub open spec fn buffers(all_logits: bool) -> Seq<ScratchBuffer> {
    let always = seq![
        ScratchBuffer::Ids,
        ScratchBuffer::E,
        ScratchBuffer::Hyper,
        ScratchBuffer::Normed,
        ScratchBuffer::D,
        ScratchBuffer::U,
        ScratchBuffer::Mixed,
        ScratchBuffer::Inj,
        ScratchBuffer::MixOut,
        ScratchBuffer::MoeOut,
        ScratchBuffer::Qg,
        ScratchBuffer::K,
        ScratchBuffer::V,
        ScratchBuffer::AttnOut,
        ScratchBuffer::Iqk,
        ScratchBuffer::Iq,
        ScratchBuffer::Bscore,
        ScratchBuffer::Vis,
        ScratchBuffer::Nvis,
        ScratchBuffer::Vmask,
        ScratchBuffer::AgQh,
        ScratchBuffer::AgKh,
        ScratchBuffer::AgVt,
        ScratchBuffer::AgS,
        ScratchBuffer::AgP,
        ScratchBuffer::AgO,
        ScratchBuffer::Qkv,
        ScratchBuffer::Z,
        ScratchBuffer::A,
        ScratchBuffer::B,
        ScratchBuffer::Kqn,
        ScratchBuffer::Gbuf,
        ScratchBuffer::DeltaY,
        ScratchBuffer::Router,
        ScratchBuffer::TopkIdx,
        ScratchBuffer::TopkW,
        ScratchBuffer::CsrRows,
        ScratchBuffer::CsrW,
        ScratchBuffer::Xg,
        ScratchBuffer::Ge,
        ScratchBuffer::Ue,
        ScratchBuffer::Hg,
        ScratchBuffer::Ye,
        ScratchBuffer::MtpHyper,
        ScratchBuffer::Fe,
        ScratchBuffer::Fh,
    ];
    if all_logits {
        always.push(ScratchBuffer::LogitsAll)
    } else {
        always
    }
}

/// The page-rounded bytes of the listed buffers.
pub open spec fn total_of(c: Qwen4ExpConfig, max_t: usize, rows: nat, list: Seq<ScratchBuffer>) -> nat
    decreases list.len(),
{
    if list.len() == 0 {
        0
    } else {
        total_of(c, max_t, rows, list.drop_last()) + paged(buffer_bytes(c, max_t, rows, list.last()))
    }
}

/// The bytes of a whole scratch.
pub open spec fn total_bytes(c: Qwen4ExpConfig, max_t: usize, rows: nat, all_logits: bool) -> nat {
    total_of(c, max_t, rows, buffers(all_logits))
}

/// The buffers of a scratch.
pub fn scratch(all_logits: bool) -> (r: Vec<ScratchBuffer>)
    ensures
        r@ == buffers(all_logits),
{
    let mut list: Vec<ScratchBuffer> = vec![
        ScratchBuffer::Ids,
        ScratchBuffer::E,
        ScratchBuffer::Hyper,
        ScratchBuffer::Normed,
        ScratchBuffer::D,
        ScratchBuffer::U,
        ScratchBuffer::Mixed,
        ScratchBuffer::Inj,
        ScratchBuffer::MixOut,
        ScratchBuffer::MoeOut,
        ScratchBuffer::Qg,
        ScratchBuffer::K,
        ScratchBuffer::V,
        ScratchBuffer::AttnOut,
        ScratchBuffer::Iqk,
        ScratchBuffer::Iq,
        ScratchBuffer::Bscore,
        ScratchBuffer::Vis,
        ScratchBuffer::Nvis,
        ScratchBuffer::Vmask,
        ScratchBuffer::AgQh,
        ScratchBuffer::AgKh,
        ScratchBuffer::AgVt,
        ScratchBuffer::AgS,
        ScratchBuffer::AgP,
        ScratchBuffer::AgO,
        ScratchBuffer::Qkv,
        ScratchBuffer::Z,
        ScratchBuffer::A,
        ScratchBuffer::B,
        ScratchBuffer::Kqn,
        ScratchBuffer::Gbuf,
        ScratchBuffer::DeltaY,
        ScratchBuffer::Router,
        ScratchBuffer::TopkIdx,
        ScratchBuffer::TopkW,
        ScratchBuffer::CsrRows,
        ScratchBuffer::CsrW,
        ScratchBuffer::Xg,
        ScratchBuffer::Ge,
        ScratchBuffer::Ue,
        ScratchBuffer::Hg,
        ScratchBuffer::Ye,
        ScratchBuffer::MtpHyper,
        ScratchBuffer::Fe,
        ScratchBuffer::Fh,
    ];
    if all_logits {
        list.push(ScratchBuffer::LogitsAll);
    }
    assert(list@ =~= buffers(all_logits));
    list
}

/// Rows that a scratch for `rows` holds.
pub fn scratch_rows(rows: usize) -> (r: usize)
    requires
        rows + 63 <= usize::MAX,
    ensures
        r == padded_rows(rows as nat),
        r >= rows + 32,
{
    let tiles: usize = div_ceil(rows, 32);
    tiles * 32 + 32
}

/// The bytes of one row of a buffer that has rows.
fn scratch_row(c: &Qwen4ExpConfig, max_t: usize, b: ScratchBuffer) -> (r: usize)
    requires
        row_bytes(*c, max_t, b) <= usize::MAX,
        c.indexer_compress_ratio > 0,
        c.indexer_n_heads < usize::MAX,
        max_t + 31 <= usize::MAX,
    ensures
        r == row_bytes(*c, max_t, b),
{
    proof {
        let ratio = c.indexer_compress_ratio as int;
        let keys = max_t as int;
        assert(0 <= keys / ratio <= keys) by (nonlinear_arith)
            requires
                ratio > 0,
                keys >= 0,
        ;
    }
    let blocks: usize = max_t / c.indexer_compress_ratio + 1;
    match b {
        ScratchBuffer::Ids => 4,
        ScratchBuffer::E => 4 * c.hidden_size,
        ScratchBuffer::Hyper => 4 * c.hc_hidden(),
        ScratchBuffer::Normed => 4 * c.hc_hidden(),
        ScratchBuffer::D => 4 * c.hc_lowrank,
        ScratchBuffer::U => 4 * c.hc_hidden(),
        ScratchBuffer::Mixed => 4 * c.hidden_size,
        ScratchBuffer::Inj => 4 * c.hc_count,
        ScratchBuffer::MixOut => 4 * c.hidden_size,
        ScratchBuffer::MoeOut => 4 * c.hidden_size,
        ScratchBuffer::Qg => 8 * (c.num_attention_heads * c.head_dim),
        ScratchBuffer::K => 4 * (c.num_key_value_heads * c.head_dim),
        ScratchBuffer::V => 4 * (c.num_key_value_heads * c.head_dim),
        ScratchBuffer::AttnOut => 4 * (c.num_attention_heads * c.head_dim),
        ScratchBuffer::Iqk => 4 * ((c.indexer_n_heads + 1) * c.indexer_head_dim),
        ScratchBuffer::Iq => 4 * (c.indexer_n_heads * c.indexer_head_dim),
        ScratchBuffer::Bscore => 4 * blocks,
        ScratchBuffer::Vis => 4 * (c.indexer_budget + c.indexer_compress_ratio),
        ScratchBuffer::Nvis => 4,
        ScratchBuffer::Vmask => 4 * div_ceil(blocks, 32),
        ScratchBuffer::Qkv => 4 * (2 * (c.linear_num_key_heads * c.linear_key_head_dim) + c.linear_num_value_heads * c.linear_value_head_dim),
        ScratchBuffer::Z => 4 * (c.linear_num_value_heads * c.linear_value_head_dim),
        ScratchBuffer::A => 4 * c.linear_num_value_heads,
        ScratchBuffer::B => 4 * c.linear_num_value_heads,
        ScratchBuffer::Kqn => 8 * (c.linear_num_key_heads * c.linear_key_head_dim),
        ScratchBuffer::Gbuf => 8 * c.linear_num_value_heads,
        ScratchBuffer::DeltaY => 4 * (c.linear_num_value_heads * c.linear_value_head_dim),
        ScratchBuffer::Router => 4 * c.num_experts,
        ScratchBuffer::TopkIdx => 4 * c.num_experts_per_tok,
        ScratchBuffer::TopkW => 4 * c.num_experts_per_tok,
        ScratchBuffer::CsrRows => 4 * c.num_experts_per_tok,
        ScratchBuffer::CsrW => 4 * c.num_experts_per_tok,
        ScratchBuffer::Xg => 4 * c.hidden_size,
        ScratchBuffer::Ge => 4 * c.moe_intermediate_size,
        ScratchBuffer::Ue => 4 * c.moe_intermediate_size,
        ScratchBuffer::Hg => 4 * c.moe_intermediate_size,
        ScratchBuffer::Ye => 4 * c.hidden_size,
        ScratchBuffer::MtpHyper => 4 * c.hc_hidden(),
        ScratchBuffer::Fe => 4 * c.hidden_size,
        ScratchBuffer::Fh => 4 * c.hc_hidden(),
        ScratchBuffer::LogitsAll => 4 * c.vocab_size,
        _ => 0,
    }
}

pub proof fn lemma_paged(bytes: nat)
    ensures
        bytes <= paged(bytes) < bytes + PAGE_SIZE,
{
}

pub proof fn lemma_padded_rows(rows: nat)
    ensures
        rows + 32 <= padded_rows(rows) < rows + 64,
{
}

/// The bytes of one buffer.
pub fn scratch_buffer(c: &Qwen4ExpConfig, max_t: usize, rows: usize, b: ScratchBuffer) -> (r: usize)
    requires
        layout_fits(*c, max_t, rows as nat),
    ensures
        r == buffer_bytes(*c, max_t, rows as nat, b),
{
    let rp: usize = scratch_rows(rows);
    let n_rep: usize = c.num_attention_heads / c.num_key_value_heads;
    let keys: usize = div_ceil(max_t, 32) * 32;
    proof {
        let bytes = buffer_bytes(*c, max_t, rows as nat, b);
        assert(paged(bytes) <= usize::MAX);
        lemma_paged(bytes);
        lemma_padded_rows(rows as nat);
        let row = row_bytes(*c, max_t, b);
        assert(row <= padded_rows(rows as nat) * row) by (nonlinear_arith)
            requires
                padded_rows(rows as nat) >= 1,
        ;
    }
    match b {
        ScratchBuffer::AgQh => (2 * QS) * (c.num_attention_heads * c.head_dim),
        ScratchBuffer::AgKh => 2 * (keys * c.head_dim),
        ScratchBuffer::AgVt => 2 * (c.head_dim * keys),
        ScratchBuffer::AgS => (4 * QS) * (n_rep * keys),
        ScratchBuffer::AgP => (2 * QS) * (n_rep * keys),
        ScratchBuffer::AgO => (4 * QS) * (n_rep * c.head_dim),
        _ => rp * scratch_row(c, max_t, b),
    }
}

/// The bytes of a whole scratch, each buffer rounded to pages as the device may round it.
pub fn scratch_bytes(c: &Qwen4ExpConfig, max_t: usize, rows: usize, all_logits: bool) -> (r: Result<usize, ScratchError>)
    requires
        layout_fits(*c, max_t, rows as nat),
    ensures
        r == if total_bytes(*c, max_t, rows as nat, all_logits) <= usize::MAX {
            Ok::<usize, ScratchError>(total_bytes(*c, max_t, rows as nat, all_logits) as usize)
        } else {
            Err(ScratchError::Overflow)
        },
{
    let list: Vec<ScratchBuffer> = scratch(all_logits);
    let mut total: usize = 0;
    let mut i: usize = 0;
    while i < list.len()
        invariant
            i <= list.len(),
            list@ == buffers(all_logits),
            layout_fits(*c, max_t, rows as nat),
            total == total_of(*c, max_t, rows as nat, list@.take(i as int)),
        decreases list.len() - i,
    {
        let b: ScratchBuffer = list[i];
        let bytes: usize = scratch_buffer(c, max_t, rows, b);
        proof {
            assert(list@.take(i + 1).drop_last() =~= list@.take(i as int));
            assert(list@.take(i + 1).last() == b);
            assert(paged(buffer_bytes(*c, max_t, rows as nat, b)) <= usize::MAX);
        }
        let pages: usize = div_ceil(bytes, PAGE_SIZE);
        let padded: usize = pages * PAGE_SIZE;
        match total.checked_add(padded) {
            Some(sum) => {
                total = sum;
            },
            None => {
                proof {
                    lemma_total_prefix(*c, max_t, rows as nat, list@, i + 1);
                }
                return Err(ScratchError::Overflow);
            },
        }
        i = i + 1;
    }
    assert(list@.take(i as int) =~= list@);
    Ok(total)
}

/// The first buffers take no more than all.
proof fn lemma_total_prefix(c: Qwen4ExpConfig, max_t: usize, rows: nat, list: Seq<ScratchBuffer>, n: int)
    requires
        0 <= n <= list.len(),
    ensures
        total_of(c, max_t, rows, list.take(n)) <= total_of(c, max_t, rows, list),
    decreases list.len() - n,
{
    if n == list.len() {
        assert(list.take(n) =~= list);
    } else {
        assert(list.take(n + 1).drop_last() =~= list.take(n));
        lemma_total_prefix(c, max_t, rows, list, n + 1);
    }
}

proof fn lemma_bytes_monotone(c: Qwen4ExpConfig, max_t: usize, fewer: nat, more: nat, b: ScratchBuffer)
    requires
        fewer <= more,
    ensures
        buffer_bytes(c, max_t, fewer, b) <= buffer_bytes(c, max_t, more, b),
        paged(buffer_bytes(c, max_t, fewer, b)) <= paged(buffer_bytes(c, max_t, more, b)),
{
    let row = row_bytes(c, max_t, b);
    let (x, y) = (padded_rows(fewer), padded_rows(more));
    assert(x <= y);
    assert(x * row <= y * row) by (nonlinear_arith)
        requires
            x <= y,
    ;
}

/// A scratch for fewer rows takes no more bytes.
pub proof fn law_scratch_grows_with_rows(c: Qwen4ExpConfig, max_t: usize, fewer: nat, more: nat, all_logits: bool)
    requires
        fewer <= more,
    ensures
        total_bytes(c, max_t, fewer, all_logits) <= total_bytes(c, max_t, more, all_logits),
{
    lemma_total_monotone(c, max_t, fewer, more, buffers(all_logits));
}

proof fn lemma_total_monotone(c: Qwen4ExpConfig, max_t: usize, fewer: nat, more: nat, list: Seq<ScratchBuffer>)
    requires
        fewer <= more,
    ensures
        total_of(c, max_t, fewer, list) <= total_of(c, max_t, more, list),
    decreases list.len(),
{
    if list.len() > 0 {
        lemma_total_monotone(c, max_t, fewer, more, list.drop_last());
        lemma_bytes_monotone(c, max_t, fewer, more, list.last());
    }
}

proof fn lemma_total_whole_pages(c: Qwen4ExpConfig, max_t: usize, rows: nat, list: Seq<ScratchBuffer>)
    ensures
        total_of(c, max_t, rows, list) % PAGE_SIZE as nat == 0,
    decreases list.len(),
{
    if list.len() > 0 {
        lemma_total_whole_pages(c, max_t, rows, list.drop_last());
        let n = runner::ceil_div(buffer_bytes(c, max_t, rows, list.last()), PAGE_SIZE as nat);
        assert(n * 16384 % 16384 == 0) by (nonlinear_arith);
    }
}

proof fn lemma_total_same_rows(c: Qwen4ExpConfig, max_t: usize, a: nat, b: nat, list: Seq<ScratchBuffer>)
    requires
        padded_rows(a) == padded_rows(b),
    ensures
        total_of(c, max_t, a, list) == total_of(c, max_t, b, list),
    decreases list.len(),
{
    if list.len() > 0 {
        lemma_total_same_rows(c, max_t, a, b, list.drop_last());
    }
}

/// A scratch takes whole pages, as many for all rows that are padded to the same, and every
/// row's logits take exactly the pages of their own buffer more.
pub proof fn law_scratch_pages(c: Qwen4ExpConfig, max_t: usize, rows: nat, other: nat, all_logits: bool)
    ensures
        total_bytes(c, max_t, rows, all_logits) % PAGE_SIZE as nat == 0,
        padded_rows(rows) == padded_rows(other) ==> total_bytes(c, max_t, rows, all_logits) == total_bytes(
            c,
            max_t,
            other,
            all_logits,
        ),
        total_bytes(c, max_t, rows, true) == total_bytes(c, max_t, rows, false) + paged(
            (padded_rows(rows) * (4 * c.vocab_size)) as nat,
        ),
{
    lemma_total_whole_pages(c, max_t, rows, buffers(all_logits));
    if padded_rows(rows) == padded_rows(other) {
        lemma_total_same_rows(c, max_t, rows, other, buffers(all_logits));
    }
    assert(buffers(true).drop_last() =~= buffers(false));
    assert(buffers(true).last() == ScratchBuffer::LogitsAll);
}

proof fn lemma_layout_fits_fewer(c: Qwen4ExpConfig, max_t: usize, fewer: nat, more: nat)
    requires
        fewer <= more,
        layout_fits(c, max_t, more),
    ensures
        layout_fits(c, max_t, fewer),
{
    assert forall|b: ScratchBuffer| #[trigger] paged(buffer_bytes(c, max_t, fewer, b)) <= usize::MAX by {
        assert(paged(buffer_bytes(c, max_t, more, b)) <= usize::MAX);
        lemma_bytes_monotone(c, max_t, fewer, more, b);
    }
}

/// The most rows that a chunk may have in a context of `max_t`.
pub open spec fn row_limit(max_t: usize) -> nat {
    if max_t < MAX_PREFILL_ROWS {
        max_t as nat
    } else {
        MAX_PREFILL_ROWS as nat
    }
}

/// Whether a search for the most rows between two bounds meets a scratch whose bytes cannot
/// be counted. It tries the middle, the greater one of two, and goes on above it where that
/// fits the available bytes, and below it where not.
pub open spec fn meets_overflow(
    c: Qwen4ExpConfig,
    max_t: usize,
    available: usize,
    all_logits: bool,
    low: nat,
    high: nat,
) -> bool
    decreases high - low,
{
    if low >= high {
        false
    } else {
        let mid = (low + (high - low + 1) / 2) as nat;
        let bytes = total_bytes(c, max_t, mid, all_logits);
        if bytes > usize::MAX {
            true
        } else if bytes <= available {
            meets_overflow(c, max_t, available, all_logits, mid, high)
        } else {
            meets_overflow(c, max_t, available, all_logits, low, (mid - 1) as nat)
        }
    }
}

/// Whether a result is the most rows whose scratch fits the available bytes, or why there is
/// none.
pub open spec fn is_most_rows(
    c: Qwen4ExpConfig,
    max_t: usize,
    available: usize,
    all_logits: bool,
    r: Result<usize, ScratchError>,
) -> bool {
    &&& r == Err::<usize, ScratchError>(ScratchError::Overflow) <==> meets_overflow(
        c,
        max_t,
        available,
        all_logits,
        0,
        row_limit(max_t),
    )
    &&& match r {
        Ok(rows) => {
            &&& 0 < rows <= row_limit(max_t)
            &&& total_bytes(c, max_t, rows as nat, all_logits) <= available
            &&& forall|more: nat|
                rows < more <= row_limit(max_t) ==> #[trigger] total_bytes(c, max_t, more, all_logits) > available
        },
        Err(ScratchError::Insufficient) => forall|rows: nat|
            0 < rows <= row_limit(max_t) ==> #[trigger] total_bytes(c, max_t, rows, all_logits) > available,
        Err(ScratchError::Overflow) => total_bytes(c, max_t, row_limit(max_t), all_logits) > usize::MAX,
    }
}

/// The most rows whose scratch fits the available bytes.
pub fn rows_fit(c: &Qwen4ExpConfig, max_t: usize, available: usize, all_logits: bool) -> (r: Result<usize, ScratchError>)
    requires
        layout_fits(*c, max_t, row_limit(max_t)),
    ensures
        is_most_rows(*c, max_t, available, all_logits, r),
{
    let mut low: usize = 0;
    let mut high: usize = if MAX_PREFILL_ROWS < max_t { MAX_PREFILL_ROWS } else { max_t };
    while low < high
        invariant
            low <= high <= row_limit(max_t),
            layout_fits(*c, max_t, row_limit(max_t)),
            low > 0 ==> total_bytes(*c, max_t, low as nat, all_logits) <= available,
            meets_overflow(*c, max_t, available, all_logits, 0, row_limit(max_t)) == meets_overflow(
                *c,
                max_t,
                available,
                all_logits,
                low as nat,
                high as nat,
            ),
            forall|more: nat|
                high < more <= row_limit(max_t) ==> #[trigger] total_bytes(*c, max_t, more, all_logits) > available,
        decreases high - low,
    {
        let mid: usize = low + div_ceil(high - low, 2);
        proof {
            lemma_layout_fits_fewer(*c, max_t, mid as nat, row_limit(max_t));
        }
        match scratch_bytes(c, max_t, mid, all_logits) {
            Ok(bytes) => {
                if bytes <= available {
                    low = mid;
                } else {
                    proof {
                        assert forall|more: nat| mid - 1 < more <= row_limit(max_t) implies #[trigger] total_bytes(
                            *c,
                            max_t,
                            more,
                            all_logits,
                        ) > available by {
                            law_scratch_grows_with_rows(*c, max_t, mid as nat, more, all_logits);
                        }
                    }
                    high = mid - 1;
                }
            },
            Err(e) => {
                proof {
                    law_scratch_grows_with_rows(*c, max_t, mid as nat, row_limit(max_t), all_logits);
                }
                return Err(e);
            },
        }
    }
    if low > 0 {
        Ok(low)
    } else {
        Err(ScratchError::Insufficient)
    }
}

/// What a limit leaves of what is allocated. A scratch that is kept is released before its
/// replacement, so its bytes do not count.
pub open spec fn left_of(limit: usize, allocated: usize, kept_scratch: Option<usize>) -> usize {
    let kept = match kept_scratch {
        Some(n) => n,
        None => 0,
    };
    let used = if allocated >= kept { allocated - kept } else { 0 };
    if limit >= used {
        (limit - used) as usize
    } else {
        0
    }
}

/// The bytes that a new scratch may take: what the configured limit, or else the device's
/// recommendation, leaves.
pub fn scratch_available(
    allocation_limit: Option<usize>,
    device_limit: usize,
    allocated: usize,
    kept_scratch: Option<usize>,
) -> (r: usize)
    ensures
        r == match allocation_limit {
            Some(limit) => left_of(limit, allocated, kept_scratch),
            None => left_of(device_limit, allocated, kept_scratch),
        },
{
    let limit: usize = match allocation_limit {
        Some(n) => n,
        None => device_limit,
    };
    let used: usize = match kept_scratch {
        Some(n) => allocated.saturating_sub(n),
        None => allocated,
    };
    limit.saturating_sub(used)
}

/// The most rows of a chunk that fits the configured limit, or the device's recommendation.
pub fn prefill_rows_fit(
    c: &Qwen4ExpConfig,
    max_t: usize,
    allocation_limit: Option<usize>,
    device_limit: usize,
    allocated: usize,
    kept_scratch: Option<usize>,
    all_logits: bool,
) -> (r: Result<usize, ScratchError>)
    requires
        layout_fits(*c, max_t, row_limit(max_t)),
    ensures
        is_most_rows(
            *c,
            max_t,
            match allocation_limit {
                Some(limit) => left_of(limit, allocated, kept_scratch),
                None => left_of(device_limit, allocated, kept_scratch),
            },
            all_logits,
            r,
        ),
{
    rows_fit(c, max_t, scratch_available(allocation_limit, device_limit, allocated, kept_scratch), all_logits)
}

/// Whether the scratch that is kept serves a chunk of `rows`.
pub fn scratch_serves(kept_rows: Option<usize>, kept_logits: bool, rows: usize, all_logits: bool) -> (r: bool)
    ensures
        r == (kept_rows matches Some(n) && n >= rows && (all_logits ==> kept_logits)),
{
    match kept_rows {
        Some(n) => n >= rows && (!all_logits || kept_logits),
        None => false,
    }
}

/// A scratch that is kept between chunks: the rows that it has room for, and whether it has
/// room for every row's logits.
#[derive(Debug, Clone, Copy, PartialEq, Eq, Structural)]
pub struct Scratch {
    pub rows: usize,
    pub logits: bool,
}

/// The scratch that a chunk runs in: the one that is kept where it serves, or else a new one.
pub open spec fn scratch_of(kept: Option<Scratch>, rows: usize, all_logits: bool) -> Scratch {
    let fresh = Scratch { rows: padded_rows(rows as nat) as usize, logits: all_logits };
    match kept {
        Some(s) => if s.rows >= rows && (all_logits ==> s.logits) {
            s
        } else {
            fresh
        },
        None => fresh,
    }
}

/// The scratch of a chunk, and whether it has to be allocated.
pub fn chunk_scratch(kept: Option<Scratch>, rows: usize, all_logits: bool) -> (r: (Scratch, bool))
    requires
        rows + 63 <= usize::MAX,
    ensures
        r.0 == scratch_of(kept, rows, all_logits),
        r.1 == !(kept matches Some(s) && s.rows >= rows && (all_logits ==> s.logits)),
        r.0.rows >= rows,
        all_logits ==> r.0.logits,
{
    let serves: bool = match kept {
        Some(s) => scratch_serves(Some(s.rows), s.logits, rows, all_logits),
        None => false,
    };
    match kept {
        Some(s) => if serves {
            (s, false)
        } else {
            (Scratch { rows: scratch_rows(rows), logits: all_logits }, true)
        },
        None => (Scratch { rows: scratch_rows(rows), logits: all_logits }, true),
    }
}

/// Rows come in blocks of 32, with one block to spare: as few blocks as hold the rows.
pub proof fn law_scratch_rows(rows: usize, r: usize)
    requires
        call_ensures(scratch_rows, (rows,), r),
        rows + 63 <= usize::MAX,
    ensures
        r % 32 == 0,
        rows + 32 <= r < rows + 64,
{
}

/// Each buffer of a row has four bytes for each of its numbers, in as many rows as the scratch has.
pub proof fn law_row_buffers(c: Qwen4ExpConfig, max_t: usize, rows: usize, padded: usize, b: ScratchBuffer, r: usize)
    requires
        call_ensures(scratch_rows, (rows,), padded),
        rows + 63 <= usize::MAX,
        call_ensures(scratch_buffer, (&c, max_t, rows, b), r),
        c.indexer_compress_ratio > 0,
    ensures
        ({
            let hidden = c.hidden_size as int;
            let stream = c.stream() as int;
            let keys = c.linear_num_key_heads * c.linear_key_head_dim;
            let values = c.linear_num_value_heads * c.linear_value_head_dim;
            let blocks = max_t as int / c.indexer_compress_ratio as int + 1;
            let numbers = match b {
                ScratchBuffer::Ids | ScratchBuffer::Nvis => 1,
                ScratchBuffer::E | ScratchBuffer::Mixed | ScratchBuffer::MixOut | ScratchBuffer::MoeOut | ScratchBuffer::Xg
                | ScratchBuffer::Ye | ScratchBuffer::Fe => hidden,
                ScratchBuffer::Hyper | ScratchBuffer::Normed | ScratchBuffer::U | ScratchBuffer::MtpHyper
                | ScratchBuffer::Fh => stream,
                ScratchBuffer::D => c.hc_lowrank as int,
                ScratchBuffer::Inj => c.hc_count as int,
                ScratchBuffer::Qg => 2 * (c.num_attention_heads * c.head_dim),
                ScratchBuffer::AttnOut => c.num_attention_heads * c.head_dim,
                ScratchBuffer::K | ScratchBuffer::V => c.num_key_value_heads * c.head_dim,
                ScratchBuffer::Iqk => (c.indexer_n_heads + 1) * c.indexer_head_dim,
                ScratchBuffer::Iq => c.indexer_n_heads * c.indexer_head_dim,
                ScratchBuffer::Bscore => blocks,
                ScratchBuffer::Vis => c.indexer_budget + c.indexer_compress_ratio,
                ScratchBuffer::Vmask => (blocks + 31) / 32,
                ScratchBuffer::Qkv => 2 * keys + values,
                ScratchBuffer::Z | ScratchBuffer::DeltaY => values,
                ScratchBuffer::A | ScratchBuffer::B => c.linear_num_value_heads as int,
                ScratchBuffer::Gbuf => 2 * c.linear_num_value_heads,
                ScratchBuffer::Kqn => 2 * keys,
                ScratchBuffer::Router => c.num_experts as int,
                ScratchBuffer::TopkIdx | ScratchBuffer::TopkW | ScratchBuffer::CsrRows
                | ScratchBuffer::CsrW => c.num_experts_per_tok as int,
                ScratchBuffer::Ge | ScratchBuffer::Ue | ScratchBuffer::Hg => c.moe_intermediate_size as int,
                ScratchBuffer::LogitsAll => c.vocab_size as int,
                ScratchBuffer::AgQh | ScratchBuffer::AgKh | ScratchBuffer::AgVt | ScratchBuffer::AgS | ScratchBuffer::AgP
                | ScratchBuffer::AgO => 0,
            };
            numbers != 0 || !is_fixed(b) ==> r == padded * (4 * numbers)
        }),
{
    assert(max_blocks(c, max_t) == max_t as int / c.indexer_compress_ratio as int + 1);
}

/// Attention's own buffers hold 256 queries of all heads, and all keys, in blocks of 32, for one head
/// of keys.
pub proof fn law_attention_buffers(c: Qwen4ExpConfig, max_t: usize, rows: usize, b: ScratchBuffer, r: usize)
    requires
        call_ensures(scratch_buffer, (&c, max_t, rows, b), r),
        c.num_key_value_heads > 0,
    ensures
        ({
            let keys = (max_t as int + 31) / 32 * 32;
            let group = c.num_attention_heads as int / c.num_key_value_heads as int;
            match b {
                ScratchBuffer::AgQh => r == 512 * (c.num_attention_heads * c.head_dim),
                ScratchBuffer::AgKh => r == 2 * (keys * c.head_dim),
                ScratchBuffer::AgVt => r == 2 * (c.head_dim * keys),
                ScratchBuffer::AgS => r == 1024 * (group * keys),
                ScratchBuffer::AgP => r == 512 * (group * keys),
                ScratchBuffer::AgO => r == 1024 * (group * c.head_dim),
                _ => true,
            }
        }),
{
    assert(padded_keys(max_t) == (max_t as int + 31) / 32 * 32);
}

/// A buffer more costs its bytes, rounded up to whole pages of 16384.
pub proof fn law_buffer_costs_pages(c: Qwen4ExpConfig, max_t: usize, rows: nat, list: Seq<ScratchBuffer>, b: ScratchBuffer)
    ensures
        ({
            let before = total_of(c, max_t, rows, list);
            let after = total_of(c, max_t, rows, list.push(b));
            &&& (after - before) % 16384 == 0
            &&& buffer_bytes(c, max_t, rows, b) <= after - before < buffer_bytes(c, max_t, rows, b) + 16384
        }),
        total_of(c, max_t, rows, Seq::empty()) == 0,
{
    assert(list.push(b).drop_last() =~= list);
    lemma_paged(buffer_bytes(c, max_t, rows, b));
}

/// All logits cost one buffer more than the last ones alone; nothing else of the scratch depends on
/// them.
pub proof fn law_logits_cost(c: Qwen4ExpConfig, max_t: usize, rows: usize, few: Result<usize, ScratchError>, all: Result<usize, ScratchError>)
    requires
        call_ensures(scratch_bytes, (&c, max_t, rows, false), few),
        call_ensures(scratch_bytes, (&c, max_t, rows, true), all),
    ensures
        all is Ok ==> few is Ok,
        all is Ok ==> ({
            let logits = padded_rows(rows as nat) * (4 * c.vocab_size);
            &&& logits <= all->Ok_0 - few->Ok_0 < logits + 16384
            &&& (all->Ok_0 - few->Ok_0) % 16384 == 0
        }),
{
    let always = buffers(false);
    law_buffer_costs_pages(c, max_t, rows as nat, always, ScratchBuffer::LogitsAll);
    assert(buffers(true) =~= always.push(ScratchBuffer::LogitsAll));
}

/// The rows that fit are the most: their scratch fits what is available, and one row more would not,
/// unless the context or 4096 rows is the limit. Where none is granted, a single row would not fit.
pub proof fn law_rows_fit(
    c: Qwen4ExpConfig,
    max_t: usize,
    available: usize,
    all_logits: bool,
    r: Result<usize, ScratchError>,
    rows: usize,
    bytes: Result<usize, ScratchError>,
)
    requires
        call_ensures(rows_fit, (&c, max_t, available, all_logits), r),
        call_ensures(scratch_bytes, (&c, max_t, rows, all_logits), bytes),
        0 < rows <= max_t,
        rows <= 4096,
    ensures
        r matches Ok(n) ==> 0 < n <= max_t && n <= 4096,
        r matches Ok(n) ==> (rows == n ==> (bytes matches Ok(b) && b <= available)),
        r matches Ok(n) ==> (rows > n ==> (bytes matches Ok(b) ==> b > available)),
        r == Err::<usize, ScratchError>(ScratchError::Insufficient) ==> (bytes matches Ok(b) ==> b > available),
{
    if r is Ok && rows > r->Ok_0 {
        assert(total_bytes(c, max_t, rows as nat, all_logits) > available);
    }
    if r == Err::<usize, ScratchError>(ScratchError::Insufficient) {
        assert(total_bytes(c, max_t, rows as nat, all_logits) > available);
    }
}

/// What is available is what the limit leaves of the memory in use, scratch that is kept not counted
/// as used; a limit of its own counts before the device's.
pub proof fn law_scratch_available(
    allocation_limit: Option<usize>,
    device_limit: usize,
    allocated: usize,
    kept_scratch: Option<usize>,
    r: usize,
)
    requires
        call_ensures(scratch_available, (allocation_limit, device_limit, allocated, kept_scratch), r),
    ensures
        ({
            let limit = match allocation_limit {
                Some(limit) => limit as int,
                None => device_limit as int,
            };
            let kept = match kept_scratch {
                Some(kept) => kept as int,
                None => 0,
            };
            &&& kept <= allocated && allocated - kept <= limit ==> r == limit - (allocated - kept)
            &&& kept <= allocated && allocated - kept > limit ==> r == 0
            &&& kept > allocated ==> r == limit
        }),
{
}

/// Scratch that is kept serves again where it has the rows, and all logits where they are wanted;
/// otherwise fresh scratch of the padded rows takes its place.
pub proof fn law_chunk_scratch(kept: Option<Scratch>, rows: usize, all_logits: bool, r: (Scratch, bool), padded: usize)
    requires
        call_ensures(chunk_scratch, (kept, rows, all_logits), r),
        call_ensures(scratch_rows, (rows,), padded),
        rows + 63 <= usize::MAX,
    ensures
        !r.1 <==> kept is Some && kept->0.rows >= rows && (all_logits ==> kept->0.logits),
        !r.1 ==> Some(r.0) == kept,
        r.1 ==> r.0.rows == padded && r.0.logits == all_logits,
{
}

} // verus!
