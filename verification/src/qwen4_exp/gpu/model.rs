//! What the device plans know of the loaded model.

use crate::qwen4_exp::config::Qwen4ExpConfig;
use crate::qwen4_exp::gpu::launch::{Figures, Hc, Q};
use crate::qwen4_exp::gpu::prefill::allocation;
use crate::qwen4_exp::gpu::prefill::allocation::ScratchBuffer;
use crate::qwen4_exp::manifest::ExpertLayout;
use vstd::prelude::*;

verus! {

/// Where the parts of an expert record lie, at one precision.
#[derive(Debug, Clone, Copy, PartialEq, Eq, Structural)]
pub struct RecordLayout {
    pub gate_w: usize,
    pub up_w: usize,
    pub down_w: usize,
    pub gate_s: usize,
    pub gate_b: usize,
    pub up_s: usize,
    pub up_b: usize,
    pub down_s: usize,
    pub down_b: usize,
    pub bits: u32,
    pub stride: usize,
}

impl RecordLayout {
    /// The layout of the 4-bit expert file.
    pub fn four_bit(e: &ExpertLayout) -> (r: RecordLayout)
        ensures
            r == (RecordLayout {
                gate_w: e.gate_w as usize,
                up_w: e.up_w as usize,
                down_w: e.down_w as usize,
                gate_s: e.gate_s as usize,
                gate_b: e.gate_b as usize,
                up_s: e.up_s as usize,
                up_b: e.up_b as usize,
                down_s: e.down_s as usize,
                down_b: e.down_b as usize,
                bits: 4,
                stride: e.record_stride as usize,
            }),
    {
        RecordLayout {
            gate_w: e.gate_w as usize,
            up_w: e.up_w as usize,
            down_w: e.down_w as usize,
            gate_s: e.gate_s as usize,
            gate_b: e.gate_b as usize,
            up_s: e.up_s as usize,
            up_b: e.up_b as usize,
            down_s: e.down_s as usize,
            down_b: e.down_b as usize,
            bits: 4,
            stride: e.record_stride as usize,
        }
    }

    /// The store kind of the layout's precision.
    pub fn kind(&self) -> (r: u8)
        ensures
            r == if self.bits == 2 {
                2u8
            } else if self.bits == 3 {
                1
            } else {
                0
            },
    {
        if self.bits == 2 {
            2
        } else if self.bits == 3 {
            1
        } else {
            0
        }
    }
}

/// Stages that a developer's diagnostic leaves out.
#[derive(Debug, Clone, Copy, PartialEq, Eq, Structural)]
pub struct Skips {
    pub mixer: bool,
    pub shared: bool,
    pub experts: bool,
}

/// The weights of a full-attention mixer.
#[derive(Debug, Clone, Copy)]
pub struct Attn {
    pub q: Q,
    pub k: Q,
    pub v: Q,
    pub iqk: Q,
    pub o: Q,
    /// Norms of queries, keys, indexer queries and indexer keys.
    pub qn: usize,
    pub kn: usize,
    pub iqn: usize,
    pub ikn: usize,
}

/// The weights of a recurrent mixer.
#[derive(Debug, Clone, Copy)]
pub struct Delta {
    pub qkv: Q,
    pub z: Q,
    pub a: Q,
    pub b: Q,
    pub o: Q,
    pub conv: usize,
    pub a_log: usize,
    pub dt_bias: usize,
    pub norm: usize,
}

#[derive(Debug, Clone, Copy)]
pub enum Mix {
    Attn(Attn),
    Delta(Delta),
}

/// The weights of a block's experts.
#[derive(Debug, Clone, Copy)]
pub struct Moe {
    pub record_layer: usize,
    pub router: usize,
    /// Gate, up and down projections of the shared expert.
    pub sg: Q,
    pub su: Q,
    pub sd: Q,
    pub shared_gate: usize,
}

/// The weights of the n-gram block.
#[derive(Debug, Clone, Copy)]
pub struct Ple {
    pub key: Q,
    pub value: Q,
    pub norm_key: usize,
    pub norm_query: usize,
    pub norm_conv: usize,
    pub conv: usize,
    pub kernel: u32,
    pub dilation: u32,
    pub span: u32,
}

/// The weights of one decoder block.
#[derive(Debug, Clone, Copy)]
pub struct Layer {
    pub attn_hc: Hc,
    pub mix: Mix,
    pub mlp_hc: Hc,
    pub moe: Moe,
    pub ple: Option<Ple>,
}

/// The weights of the draft head.
#[derive(Debug, Clone, Copy)]
pub struct Mtp {
    pub enorm: usize,
    pub hnorm: usize,
    pub fc_e: Q,
    pub fc_h: Q,
    pub layer: Layer,
    pub mixer: Hc,
}

/// Where the device's id buffer keeps its tokens.
#[derive(Debug, Clone, Copy, PartialEq, Eq, Structural)]
pub struct IdSlots {
    /// The tokens chosen by the trunk.
    pub chosen: usize,
    /// The draft head's inputs and choices.
    pub draft_in: usize,
    pub draft_out: usize,
    /// The choices of chained draft passes.
    pub chain: usize,
}

/// The model as the device plans see it.
#[derive(Debug)]
pub struct Model {
    pub cfg: Qwen4ExpConfig,
    pub figures: Figures,
    /// Context capacity in tokens.
    pub max_t: usize,
    /// Groups that split one row's attention at most, and tokens per block of the split.
    pub attn_max_wg: usize,
    pub attn_tb: usize,
    pub ids: IdSlots,
    pub embed: Q,
    pub lm_head: Q,
    pub final_mixer: Hc,
    /// Width of the routed experts.
    pub inter: usize,
    pub base_layout: RecordLayout,
    pub low_layout: Option<RecordLayout>,
    pub skips: Skips,
}

impl Model {
    /// Plans for up to `rows` rows: every width is positive and every buffer is addressable.
    pub open spec fn plans(self, rows: nat) -> bool {
        let c = self.cfg;
        &&& allocation::layout_fits(c, self.max_t, rows)
        &&& c.head_dim > 0
        &&& 2 * c.head_dim <= u32::MAX
        &&& c.hidden_size > 0
        &&& c.hc_count > 0
        &&& c.num_key_value_heads <= c.num_attention_heads
        &&& c.indexer_head_dim > 0
        &&& c.indexer_n_heads > 0
        &&& c.linear_num_key_heads > 0
        &&& c.linear_num_value_heads > 0
        &&& c.linear_key_head_dim > 0
        &&& c.linear_value_head_dim > 0
        &&& c.num_experts > 0
        &&& c.num_experts_per_tok > 0
        &&& self.inter == c.moe_intermediate_size
        &&& self.inter > 0
        &&& self.attn_max_wg > 0
        &&& self.attn_tb > 0
        &&& c.num_key_value_heads * self.attn_max_wg <= usize::MAX
    }
}

/// Rows up to a scratch's own have their bytes within a buffer of the scratch.
pub proof fn lemma_rows_fit(m: Model, rows: nat, n: nat, b: ScratchBuffer)
    requires
        m.plans(rows),
        n <= allocation::padded_rows(rows),
        !allocation::is_fixed(b),
    ensures
        n * allocation::row_bytes(m.cfg, m.max_t, b) <= usize::MAX,
        n * allocation::row_bytes(m.cfg, m.max_t, b) <= allocation::buffer_bytes(m.cfg, m.max_t, rows, b),
{
    let row = allocation::row_bytes(m.cfg, m.max_t, b);
    let bytes = allocation::buffer_bytes(m.cfg, m.max_t, rows, b);
    assert(allocation::paged(bytes) <= usize::MAX);
    allocation::lemma_paged(bytes);
    assert(n * row <= allocation::padded_rows(rows) * row) by (nonlinear_arith)
        requires
            n <= allocation::padded_rows(rows),
    ;
}

/// A product of positive factors is at least the product of some of them.
pub proof fn lemma_partial(n: nat, k: nat, x: nat, y: nat, limit: nat)
    requires
        n * (k * (x * y)) <= limit,
        k > 0,
        x > 0,
        y > 0,
    ensures
        n * x <= limit,
        n * y <= limit,
        n * (x * y) <= limit,
        n * x * y == n * (x * y),
        n * (x * y) * k == n * (k * (x * y)),
{
    assert(n * (x * y) <= n * (k * (x * y))) by (nonlinear_arith)
        requires
            k > 0,
    ;
    assert(n * x <= n * (x * y) && n * y <= n * (x * y)) by (nonlinear_arith)
        requires
            x > 0,
            y > 0,
    ;
    assert(n * x * y == n * (x * y)) by (nonlinear_arith);
    assert(n * (x * y) * k == n * (k * (x * y))) by (nonlinear_arith);
}

/// A product with one positive factor left out.
pub proof fn lemma_single(n: nat, k: nat, x: nat, limit: nat)
    requires
        n * (k * x) <= limit,
        k > 0,
    ensures
        n * x <= limit,
        n * x * k == n * (k * x),
{
    assert(n * x <= n * (k * x)) by (nonlinear_arith)
        requires
            k > 0,
    ;
    assert(n * x * k == n * (k * x)) by (nonlinear_arith);
}

} // verus!
