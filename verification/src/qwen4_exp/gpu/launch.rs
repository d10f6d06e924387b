//! Device work as plain values: the buffers, kernels, parameters and passes that a plan
//! hands to the program for encoding.
//!
//! A launch's arguments are bound at the kernel's argument indices in order. The parameter
//! blocks keep the field order of the kernels' declarations.

use crate::number::Real32;
use crate::qwen4_exp::gpu::prefill::allocation::ScratchBuffer;
use vstd::prelude::*;

verus! {

/// A quantized matrix: offsets of its weights, scales and biases, and its dimensions.
#[derive(Debug, Clone, Copy)]
pub struct Q {
    pub w: usize,
    pub s: usize,
    pub b: usize,
    pub out: u32,
    pub inp: u32,
}

/// The three parts of a row batch prepared for quantized products.
#[derive(Debug, Clone, Copy, PartialEq, Eq, Structural)]
pub enum Part {
    Even,
    Odd,
    Sum,
}

/// Row batches that are prepared for quantized products.
#[derive(Debug, Clone, Copy, PartialEq, Eq, Structural)]
pub enum Prepared {
    /// The block input of a residual read.
    Input(Stream),
    /// The bottleneck of a residual read.
    Bottleneck(Stream),
    /// The experts' activations.
    Activations,
}

/// The buffers of a residual read: the block's own, or the lookahead's.
#[derive(Debug, Clone, Copy, PartialEq, Eq, Structural)]
pub enum Stream {
    Block,
    Lookahead,
}

/// The buffers of the decode scratch.
#[derive(Debug, Clone, Copy, PartialEq, Eq, Structural)]
pub enum RowBuffer {
    Ids,
    E,
    Hyper,
    MtpHyper,
    Qg,
    K,
    V,
    Iqk,
    Iq,
    Bscore,
    Vis,
    Nvis,
    Vmask,
    AttnParts,
    AttnOut,
    MixOut,
    MoeOut,
    Qkv,
    Z,
    A,
    B,
    Kqn,
    Gbuf,
    DeltaY,
    Router,
    TopkIdx,
    TopkW,
    LaRouter,
    LaIdx,
    LaW,
    GateE,
    YE,
    Fe,
    Fh,
    Logits,
    MtpLogits,
    MtpLogits2,
    /// The normed stream of a residual read.
    Normed(Stream),
    D(Stream),
    U(Stream),
    Mixed(Stream),
    Inj(Stream),
    Prep(Prepared, Part),
}

/// The state that a layer keeps on the device.
#[derive(Debug, Clone, Copy, PartialEq, Eq, Structural)]
pub enum LayerBuffer {
    Keys,
    Values,
    IndexKeys,
    IndexBlocks,
    ConvHistory,
    ConvSnapshots,
    State,
    StateSnapshots,
    NgramHistory,
}

/// A device buffer.
#[derive(Debug, Clone, Copy, PartialEq, Eq, Structural)]
pub enum Buf {
    /// The mapped dense weights.
    Dense,
    Row(RowBuffer),
    Scratch(ScratchBuffer),
    Layer(LayerBuffer),
    SlotTable,
    WeightMap,
    /// The ring of streamed expert records.
    Ring,
    /// A resident expert record's own region.
    Record(usize),
    /// The expert pool's slots.
    Pool,
}

/// Kernels. A row count selects the variant compiled for that many rows.
#[derive(Debug, Clone, Copy, PartialEq, Eq, Structural)]
pub enum Pipe {
    EmbedRows,
    ReplicateB,
    GroupNormB,
    NormPrepB,
    QmvSiluB(usize),
    HcMixB,
    InjectB,
    SiluRows,
    SiluMul,
    Bf16MatvecB,
    TopkSoftmaxB,
    MoeGateUpB(usize),
    MoeActB,
    MoeDownB(usize),
    MoeCombineB,
    SharedAddRows,
    GatherRows,
    ScatterAddRows,
    QkNormRopeB,
    IndexAppend,
    IndexBlocks,
    IndexQ,
    IndexScore,
    IndexSelect,
    KvAppendQ8,
    AttnSel,
    AttnPart2Q8,
    AttnCombine,
    AttnQStage,
    AttnKvStage,
    GemmHh,
    SoftmaxSel,
    AttnOScatter,
    ConvB,
    DeltaNorms,
    DeltaGates,
    DeltaScan2,
    GateNormSigmoidB,
    PleGateB,
    PleConvB,
    MtpFold,
    CopyF32,
}

#[derive(Debug, Clone, Copy)]
pub struct IndexParams {
    pub ihd: u32,
    pub inh: u32,
    pub qk_dim: u32,
    pub ratio: u32,
    pub rot: u32,
    pub theta: Real32,
    pub eps: Real32,
    pub base_pos: u32,
    pub nb: u32,
    pub b0: u32,
    pub b1: u32,
    pub k: u32,
    pub max_blocks: u32,
    pub vis_stride: u32,
    pub mask_words: u32,
}

#[derive(Debug, Clone, Copy)]
pub struct GroupParams {
    pub n: u32,
    pub groups: u32,
    pub eps: Real32,
    pub shift: Real32,
}

#[derive(Debug, Clone, Copy)]
pub struct NormPrepParams {
    pub n: u32,
    pub groups: u32,
    pub eps: Real32,
    pub inject: u32,
}

#[derive(Debug, Clone, Copy)]
pub struct MoeBParams {
    pub inter: u32,
    pub hidden: u32,
    pub n_u: u32,
    pub gate_w: u32,
    pub up_w: u32,
    pub down_w: u32,
    pub gate_s: u32,
    pub gate_b: u32,
    pub up_s: u32,
    pub up_b: u32,
    pub down_s: u32,
    pub down_b: u32,
    pub layer: u32,
    pub shared: u32,
    pub nb: u32,
    pub sh_gate_w: u32,
    pub sh_gate_s: u32,
    pub sh_gate_b: u32,
    pub sh_up_w: u32,
    pub sh_up_s: u32,
    pub sh_up_b: u32,
    pub sh_down_w: u32,
    pub sh_down_s: u32,
    pub sh_down_b: u32,
    pub sh_gate_vec: u32,
    pub part: u32,
    pub low_gate_w: u32,
    pub low_up_w: u32,
    pub low_down_w: u32,
    pub low_gate_s: u32,
    pub low_gate_b: u32,
    pub low_up_s: u32,
    pub low_up_b: u32,
    pub low_down_s: u32,
    pub low_down_b: u32,
}

#[derive(Debug, Clone, Copy)]
pub struct QmvParams {
    pub out_dim: u32,
    pub in_dim: u32,
}

#[derive(Debug, Clone, Copy)]
pub struct QkRopeParams {
    pub n_heads: u32,
    pub head_dim: u32,
    pub stride: u32,
    pub rot: u32,
    pub pos: u32,
    pub theta: Real32,
    pub eps: Real32,
}

#[derive(Debug, Clone, Copy)]
pub struct ConvParams {
    pub channels: u32,
    pub ksize: u32,
}

#[derive(Debug, Clone, Copy)]
pub struct DeltaPrepParams {
    pub n_k: u32,
    pub n_v: u32,
    pub d_k: u32,
    pub d_v: u32,
    pub eps: Real32,
    pub nb: u32,
    pub snap_after: u32,
}

#[derive(Debug, Clone, Copy)]
pub struct AttnPartParams {
    pub n_heads: u32,
    pub n_kv: u32,
    pub head_dim: u32,
    pub t_len: u32,
    pub q_stride: u32,
    pub q_off: u32,
    pub max_blk: u32,
    pub scale: Real32,
}

#[derive(Debug, Clone, Copy)]
pub struct KvQParams {
    pub row: u32,
    pub t0: u32,
    pub nb: u32,
    pub scale_off: u32,
}

#[derive(Debug, Clone, Copy)]
pub struct PleConvParams {
    pub channels: u32,
    pub ksize: u32,
    pub dilation: u32,
    pub span: u32,
    pub filled: u32,
    pub nb: u32,
}

#[derive(Debug, Clone, Copy)]
pub struct AttnGemmParams {
    pub kv_row: u32,
    pub blocks_per_row: u32,
    pub head: u32,
    pub kl: u32,
    pub kl_pad: u32,
    pub scale_off: u32,
    pub base: u32,
    pub nb: u32,
    pub n_rep: u32,
    pub scale: Real32,
}

#[derive(Debug, Clone, Copy)]
pub struct GemmHParams {
    pub m: u32,
    pub n: u32,
    pub k: u32,
    pub lda: u32,
    pub ldb: u32,
    pub ldc: u32,
}

#[derive(Debug, Clone, Copy)]
pub struct SelMaskParams {
    pub row0: u32,
    pub mask_words: u32,
    pub ratio: u32,
    pub k: u32,
}

/// One kernel argument.
#[derive(Debug, Clone, Copy)]
pub enum Arg {
    Nothing,
    /// A buffer from a byte offset.
    Bind(Buf, usize),
    Word(u32),
    Number(Real32),
    Index(IndexParams),
    Group(GroupParams),
    NormPrep(NormPrepParams),
    Moe(MoeBParams),
    Qmv(QmvParams),
    QkRope(QkRopeParams),
    Conv(ConvParams),
    DeltaPrep(DeltaPrepParams),
    AttnPart(AttnPartParams),
    KvQ(KvQParams),
    PleConv(PleConvParams),
    AttnGemm(AttnGemmParams),
    GemmH(GemmHParams),
    SelMask(SelMaskParams),
}

/// The arguments of a launch by index.
#[derive(Debug, Clone, Copy)]
pub struct Args {
    pub a0: Arg,
    pub a1: Arg,
    pub a2: Arg,
    pub a3: Arg,
    pub a4: Arg,
    pub a5: Arg,
    pub a6: Arg,
    pub a7: Arg,
    pub a8: Arg,
}

#[verifier::allow_in_spec]
pub fn args3(a0: Arg, a1: Arg, a2: Arg) -> Args
    returns
        (Args {
            a0,
            a1,
            a2,
            a3: Arg::Nothing,
            a4: Arg::Nothing,
            a5: Arg::Nothing,
            a6: Arg::Nothing,
            a7: Arg::Nothing,
            a8: Arg::Nothing,
        }),
{
    Args {
        a0,
        a1,
        a2,
        a3: Arg::Nothing,
        a4: Arg::Nothing,
        a5: Arg::Nothing,
        a6: Arg::Nothing,
        a7: Arg::Nothing,
        a8: Arg::Nothing,
    }
}

#[verifier::allow_in_spec]
pub fn args4(a0: Arg, a1: Arg, a2: Arg, a3: Arg) -> Args
    returns
        (Args { a3, ..args3(a0, a1, a2) }),
{
    Args { a3, ..args3(a0, a1, a2) }
}

#[verifier::allow_in_spec]
pub fn args5(a0: Arg, a1: Arg, a2: Arg, a3: Arg, a4: Arg) -> Args
    returns
        (Args { a4, ..args4(a0, a1, a2, a3) }),
{
    Args { a4, ..args4(a0, a1, a2, a3) }
}

#[verifier::allow_in_spec]
pub fn args6(a0: Arg, a1: Arg, a2: Arg, a3: Arg, a4: Arg, a5: Arg) -> Args
    returns
        (Args { a5, ..args5(a0, a1, a2, a3, a4) }),
{
    Args { a5, ..args5(a0, a1, a2, a3, a4) }
}

#[verifier::allow_in_spec]
pub fn args7(a0: Arg, a1: Arg, a2: Arg, a3: Arg, a4: Arg, a5: Arg, a6: Arg) -> Args
    returns
        (Args { a6, ..args6(a0, a1, a2, a3, a4, a5) }),
{
    Args { a6, ..args6(a0, a1, a2, a3, a4, a5) }
}

#[verifier::allow_in_spec]
pub fn args8(a0: Arg, a1: Arg, a2: Arg, a3: Arg, a4: Arg, a5: Arg, a6: Arg, a7: Arg) -> Args
    returns
        (Args { a7, ..args7(a0, a1, a2, a3, a4, a5, a6) }),
{
    Args { a7, ..args7(a0, a1, a2, a3, a4, a5, a6) }
}

#[verifier::allow_in_spec]
pub fn args9(a0: Arg, a1: Arg, a2: Arg, a3: Arg, a4: Arg, a5: Arg, a6: Arg, a7: Arg, a8: Arg) -> Args
    returns
        (Args { a8, ..args8(a0, a1, a2, a3, a4, a5, a6, a7) }),
{
    Args { a8, ..args8(a0, a1, a2, a3, a4, a5, a6, a7) }
}

/// What a launch's size counts.
#[derive(Debug, Clone, Copy, PartialEq, Eq, Structural)]
pub enum Grid {
    /// Single threads, in groups of the given size.
    Threads(usize),
    /// Whole groups of the given size.
    Groups(usize),
}

/// One kernel launch.
#[derive(Debug, Clone, Copy)]
pub struct Launch {
    pub pipe: Pipe,
    pub args: Args,
    pub grid: Grid,
    /// Threads per group.
    pub group: usize,
}

/// The weights of a gated residual read.
#[derive(Debug, Clone, Copy)]
pub struct Hc {
    pub norm: usize,
    pub down: Q,
    pub up: Q,
    pub inject: Option<Q>,
}

/// The events that order the device and the processor.
#[derive(Debug, Clone, Copy, PartialEq, Eq, Structural)]
pub enum Event {
    /// Router and fetched-part signals, and prefill batches done.
    Main,
    /// Completion of the resident experts.
    Resident,
    /// Prefill batches fetched.
    Fetched,
}

/// One step of device work.
#[derive(Debug, Clone, Copy)]
pub enum Command {
    Launch(Launch),
    /// `y = x * weights` over rows.
    Qmm { weights: Q, x: Buf, y: Buf, rows: usize },
    /// The same with weights of `bits` in an expert record.
    ExpertQmm { record: Buf, weights: Q, x: Buf, y: Buf, rows: usize, bits: u32 },
    /// `y = x * weights` over a few prepared rows.
    QmvH { weights: Q, y: Buf, rows: usize, input: Prepared },
    /// Prepare rows of `width` from a byte offset for quantized products.
    PrepH { x: Buf, offset: usize, width: u32, rows: usize, prepared: Prepared },
    Zero { buf: Buf, words: u32 },
    AddInto { into: Buf, from: Buf, count: usize },
    /// The output head over rows of a stream from a byte offset; the chosen tokens land in
    /// the id buffer from `ids_out`.
    Head {
        mixer: Hc,
        rows: usize,
        hyper: Buf,
        offset: usize,
        pending: Option<Buf>,
        logits: Buf,
        ids_out: usize,
    },
    /// The current compute pass ends and the next begins behind what follows.
    EndPass,
    BeginPass,
    Signal(Event, u64),
    Wait(Event, u64),
}

/// A launch over single threads.
#[verifier::allow_in_spec]
pub fn threads(pipe: Pipe, args: Args, count: usize, group: usize) -> Command
    returns
        (Command::Launch(Launch { pipe, args, grid: Grid::Threads(count), group })),
{
    Command::Launch(Launch { pipe, args, grid: Grid::Threads(count), group })
}

/// A launch over whole groups.
#[verifier::allow_in_spec]
pub fn groups(pipe: Pipe, args: Args, count: usize, group: usize) -> Command
    returns
        (Command::Launch(Launch { pipe, args, grid: Grid::Groups(count), group })),
{
    Command::Launch(Launch { pipe, args, grid: Grid::Groups(count), group })
}

/// Commands appended one after the other are one appended list.
pub proof fn lemma_behind(start: Seq<Command>, done: Seq<Command>, more: Seq<Command>)
    ensures
        (start + done) + more == start + (done + more),
{
    assert((start + done) + more =~= start + (done + more));
}

/// The bits of the recurrent layers' epsilon, one millionth.
pub const DELTA_EPS: u32 = 0x3586_37bd;

/// Numbers that the program derives from the model's real-valued settings.
#[derive(Debug, Clone, Copy)]
pub struct Figures {
    /// Rotated channels per head.
    pub rot: u32,
    pub theta: Real32,
    pub eps: Real32,
    /// The attention scale in base two.
    pub scale: Real32,
    /// The number of residual streams.
    pub streams: Real32,
    /// Where the scales of a quantized cache side begin.
    pub scale_off: usize,
}

} // verus!
