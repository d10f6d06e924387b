//! One prompt chunk through the trunk and the draft head.
//!
//! A chunk runs in stages. The device work of a stage is a command list; after a layer's
//! list the program reads the routes, streams the layer's experts, and goes on with the
//! next stage. The caches and positions are left as row-batched steps would leave them.

use crate::number::{Real32, ONE32};
use crate::qwen4_exp::gpu::experts;
use crate::qwen4_exp::gpu::experts::router_b;
use crate::qwen4_exp::gpu::hyperconnection;
use crate::qwen4_exp::gpu::hyperconnection::{group_norm_b, group_params};
use crate::qwen4_exp::gpu::launch;
use crate::qwen4_exp::gpu::launch::{args3, args4, threads, Arg, Buf, Command, GroupParams, Hc, Pipe, RowBuffer};
use crate::qwen4_exp::gpu::model::{Layer, Mix, Model, Mtp};
use crate::qwen4_exp::gpu::mtp;
use crate::qwen4_exp::gpu::mtp::{embed_rows, fold_rows};
use crate::qwen4_exp::gpu::prefill::allocation::{Scratch, ScratchBuffer};
use crate::qwen4_exp::gpu::prefill::attention;
use crate::qwen4_exp::gpu::prefill::attention::pf_attention;
use crate::qwen4_exp::gpu::prefill::deltanet;
use crate::qwen4_exp::gpu::prefill::deltanet::pf_deltanet;
use crate::qwen4_exp::gpu::prefill::hyperconnection as pf_hyper;
use crate::qwen4_exp::gpu::prefill::hyperconnection::{pf_hc_read, pf_inject};
use crate::qwen4_exp::gpu::prefill::ple;
use crate::qwen4_exp::gpu::prefill::ple::pf_ple;
use crate::qwen4_exp::gpu::prefill::stats::{ChunkStats, PrefillStats};
use vstd::prelude::*;

verus! {

/// Why a chunk cannot run.
#[derive(Debug, Clone, Copy, PartialEq, Eq, Structural)]
pub enum ChunkError {
    Empty,
    Capacity,
}

impl ChunkError {
    pub fn message(&self) -> (r: &'static str)
        ensures
            r@ == match *self {
                ChunkError::Empty => "empty chunk"@,
                ChunkError::Capacity => "context capacity exceeded"@,
            },
    {
        match self {
            ChunkError::Empty => "empty chunk",
            ChunkError::Capacity => "context capacity exceeded",
        }
    }
}

/// Where a sequence stands.
#[derive(Debug)]
pub struct Sequence {
    /// Tokens committed to the trunk's caches.
    pub pos: usize,
    /// Tokens in the draft head's cache.
    pub mtp_len: usize,
    /// The batch of the last step: its first position and its rows.
    pub batch_pos: usize,
    pub batch_nb: usize,
    pub tokens: Vec<u32>,
}

/// The stages of a chunk.
#[derive(Debug, Clone, Copy, PartialEq, Eq, Structural)]
pub enum Stage {
    /// Token embeddings into the replicated stream.
    Embed,
    /// A trunk layer, then its experts.
    Layer(usize),
    /// The last injection and the output head on the last row.
    Head,
    /// The draft head's input stream.
    DraftInput,
    /// The draft head's layer, then its experts.
    DraftLayer,
    /// The draft head's output.
    DraftHead,
    Done,
}

/// The stage behind `stage` in a trunk of `layers`.
pub open spec fn next_stage(stage: Stage, layers: int, drafts: bool) -> Stage {
    match stage {
        Stage::Embed => if layers > 0 {
            Stage::Layer(0)
        } else {
            Stage::Head
        },
        Stage::Layer(li) => if li + 1 < layers {
            Stage::Layer((li + 1) as usize)
        } else {
            Stage::Head
        },
        Stage::Head => if drafts {
            Stage::DraftInput
        } else {
            Stage::Done
        },
        Stage::DraftInput => Stage::DraftLayer,
        Stage::DraftLayer => Stage::DraftHead,
        Stage::DraftHead => Stage::Done,
        Stage::Done => Stage::Done,
    }
}

impl Stage {
    pub fn next(&self, layers: usize, drafts: bool) -> (r: Stage)
        requires
            *self matches Stage::Layer(li) ==> li < layers,
        ensures
            r == next_stage(*self, layers as int, drafts),
            r matches Stage::Layer(li) ==> li < layers,
    {
        match self {
            Stage::Embed => if layers > 0 {
                Stage::Layer(0)
            } else {
                Stage::Head
            },
            Stage::Layer(li) => if *li + 1 < layers {
                Stage::Layer(*li + 1)
            } else {
                Stage::Head
            },
            Stage::Head => if drafts {
                Stage::DraftInput
            } else {
                Stage::Done
            },
            Stage::DraftInput => Stage::DraftLayer,
            Stage::DraftLayer => Stage::DraftHead,
            Stage::DraftHead => Stage::Done,
            Stage::Done => Stage::Done,
        }
    }
}

/// The stages still to come, counted.
pub open spec fn stages_left(stage: Stage, layers: int, drafts: bool) -> int {
    let tail = if drafts {
        5int
    } else {
        2
    };
    match stage {
        Stage::Embed => layers + tail,
        Stage::Layer(li) => layers - li - 1 + tail,
        Stage::Head => tail - 1,
        Stage::DraftInput => 3,
        Stage::DraftLayer => 2,
        Stage::DraftHead => 1,
        Stage::Done => 0,
    }
}

/// A chunk reaches its end: every stage leaves one fewer.
pub proof fn law_stages_end(stage: Stage, layers: int, drafts: bool)
    requires
        0 <= layers <= usize::MAX,
        stage matches Stage::Layer(li) ==> li < layers,
        stage != Stage::Done,
        !drafts ==> !(stage is DraftInput || stage is DraftLayer || stage is DraftHead),
    ensures
        0 <= stages_left(next_stage(stage, layers, drafts), layers, drafts) < stages_left(stage, layers, drafts),
{
}

impl Sequence {
    /// The positions are consistent with the tokens.
    pub open spec fn wf(self) -> bool {
        self.pos <= self.tokens.len()
    }

    /// What beginning a chunk does: an empty one, or one that does not fit the context, leaves
    /// everything as it is; the tokens of another replace whatever followed the committed ones.
    pub open spec fn begins(self, chunk: Seq<u32>, max_t: usize, r: Result<(), ChunkError>, after: Sequence) -> bool {
        &&& r == if chunk.len() < 1 {
            Err::<(), ChunkError>(ChunkError::Empty)
        } else if self.pos + chunk.len() > max_t {
            Err(ChunkError::Capacity)
        } else {
            Ok(())
        }
        &&& r is Err ==> after == self
        &&& r is Ok ==> {
            &&& after.tokens@ == self.tokens@.take(self.pos as int) + chunk
            &&& (after.pos, after.mtp_len, after.batch_pos, after.batch_nb) == (
                self.pos,
                self.mtp_len,
                self.batch_pos,
                self.batch_nb,
            )
        }
    }

    /// Begin a chunk: its tokens replace whatever followed the committed ones.
    pub fn begin_chunk(&mut self, chunk: &[u32], max_t: usize) -> (r: Result<(), ChunkError>)
        requires
            old(self).wf(),
            old(self).pos + chunk.len() <= usize::MAX,
        ensures
            old(self).begins(chunk@, max_t, r, *final(self)),
            final(self).wf(),
    {
        if chunk.len() < 1 {
            return Err(ChunkError::Empty);
        }
        if self.pos + chunk.len() > max_t {
            return Err(ChunkError::Capacity);
        }
        self.tokens.truncate(self.pos);
        self.tokens.extend_from_slice(chunk);
        assert(self.tokens@ =~= old(self).tokens@.take(old(self).pos as int) + chunk@);
        Ok(())
    }

    /// What ending a chunk of `t` rows does: they are committed, to the draft head's cache
    /// where it ran too.
    pub open spec fn ends(self, t: usize, drafted: bool, after: Sequence) -> bool {
        &&& after.pos == self.pos + t
        &&& after.batch_pos == self.pos + t
        &&& after.batch_nb == 0
        &&& after.mtp_len == if drafted {
            self.pos + t
        } else {
            self.mtp_len as int
        }
        &&& after.tokens == self.tokens
    }

    /// End a chunk of `t` rows: everything is committed.
    pub fn end_chunk(&mut self, t: usize, drafted: bool)
        requires
            old(self).pos + t <= old(self).tokens.len(),
        ensures
            old(self).ends(t, drafted, *final(self)),
            final(self).wf(),
    {
        let end: usize = self.pos + t;
        if drafted {
            self.mtp_len = end;
        }
        self.pos = end;
        self.batch_pos = end;
        self.batch_nb = 0;
    }

    /// Finish a chunk: its rows are committed and it is counted. The answer is the token after
    /// the chunk and the draft behind it, which is the same token without a draft head.
    pub fn finish_chunk(&mut self, stats: &mut PrefillStats, chunk: ChunkStats, cur: u32, draft: Option<u32>) -> (r: (
        u32,
        u32,
    ))
        requires
            old(self).pos + chunk.tokens <= old(self).tokens.len(),
            old(stats).countable(chunk),
        ensures
            old(self).ends(chunk.tokens, draft is Some, *final(self)),
            final(self).wf(),
            *final(stats) == old(stats).with(chunk),
            r == answer_of(cur, draft),
    {
        self.end_chunk(chunk.tokens, draft.is_some());
        stats.record(chunk);
        match draft {
            Some(d) => (cur, d),
            None => (cur, cur),
        }
    }
}

/// The answer of a chunk: the token after it and the draft behind that token, which is the
/// same token without a draft head.
pub open spec fn answer_of(cur: u32, draft: Option<u32>) -> (u32, u32) {
    (
        cur,
        match draft {
            Some(d) => d,
            None => cur,
        },
    )
}

/// A chunk is refused, with nothing changed, exactly where it is empty or does not fit the
/// context. Otherwise, once it is finished, the position is behind it, the history is what was
/// committed and then the chunk, one more chunk of its tokens is counted, and the draft is the
/// next token without a draft head; with one, the draft head's cache holds as much as the
/// trunk's.
pub proof fn law_chunk_committed(
    start: Sequence,
    chunk: Seq<u32>,
    max_t: usize,
    begun: Result<(), ChunkError>,
    running: Sequence,
    work: ChunkStats,
    stats: PrefillStats,
    cur: u32,
    draft: Option<u32>,
    done: Sequence,
)
    requires
        start.wf(),
        start.begins(chunk, max_t, begun, running),
        work.tokens == chunk.len(),
        stats.countable(work),
        begun is Ok ==> running.ends(work.tokens, draft is Some, done),
    ensures
        begun is Err <==> chunk.len() == 0 || start.pos + chunk.len() > max_t,
        begun is Err ==> running == start,
        begun is Ok ==> {
            &&& running.pos + work.tokens <= running.tokens@.len()
            &&& done.pos == start.pos + chunk.len()
            &&& done.tokens@ == start.tokens@.take(start.pos as int) + chunk
            &&& done.wf()
            &&& stats.with(work).chunks == stats.chunks + 1
            &&& stats.with(work).tokens == stats.tokens + chunk.len()
            &&& answer_of(cur, draft).0 == cur
            &&& draft is None ==> answer_of(cur, draft).1 == cur && done.mtp_len == start.mtp_len
            &&& draft is Some ==> answer_of(cur, draft).1 == draft->0 && done.mtp_len == done.pos
        },
{
}

/// The tokens that follow each row of a chunk: its own from the second on, then the known
/// next token or the trunk's choice.
pub fn draft_tokens(chunk: &[u32], next_after: Option<u32>, chosen: u32) -> (r: Vec<u32>)
    requires
        chunk.len() >= 1,
    ensures
        r@ == chunk@.skip(1).push(
            match next_after {
                Some(t) => t,
                None => chosen,
            },
        ),
{
    let mut next: Vec<u32> = Vec::new();
    let mut i: usize = 1;
    while i < chunk.len()
        invariant
            1 <= i <= chunk.len(),
            next@ == chunk@.subrange(1, i as int),
        decreases chunk.len() - i,
    {
        next.push(chunk[i]);
        assert(next@ =~= chunk@.subrange(1, i + 1));
        i = i + 1;
    }
    assert(chunk@.subrange(1, chunk.len() as int) =~= chunk@.skip(1));
    next.push(
        match next_after {
            Some(t) => t,
            None => chosen,
        },
    );
    next
}

// ---- command lists ----
/// Embeddings of `t` rows into the replicated stream.
pub open spec fn embed_stage(m: Model, t: int) -> Seq<Command> {
    let e = Buf::Scratch(ScratchBuffer::E);
    seq![
        mtp::embed_command(m, Buf::Scratch(ScratchBuffer::Ids), e, 0, t),
        threads(
            Pipe::ReplicateB,
            args4(
                Arg::Bind(e, 0),
                Arg::Bind(Buf::Scratch(ScratchBuffer::Hyper), 0),
                Arg::Group(hyperconnection::grouping(m, false, Real32 { bits: 0 })),
                Arg::Word(t as u32),
            ),
            (t * m.cfg.stream()) as usize,
            256,
        ),
    ]
}

pub fn embed_chunk(out: &mut Vec<Command>, m: &Model, t: usize)
    requires
        m.plans(t as nat),
    ensures
        final(out)@ == old(out)@ + embed_stage(*m, t as int),
{
    let ghost start = out@;
    proof {
        hyperconnection::lemma_stream_products(*m, t as nat);
    }
    let e: Buf = Buf::Scratch(ScratchBuffer::E);
    embed_rows(out, m, Buf::Scratch(ScratchBuffer::Ids), e, 0, t);
    let gp: GroupParams = group_params(m, false, Real32 { bits: 0 });
    out.push(
        threads(
            Pipe::ReplicateB,
            args4(
                Arg::Bind(e, 0),
                Arg::Bind(Buf::Scratch(ScratchBuffer::Hyper), 0),
                Arg::Group(gp),
                Arg::Word(t as u32),
            ),
            t * m.cfg.hc_hidden(),
            256,
        ),
    );
    assert(out@ =~= start + embed_stage(*m, t as int));
}

/// The n-gram block of a layer that has one; a pending output is injected before it.
pub open spec fn ngram_commands(m: Model, layer: Layer, base: int, t: int, hyper: Buf, pending: Option<Buf>) -> Seq<Command> {
    match layer.ple {
        None => Seq::empty(),
        Some(pl) => (match pending {
            Some(output) => seq![
                hyperconnection::inject_command(m, hyper, output, Buf::Scratch(ScratchBuffer::Inj), t),
            ],
            None => Seq::empty(),
        }) + ple::pf_ple_commands(m, pl, base, t),
    }
}

/// The mixer of a layer over `t` rows.
pub open spec fn pf_mixer_commands(m: Model, mix: Mix, base: int, t: int) -> Seq<Command> {
    if m.skips.mixer {
        Seq::empty()
    } else {
        match mix {
            Mix::Attn(a) => attention::pf_attention_commands(m, a, base, t),
            Mix::Delta(d) => deltanet::pf_deltanet_commands(m, d, t),
        }
    }
}

pub open spec fn pf_router_commands(m: Model, layer: Layer, t: int) -> Seq<Command> {
    experts::router_commands(
        m,
        layer.moe,
        t,
        Buf::Scratch(ScratchBuffer::Mixed),
        Buf::Scratch(ScratchBuffer::Router),
        Buf::Scratch(ScratchBuffer::TopkIdx),
        Buf::Scratch(ScratchBuffer::TopkW),
        m.cfg.num_experts_per_tok,
    )
}

/// A layer over `t` rows of `hyper` up to its routes.
pub open spec fn pf_layer_commands(m: Model, layer: Layer, base: int, t: int, hyper: Buf, pending: Option<Buf>) -> Seq<Command> {
    let left = if layer.ple is Some {
        None
    } else {
        pending
    };
    ngram_commands(m, layer, base, t, hyper, pending) + pf_hyper::pf_hc_read_commands(
        m,
        layer.attn_hc,
        t,
        hyper,
        left,
        true,
    ) + pf_mixer_commands(m, layer.mix, base, t) + pf_hyper::pf_hc_read_commands(
        m,
        layer.mlp_hc,
        t,
        hyper,
        Some(Buf::Scratch(ScratchBuffer::MixOut)),
        true,
    ) + pf_router_commands(m, layer, t)
}

/// The residual gates of a chunk of `t` rows have a machine-sized count of words.
pub open spec fn gates_fit(hc: Hc, t: int) -> bool {
    t * hc.down.out <= u32::MAX
}

fn ngram_stage(out: &mut Vec<Command>, m: &Model, layer: &Layer, base: usize, t: usize, hyper: Buf, pending: Option<Buf>)
    requires
        m.plans(t as nat),
        base + t <= m.max_t,
    ensures
        final(out)@ == old(out)@ + ngram_commands(*m, *layer, base as int, t as int, hyper, pending),
{
    let ghost start = out@;
    match &layer.ple {
        None => {
            assert(out@ =~= out@ + Seq::<Command>::empty());
        },
        Some(pl) => {
            match pending {
                Some(output) => {
                    pf_inject(out, m, hyper, output, Buf::Scratch(ScratchBuffer::Inj), t);
                    proof {
                        let x = seq![
                            hyperconnection::inject_command(
                                *m,
                                hyper,
                                output,
                                Buf::Scratch(ScratchBuffer::Inj),
                                t as int,
                            ),
                        ];
                        assert(out@ =~= start + x);
                        launch::lemma_behind(start, x, ple::pf_ple_commands(*m, *pl, base as int, t as int));
                    }
                },
                None => {
                    proof {
                        let x = Seq::<Command>::empty();
                        assert(out@ =~= start + x);
                        launch::lemma_behind(start, x, ple::pf_ple_commands(*m, *pl, base as int, t as int));
                    }
                },
            }
            pf_ple(out, m, pl, base, t);
        },
    }
}

fn pf_mixer_stage(out: &mut Vec<Command>, m: &Model, mix: &Mix, base: usize, t: usize)
    requires
        m.plans(t as nat),
        base + t <= m.max_t,
    ensures
        final(out)@ == old(out)@ + pf_mixer_commands(*m, *mix, base as int, t as int),
{
    if m.skips.mixer {
        assert(out@ =~= out@ + Seq::<Command>::empty());
        return;
    }
    match mix {
        Mix::Attn(a) => {
            pf_attention(out, m, a, base, t);
        },
        Mix::Delta(d) => {
            pf_deltanet(out, m, d, t);
        },
    }
}

/// Plan a layer over `t` rows of `hyper` from position `base`, up to its routes.
pub fn pf_layer(out: &mut Vec<Command>, m: &Model, layer: &Layer, base: usize, t: usize, hyper: Buf, pending: Option<Buf>)
    requires
        m.plans(t as nat),
        base + t <= m.max_t,
        gates_fit(layer.attn_hc, t as int),
        gates_fit(layer.mlp_hc, t as int),
    ensures
        final(out)@ == old(out)@ + pf_layer_commands(*m, *layer, base as int, t as int, hyper, pending),
{
    let ghost start = out@;
    ngram_stage(out, m, layer, base, t, hyper, pending);
    let ghost s1 = ngram_commands(*m, *layer, base as int, t as int, hyper, pending);
    let left: Option<Buf> = if layer.ple.is_some() { None } else { pending };
    pf_hc_read(out, m, &layer.attn_hc, t, hyper, left, true);
    let ghost x2 = pf_hyper::pf_hc_read_commands(*m, layer.attn_hc, t as int, hyper, left, true);
    let ghost s2 = s1 + x2;
    proof {
        launch::lemma_behind(start, s1, x2);
    }
    pf_mixer_stage(out, m, &layer.mix, base, t);
    let ghost x3 = pf_mixer_commands(*m, layer.mix, base as int, t as int);
    let ghost s3 = s2 + x3;
    proof {
        launch::lemma_behind(start, s2, x3);
    }
    pf_hc_read(out, m, &layer.mlp_hc, t, hyper, Some(Buf::Scratch(ScratchBuffer::MixOut)), true);
    let ghost x4 = pf_hyper::pf_hc_read_commands(
        *m,
        layer.mlp_hc,
        t as int,
        hyper,
        Some(Buf::Scratch(ScratchBuffer::MixOut)),
        true,
    );
    let ghost s4 = s3 + x4;
    proof {
        launch::lemma_behind(start, s3, x4);
    }
    router_b(
        out,
        m,
        &layer.moe,
        t,
        Buf::Scratch(ScratchBuffer::Mixed),
        Buf::Scratch(ScratchBuffer::Router),
        Buf::Scratch(ScratchBuffer::TopkIdx),
        Buf::Scratch(ScratchBuffer::TopkW),
        m.cfg.num_experts_per_tok,
    );
    proof {
        launch::lemma_behind(start, s4, pf_router_commands(*m, *layer, t as int));
    }
}

/// The output of the last block is injected, and the output head runs on the last row; all
/// rows' logits are kept where the scratch has room for them.
pub open spec fn head_stage(m: Model, t: int, kept_logits: bool) -> Seq<Command> {
    let hyper = Buf::Scratch(ScratchBuffer::Hyper);
    seq![
        hyperconnection::inject_command(
            m,
            hyper,
            Buf::Scratch(ScratchBuffer::MoeOut),
            Buf::Scratch(ScratchBuffer::Inj),
            t,
        ),
    ] + (if kept_logits {
        pf_hyper::pf_hc_read_commands(m, m.final_mixer, t, hyper, None, false).push(
            attention::product(m.lm_head, ScratchBuffer::Mixed, ScratchBuffer::LogitsAll, t),
        )
    } else {
        Seq::empty()
    }) + seq![
        Command::Head {
            mixer: m.final_mixer,
            rows: 1,
            hyper,
            offset: ((t - 1) * (4 * m.cfg.stream())) as usize,
            pending: None,
            logits: Buf::Row(RowBuffer::Logits),
            ids_out: m.ids.chosen,
        },
    ]
}

proof fn lemma_last_row(m: Model, t: nat)
    requires
        m.plans(t),
        t >= 1,
    ensures
        0 <= (t - 1) * (4 * m.cfg.stream()) <= usize::MAX,
        4 * m.cfg.stream() <= usize::MAX,
        m.cfg.stream() <= usize::MAX,
{
    hyperconnection::lemma_stream_products(m, t);
    let w = 4 * m.cfg.stream();
    assert(0 <= (t - 1) * w <= t * w && w <= t * w) by (nonlinear_arith)
        requires
            t >= 1,
            w >= 0,
    ;
}

/// Plan the output head of a chunk.
pub fn head_chunk(out: &mut Vec<Command>, m: &Model, t: usize, kept_logits: bool)
    requires
        m.plans(t as nat),
        t >= 1,
        gates_fit(m.final_mixer, t as int),
    ensures
        final(out)@ == old(out)@ + head_stage(*m, t as int, kept_logits),
{
    let ghost start = out@;
    let hyper: Buf = Buf::Scratch(ScratchBuffer::Hyper);
    proof {
        lemma_last_row(*m, t as nat);
    }
    pf_inject(out, m, hyper, Buf::Scratch(ScratchBuffer::MoeOut), Buf::Scratch(ScratchBuffer::Inj), t);
    let ghost s1 = seq![
        hyperconnection::inject_command(
            *m,
            hyper,
            Buf::Scratch(ScratchBuffer::MoeOut),
            Buf::Scratch(ScratchBuffer::Inj),
            t as int,
        ),
    ];
    assert(out@ =~= start + s1);
    let ghost x2 = if kept_logits {
        pf_hyper::pf_hc_read_commands(*m, m.final_mixer, t as int, hyper, None, false).push(
            attention::product(m.lm_head, ScratchBuffer::Mixed, ScratchBuffer::LogitsAll, t as int),
        )
    } else {
        Seq::<Command>::empty()
    };
    if kept_logits {
        let ghost before = out@;
        pf_hc_read(out, m, &m.final_mixer, t, hyper, None, false);
        out.push(
            Command::Qmm {
                weights: m.lm_head,
                x: Buf::Scratch(ScratchBuffer::Mixed),
                y: Buf::Scratch(ScratchBuffer::LogitsAll),
                rows: t,
            },
        );
        assert(out@ =~= before + x2);
    } else {
        assert(out@ =~= out@ + x2);
    }
    proof {
        launch::lemma_behind(start, s1, x2);
    }
    let ghost before = out@;
    out.push(
        Command::Head {
            mixer: m.final_mixer,
            rows: 1,
            hyper,
            offset: (t - 1) * (4 * m.cfg.hc_hidden()),
            pending: None,
            logits: Buf::Row(RowBuffer::Logits),
            ids_out: m.ids.chosen,
        },
    );
    proof {
        let x3 = seq![
            Command::Head {
                mixer: m.final_mixer,
                rows: 1,
                hyper,
                offset: ((t - 1) * (4 * m.cfg.stream())) as usize,
                pending: None,
                logits: Buf::Row(RowBuffer::Logits),
                ids_out: m.ids.chosen,
            },
        ];
        assert(out@ =~= before + x3);
        launch::lemma_behind(start, s1 + x2, x3);
    }
}

/// The draft head's input stream over a chunk: row `r` pairs the trunk's residual with the
/// embedding of the token after it.
pub open spec fn draft_input_stage(m: Model, head: Mtp, t: int) -> Seq<Command> {
    let c = m.cfg;
    let h = c.hidden_size as u32;
    let one = Real32 { bits: ONE32 };
    let e = Buf::Scratch(ScratchBuffer::E);
    let hyper = Buf::Scratch(ScratchBuffer::Hyper);
    let mixed = Buf::Scratch(ScratchBuffer::Mixed);
    let normed = Buf::Scratch(ScratchBuffer::Normed);
    seq![
        mtp::embed_command(m, Buf::Scratch(ScratchBuffer::Ids), e, 0, t),
        hyperconnection::group_norm_command(m, e, 0, head.enorm, mixed, h, 1, one, t),
        attention::product(head.fc_e, ScratchBuffer::Mixed, ScratchBuffer::Fe, t),
        hyperconnection::group_norm_command(m, hyper, 0, head.hnorm, normed, h, c.hc_count as u32, one, t),
        attention::product(head.fc_h, ScratchBuffer::Normed, ScratchBuffer::Fh, t * c.hc_count),
        mtp::fold_command(
            m,
            Buf::Scratch(ScratchBuffer::Fe),
            Buf::Scratch(ScratchBuffer::Fh),
            Buf::Scratch(ScratchBuffer::MtpHyper),
            t,
        ),
    ]
}

/// Plan the draft head's input stream over a chunk.
pub fn draft_input(out: &mut Vec<Command>, m: &Model, head: &Mtp, t: usize)
    requires
        m.plans(t as nat),
    ensures
        final(out)@ == old(out)@ + draft_input_stage(*m, *head, t as int),
{
    let ghost start = out@;
    let c = &m.cfg;
    let h: u32 = c.hidden_size as u32;
    let one: Real32 = Real32 { bits: ONE32 };
    let e: Buf = Buf::Scratch(ScratchBuffer::E);
    let mixed: Buf = Buf::Scratch(ScratchBuffer::Mixed);
    let normed: Buf = Buf::Scratch(ScratchBuffer::Normed);
    let fe: Buf = Buf::Scratch(ScratchBuffer::Fe);
    let fh: Buf = Buf::Scratch(ScratchBuffer::Fh);
    proof {
        hyperconnection::lemma_stream_products(*m, t as nat);
    }
    embed_rows(out, m, Buf::Scratch(ScratchBuffer::Ids), e, 0, t);
    group_norm_b(out, m, e, 0, head.enorm, mixed, h, 1, one, t);
    out.push(Command::Qmm { weights: head.fc_e, x: mixed, y: fe, rows: t });
    group_norm_b(
        out,
        m,
        Buf::Scratch(ScratchBuffer::Hyper),
        0,
        head.hnorm,
        normed,
        h,
        c.hc_count as u32,
        one,
        t,
    );
    out.push(Command::Qmm { weights: head.fc_h, x: normed, y: fh, rows: t * c.hc_count });
    fold_rows(out, m, fe, fh, Buf::Scratch(ScratchBuffer::MtpHyper), t);
    assert(out@ =~= start + draft_input_stage(*m, *head, t as int));
}

/// The draft head's output on the last row, whose residual is kept where chained drafts
/// re-enter.
pub open spec fn draft_head_stage(m: Model, head: Mtp, t: int) -> Seq<Command> {
    let hyper = Buf::Scratch(ScratchBuffer::MtpHyper);
    let last = ((t - 1) * (4 * m.cfg.stream())) as usize;
    seq![
        hyperconnection::inject_command(
            m,
            hyper,
            Buf::Scratch(ScratchBuffer::MoeOut),
            Buf::Scratch(ScratchBuffer::Inj),
            t,
        ),
        Command::Head {
            mixer: head.mixer,
            rows: 1,
            hyper,
            offset: last,
            pending: None,
            logits: Buf::Row(RowBuffer::MtpLogits),
            ids_out: m.ids.draft_out,
        },
        threads(
            Pipe::CopyF32,
            args3(
                Arg::Bind(hyper, last),
                Arg::Bind(Buf::Row(RowBuffer::MtpHyper), 0),
                Arg::Word(m.cfg.stream() as u32),
            ),
            m.cfg.stream() as usize,
            256,
        ),
    ]
}

/// Plan the draft head's output of a chunk.
pub fn draft_head(out: &mut Vec<Command>, m: &Model, head: &Mtp, t: usize)
    requires
        m.plans(t as nat),
        t >= 1,
    ensures
        final(out)@ == old(out)@ + draft_head_stage(*m, *head, t as int),
{
    let ghost start = out@;
    let hyper: Buf = Buf::Scratch(ScratchBuffer::MtpHyper);
    proof {
        lemma_last_row(*m, t as nat);
    }
    let width: usize = m.cfg.hc_hidden();
    let last: usize = (t - 1) * (4 * width);
    pf_inject(out, m, hyper, Buf::Scratch(ScratchBuffer::MoeOut), Buf::Scratch(ScratchBuffer::Inj), t);
    out.push(
        Command::Head {
            mixer: head.mixer,
            rows: 1,
            hyper,
            offset: last,
            pending: None,
            logits: Buf::Row(RowBuffer::MtpLogits),
            ids_out: m.ids.draft_out,
        },
    );
    out.push(
        threads(
            Pipe::CopyF32,
            args3(Arg::Bind(hyper, last), Arg::Bind(Buf::Row(RowBuffer::MtpHyper), 0), Arg::Word(width as u32)),
            width,
            256,
        ),
    );
    assert(out@ =~= start + draft_head_stage(*m, *head, t as int));
}

/// The device work of one stage of a chunk at `pos`; none behind the last.
pub open spec fn stage_commands(
    m: Model,
    layers: Seq<Layer>,
    head: Option<Mtp>,
    pos: int,
    t: int,
    scratch: Scratch,
    stage: Stage,
) -> Seq<Command> {
    match stage {
        Stage::Embed => embed_stage(m, t),
        Stage::Layer(li) => pf_layer_commands(
            m,
            layers[li as int],
            pos,
            t,
            Buf::Scratch(ScratchBuffer::Hyper),
            if li > 0 {
                Some(Buf::Scratch(ScratchBuffer::MoeOut))
            } else {
                None
            },
        ),
        Stage::Head => head_stage(m, t, scratch.logits),
        Stage::DraftInput => draft_input_stage(m, head->0, t),
        Stage::DraftLayer => pf_layer_commands(
            m,
            head->0.layer,
            pos,
            t,
            Buf::Scratch(ScratchBuffer::MtpHyper),
            None,
        ),
        Stage::DraftHead => draft_head_stage(m, head->0, t),
        Stage::Done => Seq::empty(),
    }
}

/// Plan one stage of a chunk of `t` rows at `pos`.
pub fn prefill_chunk(
    out: &mut Vec<Command>,
    m: &Model,
    layers: &Vec<Layer>,
    head: Option<&Mtp>,
    pos: usize,
    t: usize,
    scratch: Scratch,
    stage: Stage,
)
    requires
        m.plans(t as nat),
        t >= 1,
        pos + t <= m.max_t,
        stage matches Stage::Layer(li) ==> li < layers.len(),
        stage is DraftInput || stage is DraftLayer || stage is DraftHead ==> head is Some,
        gates_fit(m.final_mixer, t as int),
        forall|i: int|
            0 <= i < layers.len() ==> gates_fit((#[trigger] layers@[i]).attn_hc, t as int) && gates_fit(
                layers@[i].mlp_hc,
                t as int,
            ),
        head matches Some(h) ==> gates_fit(h.layer.attn_hc, t as int) && gates_fit(h.layer.mlp_hc, t as int),
    ensures
        final(out)@ == old(out)@ + stage_commands(
            *m,
            layers@,
            match head {
                Some(h) => Some(*h),
                None => None,
            },
            pos as int,
            t as int,
            scratch,
            stage,
        ),
{
    match stage {
        Stage::Embed => {
            embed_chunk(out, m, t);
        },
        Stage::Layer(li) => {
            let pending: Option<Buf> = if li > 0 { Some(Buf::Scratch(ScratchBuffer::MoeOut)) } else { None };
            assert(gates_fit(layers@[li as int].attn_hc, t as int));
            pf_layer(out, m, &layers[li], pos, t, Buf::Scratch(ScratchBuffer::Hyper), pending);
        },
        Stage::Head => {
            head_chunk(out, m, t, scratch.logits);
        },
        Stage::DraftInput => {
            if let Some(h) = head {
                draft_input(out, m, h, t);
            }
        },
        Stage::DraftLayer => {
            if let Some(h) = head {
                pf_layer(out, m, &h.layer, pos, t, Buf::Scratch(ScratchBuffer::MtpHyper), None);
            }
        },
        Stage::DraftHead => {
            if let Some(h) = head {
                draft_head(out, m, h, t);
            }
        },
        Stage::Done => {
            assert(out@ =~= out@ + Seq::<Command>::empty());
        },
    }
}

/// A chunk begins where it has a token and fits the context behind what is there; what the sequence
/// held beyond its position is replaced by the chunk. A refused one changes nothing.
pub proof fn law_chunk_begins(s: &mut Sequence, chunk: &[u32], max_t: usize, r: Result<(), ChunkError>)
    requires
        call_ensures(Sequence::begin_chunk, (s, chunk, max_t), r),
        old(s).wf(),
    ensures
        r is Ok <==> chunk@.len() > 0 && old(s).pos + chunk@.len() <= max_t,
        chunk@.len() == 0 <==> r == Err::<(), ChunkError>(ChunkError::Empty),
        r is Err ==> *final(s) == *old(s),
        r is Ok ==> final(s).tokens@ == old(s).tokens@.take(old(s).pos as int) + chunk@ && final(s).pos == old(s).pos
            && final(s).mtp_len == old(s).mtp_len,
{
}

/// A chunk that ends moves the sequence on by its tokens, and the draft cache with it where the chunk
/// was drafted from.
pub proof fn law_chunk_ends(s: &mut Sequence, t: usize, drafted: bool)
    requires
        call_ensures(Sequence::end_chunk, (s, t, drafted), ()),
        old(s).pos + t <= old(s).tokens@.len(),
    ensures
        final(s).pos == old(s).pos + t,
        final(s).batch_pos == old(s).pos + t,
        final(s).batch_nb == 0,
        drafted ==> final(s).mtp_len == old(s).pos + t,
        !drafted ==> final(s).mtp_len == old(s).mtp_len,
        final(s).tokens@ == old(s).tokens@,
{
}

/// Stages follow one another: the embedding, each layer once and in order, the head, and the draft's
/// three where there is one.
pub proof fn law_stage_follows(stage: Stage, layers: usize, drafts: bool, r: Stage)
    requires
        call_ensures(Stage::next, (&stage, layers, drafts), r),
        stage matches Stage::Layer(li) ==> li < layers,
    ensures
        stage is Embed && layers > 0 ==> r == Stage::Layer(0),
        stage is Embed && layers == 0 ==> r is Head,
        stage matches Stage::Layer(li) ==> (li + 1 < layers ==> r == Stage::Layer((li + 1) as usize)) && (li + 1 == layers
            ==> r is Head),
        stage is Head ==> (drafts ==> r is DraftInput) && (!drafts ==> r is Done),
        stage is DraftInput ==> r is DraftLayer,
        stage is DraftLayer ==> r is DraftHead,
        stage is DraftHead || stage is Done ==> r is Done,
{
}

/// A draft starts from the chunk's tokens one place on, and behind them the next token where it is
/// known, else the one that was chosen.
pub proof fn law_draft_tokens(chunk: &[u32], next_after: Option<u32>, chosen: u32, r: Vec<u32>, i: int)
    requires
        call_ensures(draft_tokens, (chunk, next_after, chosen), r),
        chunk@.len() >= 1,
        0 <= i < chunk@.len() - 1,
    ensures
        r@.len() == chunk@.len(),
        r@[i] == chunk@[i + 1],
        next_after is None ==> r@.last() == chosen,
        next_after matches Some(t) ==> r@.last() == t,
{
}

} // verus!
