//! A chunk under way: a machine that the device drives from stage to stage.
//!
//! The device runs the command list of each stage. Behind a layer it reports what the layer's
//! blocks took, behind the output head the token that it chose, and behind the draft head the
//! draft. When the last stage is done, the chunk is committed and answered.

use crate::qwen4_exp::gpu::launch::Command;
use crate::qwen4_exp::gpu::model::{Layer, Model, Mtp};
use crate::qwen4_exp::gpu::prefill::allocation;
use crate::qwen4_exp::gpu::prefill::allocation::{chunk_scratch, Scratch};
use crate::qwen4_exp::gpu::prefill::chunk;
use crate::qwen4_exp::gpu::prefill::chunk::{draft_tokens, prefill_chunk, ChunkError, Sequence, Stage};
use crate::qwen4_exp::gpu::prefill::stats::{BlockKind, BlockWork, ChunkStats, PrefillStats};
use vstd::prelude::*;

verus! {

/// A chunk under way.
#[derive(Debug)]
pub struct ChunkRun {
    pub stage: Stage,
    pub tokens: Vec<u32>,
    /// The token that follows the chunk, where it is known.
    pub next_after: Option<u32>,
    /// The layers of the trunk that run.
    pub layers: usize,
    /// Whether there is a draft head.
    pub drafts: bool,
    pub scratch: Scratch,
    pub work: ChunkStats,
    /// The trunk's choice behind the last row.
    pub chosen: Option<u32>,
    pub draft: Option<u32>,
}

/// Nothing done yet for a chunk of so many tokens.
pub open spec fn no_work(tokens: usize) -> ChunkStats {
    ChunkStats {
        tokens,
        ns: 0,
        fetched: 0,
        fetched_bytes: 0,
        wait_ns: 0,
        gpu_delta_ns: 0,
        gpu_attn_ns: 0,
        gpu_experts_ns: 0,
        gpu_mtp_ns: 0,
        ngram_ns: 0,
    }
}

impl ChunkRun {
    /// The output head has run.
    pub open spec fn past_head(stage: Stage) -> bool {
        stage is DraftInput || stage is DraftLayer || stage is DraftHead || stage is Done
    }

    /// What is known fits the stage.
    pub open spec fn wf(self) -> bool {
        &&& self.tokens@.len() >= 1
        &&& self.work.tokens == self.tokens@.len()
        &&& self.stage matches Stage::Layer(li) ==> li < self.layers
        &&& self.stage is DraftInput || self.stage is DraftLayer || self.stage is DraftHead ==> self.drafts
        &&& self.chosen is Some <==> ChunkRun::past_head(self.stage)
        &&& self.draft is Some <==> self.stage is Done && self.drafts
    }

    /// The stage behind the current one.
    pub open spec fn following(self) -> Stage {
        chunk::next_stage(self.stage, self.layers as int, self.drafts)
    }

    /// The device work of the current stage, for a chunk at `pos`.
    pub fn plan(&self, out: &mut Vec<Command>, m: &Model, layers: &Vec<Layer>, head: Option<&Mtp>, pos: usize)
        requires
            self.wf(),
            self.layers <= layers@.len(),
            self.drafts ==> head is Some,
            m.plans(self.tokens@.len()),
            pos + self.tokens@.len() <= m.max_t,
            chunk::gates_fit(m.final_mixer, self.tokens@.len() as int),
            forall|i: int|
                0 <= i < layers@.len() ==> chunk::gates_fit((#[trigger] layers@[i]).attn_hc, self.tokens@.len() as int)
                    && chunk::gates_fit(layers@[i].mlp_hc, self.tokens@.len() as int),
            head matches Some(h) ==> chunk::gates_fit(h.layer.attn_hc, self.tokens@.len() as int) && chunk::gates_fit(
                h.layer.mlp_hc,
                self.tokens@.len() as int,
            ),
        ensures
            final(out)@ == old(out)@ + chunk::stage_commands(
                *m,
                layers@,
                match head {
                    Some(h) => Some(*h),
                    None => None,
                },
                pos as int,
                self.tokens@.len() as int,
                self.scratch,
                self.stage,
            ),
    {
        prefill_chunk(out, m, layers, head, pos, self.tokens.len(), self.scratch, self.stage);
    }

    /// The device ran the embeddings, of the tokens or of the draft head's input.
    pub fn embedded(&mut self)
        requires
            old(self).wf(),
            old(self).stage is Embed || old(self).stage is DraftInput,
        ensures
            final(self).wf(),
            *final(self) == (ChunkRun { stage: old(self).following(), ..*old(self) }),
    {
        self.stage = self.stage.next(self.layers, self.drafts);
    }

    /// The device ran a layer and its experts. `kind` is the layer's, or the draft head's.
    pub fn ran_block(&mut self, kind: BlockKind, work: BlockWork)
        requires
            old(self).wf(),
            old(self).stage is Layer || old(self).stage is DraftLayer,
            kind == BlockKind::Draft <==> old(self).stage is DraftLayer,
            old(self).work.holds(kind, work),
        ensures
            final(self).wf(),
            *final(self) == (ChunkRun {
                stage: old(self).following(),
                work: old(self).work.with_block(kind, work),
                ..*old(self)
            }),
    {
        self.work.block(kind, work);
        self.stage = self.stage.next(self.layers, self.drafts);
    }

    /// The output head chose a token. With a draft head, the result is the token after each
    /// row, which the draft head pairs with the row.
    pub fn chose(&mut self, token: u32) -> (r: Option<Vec<u32>>)
        requires
            old(self).wf(),
            old(self).stage is Head,
        ensures
            final(self).wf(),
            *final(self) == (ChunkRun { stage: old(self).following(), chosen: Some(token), ..*old(self) }),
            match r {
                Some(next) => old(self).drafts && next@ == old(self).tokens@.skip(1).push(
                    match old(self).next_after {
                        Some(t) => t,
                        None => token,
                    },
                ),
                None => !old(self).drafts,
            },
    {
        self.chosen = Some(token);
        self.stage = self.stage.next(self.layers, self.drafts);
        if self.drafts {
            Some(draft_tokens(self.tokens.as_slice(), self.next_after, token))
        } else {
            None
        }
    }

    /// The draft head chose its draft.
    pub fn drafted(&mut self, token: u32)
        requires
            old(self).wf(),
            old(self).stage is DraftHead,
        ensures
            final(self).wf(),
            *final(self) == (ChunkRun { stage: old(self).following(), draft: Some(token), ..*old(self) }),
    {
        self.draft = Some(token);
        self.stage = self.stage.next(self.layers, self.drafts);
    }

    /// The chunk as it is counted: what its blocks took, in so much time, of which so much was
    /// spent on n-gram rows.
    pub open spec fn counted(self, ns: u128, ngram_ns: u128) -> ChunkStats {
        ChunkStats { ns, ngram_ns, ..self.work }
    }

    /// Whether the totals have room for the chunk.
    pub fn can_finish(&self, stats: &PrefillStats, ns: u128, ngram_ns: u128) -> (r: bool)
        ensures
            r == stats.countable(self.counted(ns, ngram_ns)),
    {
        stats.can_count(&ChunkStats { ns, ngram_ns, ..self.work })
    }

    /// The last stage is done: the chunk is committed, counted and answered.
    pub fn finish(self, sequence: &mut Sequence, stats: &mut PrefillStats, ns: u128, ngram_ns: u128) -> (r: (u32, u32))
        requires
            self.wf(),
            self.stage is Done,
            old(sequence).pos + self.tokens@.len() <= old(sequence).tokens@.len(),
            old(stats).countable(self.counted(ns, ngram_ns)),
        ensures
            old(sequence).ends(self.tokens@.len() as usize, self.drafts, *final(sequence)),
            final(sequence).wf(),
            *final(stats) == old(stats).with(self.counted(ns, ngram_ns)),
            r == chunk::answer_of(self.chosen->0, self.draft),
            !self.drafts ==> r.1 == r.0,
    {
        let work = ChunkStats { ns, ngram_ns, ..self.work };
        let chosen: u32 = match self.chosen {
            Some(token) => token,
            None => 0,
        };
        sequence.finish_chunk(stats, work, chosen, self.draft)
    }
}

impl Sequence {
    /// Starts a chunk at the current position, in the scratch that is kept or in a new one. The
    /// results are the chunk under way and whether the scratch has to be allocated.
    pub fn start_chunk(
        &mut self,
        tokens: Vec<u32>,
        next_after: Option<u32>,
        max_t: usize,
        layers: usize,
        drafts: bool,
        kept: Option<Scratch>,
        all_logits: bool,
    ) -> (r: Result<(ChunkRun, bool), ChunkError>)
        requires
            old(self).wf(),
            old(self).pos + tokens@.len() <= usize::MAX,
            max_t + 63 <= usize::MAX,
        ensures
            old(self).begins(
                tokens@,
                max_t,
                match r {
                    Ok(_) => Ok(()),
                    Err(e) => Err(e),
                },
                *final(self),
            ),
            final(self).wf(),
            r matches Ok((run, fresh)) ==> {
                &&& run.wf()
                &&& run.stage == Stage::Embed
                &&& run.tokens == tokens
                &&& run.next_after == next_after
                &&& run.layers == layers
                &&& run.drafts == drafts
                &&& run.scratch == allocation::scratch_of(kept, tokens@.len() as usize, all_logits)
                &&& fresh == !(kept matches Some(s) && s.rows >= tokens@.len() && (all_logits ==> s.logits))
                &&& run.work == no_work(tokens@.len() as usize)
                &&& run.chosen is None
                &&& run.draft is None
                &&& final(self).pos + run.tokens@.len() == final(self).tokens@.len()
            },
    {
        match self.begin_chunk(tokens.as_slice(), max_t) {
            Err(e) => Err(e),
            Ok(()) => {
                let (scratch, fresh) = chunk_scratch(kept, tokens.len(), all_logits);
                let work = ChunkStats {
                    tokens: tokens.len(),
                    ns: 0,
                    fetched: 0,
                    fetched_bytes: 0,
                    wait_ns: 0,
                    gpu_delta_ns: 0,
                    gpu_attn_ns: 0,
                    gpu_experts_ns: 0,
                    gpu_mtp_ns: 0,
                    ngram_ns: 0,
                };
                let run = ChunkRun {
                    stage: Stage::Embed,
                    tokens,
                    next_after,
                    layers,
                    drafts,
                    scratch,
                    work,
                    chosen: None,
                    draft: None,
                };
                Ok((run, fresh))
            },
        }
    }
}

/// A chunk starts at the first stage, with all its tokens and no work; scratch that serves is used
/// again.
pub proof fn law_chunk_starts(
    s: &mut Sequence,
    tokens: Vec<u32>,
    next_after: Option<u32>,
    max_t: usize,
    layers: usize,
    drafts: bool,
    kept: Option<Scratch>,
    all_logits: bool,
    run: ChunkRun,
    fresh: bool,
)
    requires
        call_ensures(Sequence::start_chunk, (s, tokens, next_after, max_t, layers, drafts, kept, all_logits), Ok((run, fresh))),
        old(s).wf(),
        tokens@.len() + 63 <= usize::MAX,
    ensures
        run.stage is Embed && run.tokens@ == tokens@ && run.next_after == next_after && run.layers == layers && run.drafts
            == drafts,
        run.chosen is None && run.draft is None,
        run.work.tokens == tokens@.len() && run.work.fetched == 0 && run.work.ns == 0 && run.work.wait_ns == 0,
        fresh <==> !(kept is Some && kept->0.rows >= tokens@.len() && (all_logits ==> kept->0.logits)),
        !fresh ==> Some(run.scratch) == kept,
        run.scratch.rows >= tokens@.len(),
        final(s).tokens@.len() == final(s).pos + tokens@.len(),
{
    allocation::lemma_padded_rows(tokens@.len());
}

/// What follows a chunk is drafted from the chunk's tokens one place on, the next token behind them:
/// the one that is known, or the one that was chosen.
pub proof fn law_next_tokens(run: &mut ChunkRun, token: u32, r: Option<Vec<u32>>)
    requires
        call_ensures(ChunkRun::chose, (run, token), r),
        old(run).wf(),
        old(run).stage is Head,
    ensures
        final(run).chosen == Some(token),
        r is Some <==> old(run).drafts,
        r matches Some(next) ==> {
            let n = old(run).tokens@.len() as int;
            &&& next@.len() == n
            &&& forall|i: int| 0 <= i < n - 1 ==> #[trigger] next@[i] == old(run).tokens@[i + 1]
            &&& old(run).next_after is None ==> next@[n - 1] == token
            &&& old(run).next_after matches Some(t) ==> next@[n - 1] == t
        },
        final(run).tokens == old(run).tokens && final(run).work == old(run).work,
{
}

} // verus!
