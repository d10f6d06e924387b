//! Cumulative completed prefill chunks. Going back in a sequence does not undo work.

use vstd::prelude::*;

verus! {

/// Timing of one prefill chunk, in nanoseconds.
#[derive(Debug, Clone, Copy)]
pub struct ChunkStats {
    pub tokens: usize,
    pub ns: u128,
    /// Expert records read from disk.
    pub fetched: usize,
    /// Bytes read in each record's stored precision.
    pub fetched_bytes: usize,
    /// What the reader waited for ring slots.
    pub wait_ns: u128,
    /// What the device took: delta blocks, attention blocks, expert streams, drafts.
    pub gpu_delta_ns: u128,
    pub gpu_attn_ns: u128,
    pub gpu_experts_ns: u128,
    pub gpu_mtp_ns: u128,
    /// What gathering n-gram rows took, page faults counted.
    pub ngram_ns: u128,
}

/// A block of a chunk.
#[derive(Debug, Clone, Copy, PartialEq, Eq, Structural)]
pub enum BlockKind {
    Delta,
    Attention,
    /// The draft head's block.
    Draft,
}

/// What one block of a chunk took.
#[derive(Debug, Clone, Copy)]
pub struct BlockWork {
    pub fetched: usize,
    pub fetched_bytes: usize,
    pub wait_ns: u128,
    /// What the device took up to the router, and for the experts behind it.
    pub block_ns: u128,
    pub experts_ns: u128,
}

impl ChunkStats {
    /// Whether one more block can be counted.
    pub open spec fn holds(self, kind: BlockKind, work: BlockWork) -> bool {
        &&& self.fetched + work.fetched <= usize::MAX
        &&& self.fetched_bytes + work.fetched_bytes <= usize::MAX
        &&& self.wait_ns + work.wait_ns <= u128::MAX
        &&& match kind {
            BlockKind::Delta => self.gpu_delta_ns + work.block_ns <= u128::MAX && self.gpu_experts_ns
                + work.experts_ns <= u128::MAX,
            BlockKind::Attention => self.gpu_attn_ns + work.block_ns <= u128::MAX && self.gpu_experts_ns
                + work.experts_ns <= u128::MAX,
            BlockKind::Draft => self.gpu_mtp_ns + work.block_ns + work.experts_ns <= u128::MAX,
        }
    }

    /// The chunk with one more block. The draft head's experts count as the draft head's.
    pub open spec fn with_block(self, kind: BlockKind, work: BlockWork) -> ChunkStats {
        let read = ChunkStats {
            fetched: (self.fetched + work.fetched) as usize,
            fetched_bytes: (self.fetched_bytes + work.fetched_bytes) as usize,
            wait_ns: (self.wait_ns + work.wait_ns) as u128,
            ..self
        };
        let experts = (self.gpu_experts_ns + work.experts_ns) as u128;
        match kind {
            BlockKind::Delta => ChunkStats {
                gpu_experts_ns: experts,
                gpu_delta_ns: (self.gpu_delta_ns + work.block_ns) as u128,
                ..read
            },
            BlockKind::Attention => ChunkStats {
                gpu_experts_ns: experts,
                gpu_attn_ns: (self.gpu_attn_ns + work.block_ns) as u128,
                ..read
            },
            BlockKind::Draft => ChunkStats {
                gpu_mtp_ns: (self.gpu_mtp_ns + work.block_ns + work.experts_ns) as u128,
                ..read
            },
        }
    }

    pub fn can_hold(&self, kind: BlockKind, work: &BlockWork) -> (r: bool)
        ensures
            r == self.holds(kind, *work),
    {
        if self.fetched > usize::MAX - work.fetched || self.fetched_bytes > usize::MAX - work.fetched_bytes
            || self.wait_ns > u128::MAX - work.wait_ns {
            return false;
        }
        match kind {
            BlockKind::Delta => self.gpu_delta_ns <= u128::MAX - work.block_ns && self.gpu_experts_ns <= u128::MAX
                - work.experts_ns,
            BlockKind::Attention => self.gpu_attn_ns <= u128::MAX - work.block_ns && self.gpu_experts_ns
                <= u128::MAX - work.experts_ns,
            BlockKind::Draft => work.block_ns <= u128::MAX - work.experts_ns && self.gpu_mtp_ns <= u128::MAX - (
            work.block_ns + work.experts_ns),
        }
    }

    /// Counts a block.
    pub fn block(&mut self, kind: BlockKind, work: BlockWork)
        requires
            old(self).holds(kind, work),
        ensures
            *final(self) == old(self).with_block(kind, work),
    {
        self.fetched = self.fetched + work.fetched;
        self.fetched_bytes = self.fetched_bytes + work.fetched_bytes;
        self.wait_ns = self.wait_ns + work.wait_ns;
        match kind {
            BlockKind::Delta => {
                self.gpu_experts_ns = self.gpu_experts_ns + work.experts_ns;
                self.gpu_delta_ns = self.gpu_delta_ns + work.block_ns;
            },
            BlockKind::Attention => {
                self.gpu_experts_ns = self.gpu_experts_ns + work.experts_ns;
                self.gpu_attn_ns = self.gpu_attn_ns + work.block_ns;
            },
            BlockKind::Draft => {
                self.gpu_mtp_ns = self.gpu_mtp_ns + work.block_ns + work.experts_ns;
            },
        }
    }
}

/// What all chunks took together.
#[derive(Debug, Clone, Copy)]
pub struct PrefillStats {
    pub chunks: u64,
    pub tokens: u64,
    pub min_chunk_tokens: usize,
    pub max_chunk_tokens: usize,
    pub ns: u128,
    pub ring_wait_ns: u128,
    pub gpu_delta_ns: u128,
    pub gpu_attention_ns: u128,
    pub gpu_expert_ns: u128,
    pub gpu_mtp_ns: u128,
    pub ngram_ns: u128,
}

impl PrefillStats {
    /// No chunk yet.
    pub open spec fn nothing() -> PrefillStats {
        PrefillStats {
            chunks: 0,
            tokens: 0,
            min_chunk_tokens: 0,
            max_chunk_tokens: 0,
            ns: 0,
            ring_wait_ns: 0,
            gpu_delta_ns: 0,
            gpu_attention_ns: 0,
            gpu_expert_ns: 0,
            gpu_mtp_ns: 0,
            ngram_ns: 0,
        }
    }

    /// Whether one more chunk can be counted.
    pub open spec fn countable(self, chunk: ChunkStats) -> bool {
        &&& self.chunks < u64::MAX
        &&& self.tokens + chunk.tokens <= u64::MAX
        &&& self.ns + chunk.ns <= u128::MAX
        &&& self.ring_wait_ns + chunk.wait_ns <= u128::MAX
        &&& self.gpu_delta_ns + chunk.gpu_delta_ns <= u128::MAX
        &&& self.gpu_attention_ns + chunk.gpu_attn_ns <= u128::MAX
        &&& self.gpu_expert_ns + chunk.gpu_experts_ns <= u128::MAX
        &&& self.gpu_mtp_ns + chunk.gpu_mtp_ns <= u128::MAX
        &&& self.ngram_ns + chunk.ngram_ns <= u128::MAX
    }

    /// The totals with one more chunk.
    pub open spec fn with(self, chunk: ChunkStats) -> PrefillStats {
        PrefillStats {
            chunks: (self.chunks + 1) as u64,
            tokens: (self.tokens + chunk.tokens) as u64,
            min_chunk_tokens: if self.chunks == 0 || chunk.tokens < self.min_chunk_tokens {
                chunk.tokens
            } else {
                self.min_chunk_tokens
            },
            max_chunk_tokens: if chunk.tokens > self.max_chunk_tokens {
                chunk.tokens
            } else {
                self.max_chunk_tokens
            },
            ns: (self.ns + chunk.ns) as u128,
            ring_wait_ns: (self.ring_wait_ns + chunk.wait_ns) as u128,
            gpu_delta_ns: (self.gpu_delta_ns + chunk.gpu_delta_ns) as u128,
            gpu_attention_ns: (self.gpu_attention_ns + chunk.gpu_attn_ns) as u128,
            gpu_expert_ns: (self.gpu_expert_ns + chunk.gpu_experts_ns) as u128,
            gpu_mtp_ns: (self.gpu_mtp_ns + chunk.gpu_mtp_ns) as u128,
            ngram_ns: (self.ngram_ns + chunk.ngram_ns) as u128,
        }
    }

    pub fn can_count(&self, chunk: &ChunkStats) -> (r: bool)
        ensures
            r == self.countable(*chunk),
    {
        self.chunks < u64::MAX && chunk.tokens as u64 <= u64::MAX - self.tokens && self.ns <= u128::MAX - chunk.ns
            && self.ring_wait_ns <= u128::MAX - chunk.wait_ns && self.gpu_delta_ns <= u128::MAX
            - chunk.gpu_delta_ns && self.gpu_attention_ns <= u128::MAX - chunk.gpu_attn_ns && self.gpu_expert_ns
            <= u128::MAX - chunk.gpu_experts_ns && self.gpu_mtp_ns <= u128::MAX - chunk.gpu_mtp_ns
            && self.ngram_ns <= u128::MAX - chunk.ngram_ns
    }

    /// Counts a completed chunk.
    pub fn record(&mut self, chunk: ChunkStats)
        requires
            old(self).countable(chunk),
        ensures
            *final(self) == old(self).with(chunk),
    {
        if self.chunks == 0 || chunk.tokens < self.min_chunk_tokens {
            self.min_chunk_tokens = chunk.tokens;
        }
        if chunk.tokens > self.max_chunk_tokens {
            self.max_chunk_tokens = chunk.tokens;
        }
        self.chunks = self.chunks + 1;
        self.tokens = self.tokens + chunk.tokens as u64;
        self.ns = self.ns + chunk.ns;
        self.ring_wait_ns = self.ring_wait_ns + chunk.wait_ns;
        self.gpu_delta_ns = self.gpu_delta_ns + chunk.gpu_delta_ns;
        self.gpu_attention_ns = self.gpu_attention_ns + chunk.gpu_attn_ns;
        self.gpu_expert_ns = self.gpu_expert_ns + chunk.gpu_experts_ns;
        self.gpu_mtp_ns = self.gpu_mtp_ns + chunk.gpu_mtp_ns;
        self.ngram_ns = self.ngram_ns + chunk.ngram_ns;
    }
}

impl Default for PrefillStats {
    fn default() -> (r: PrefillStats)
        ensures
            r == PrefillStats::nothing(),
    {
        PrefillStats {
            chunks: 0,
            tokens: 0,
            min_chunk_tokens: 0,
            max_chunk_tokens: 0,
            ns: 0,
            ring_wait_ns: 0,
            gpu_delta_ns: 0,
            gpu_attention_ns: 0,
            gpu_expert_ns: 0,
            gpu_mtp_ns: 0,
            ngram_ns: 0,
        }
    }
}

/// The totals of chunks.
pub open spec fn totals(chunks: Seq<ChunkStats>) -> PrefillStats
    decreases chunks.len(),
{
    if chunks.len() == 0 {
        PrefillStats::nothing()
    } else {
        totals(chunks.drop_last()).with(chunks.last())
    }
}

/// Every chunk's tokens lie between the smallest and the largest that the totals tell, and
/// both occurred.
pub proof fn law_extremes_bound_chunks(chunks: Seq<ChunkStats>)
    requires
        chunks.len() <= u64::MAX,
    ensures
        totals(chunks).chunks == chunks.len(),
        forall|i: int|
            0 <= i < chunks.len() ==> totals(chunks).min_chunk_tokens <= (#[trigger] chunks[i]).tokens
                <= totals(chunks).max_chunk_tokens,
        chunks.len() > 0 ==> exists|i: int|
            0 <= i < chunks.len() && (#[trigger] chunks[i]).tokens == totals(chunks).min_chunk_tokens,
    decreases chunks.len(),
{
    if chunks.len() > 0 {
        let shorter = chunks.drop_last();
        law_extremes_bound_chunks(shorter);
        assert forall|i: int| 0 <= i < chunks.len() implies totals(chunks).min_chunk_tokens <= (#[trigger] chunks[i]).tokens
            <= totals(chunks).max_chunk_tokens by {
            if i < shorter.len() {
                assert(shorter[i] == chunks[i]);
            }
        }
        if totals(chunks).min_chunk_tokens == chunks.last().tokens {
            assert(chunks[chunks.len() - 1].tokens == totals(chunks).min_chunk_tokens);
        } else {
            let i = choose|i: int|
                0 <= i < shorter.len() && (#[trigger] shorter[i]).tokens == totals(shorter).min_chunk_tokens;
            assert(chunks[i] == shorter[i]);
        }
    }
}

/// A block's fetches and waits are added to the chunk's; its time counts as its own kind's and its
/// experts' as the experts', but for a draft's block, of which both count as the draft's.
pub proof fn law_block_counted(c: &mut ChunkStats, kind: BlockKind, work: BlockWork)
    requires
        call_ensures(ChunkStats::block, (c, kind, work), ()),
        old(c).fetched + work.fetched <= usize::MAX,
        old(c).fetched_bytes + work.fetched_bytes <= usize::MAX,
        old(c).wait_ns + work.wait_ns <= u128::MAX,
        old(c).gpu_delta_ns + work.block_ns <= u128::MAX,
        old(c).gpu_attn_ns + work.block_ns <= u128::MAX,
        old(c).gpu_experts_ns + work.experts_ns <= u128::MAX,
        old(c).gpu_mtp_ns + work.block_ns + work.experts_ns <= u128::MAX,
    ensures
        final(c).fetched == old(c).fetched + work.fetched,
        final(c).fetched_bytes == old(c).fetched_bytes + work.fetched_bytes,
        final(c).wait_ns == old(c).wait_ns + work.wait_ns,
        final(c).gpu_delta_ns == old(c).gpu_delta_ns + (if kind is Delta {
            work.block_ns as int
        } else {
            0
        }),
        final(c).gpu_attn_ns == old(c).gpu_attn_ns + (if kind is Attention {
            work.block_ns as int
        } else {
            0
        }),
        final(c).gpu_experts_ns == old(c).gpu_experts_ns + (if kind is Draft {
            0
        } else {
            work.experts_ns as int
        }),
        final(c).gpu_mtp_ns == old(c).gpu_mtp_ns + (if kind is Draft {
            work.block_ns + work.experts_ns
        } else {
            0
        }),
        final(c).tokens == old(c).tokens && final(c).ns == old(c).ns && final(c).ngram_ns == old(c).ngram_ns,
{
}

/// A chunk counts once; its tokens and times are added to the totals, and it is the shortest or the
/// longest where none was shorter or longer.
pub proof fn law_chunk_recorded(s: &mut PrefillStats, chunk: ChunkStats)
    requires
        call_ensures(PrefillStats::record, (s, chunk), ()),
        old(s).chunks < u64::MAX,
        old(s).tokens + chunk.tokens <= u64::MAX,
        old(s).ns + chunk.ns <= u128::MAX,
        old(s).ring_wait_ns + chunk.wait_ns <= u128::MAX,
        old(s).gpu_delta_ns + chunk.gpu_delta_ns <= u128::MAX,
        old(s).gpu_attention_ns + chunk.gpu_attn_ns <= u128::MAX,
        old(s).gpu_expert_ns + chunk.gpu_experts_ns <= u128::MAX,
        old(s).gpu_mtp_ns + chunk.gpu_mtp_ns <= u128::MAX,
        old(s).ngram_ns + chunk.ngram_ns <= u128::MAX,
    ensures
        final(s).chunks == old(s).chunks + 1,
        final(s).tokens == old(s).tokens + chunk.tokens,
        final(s).ns == old(s).ns + chunk.ns,
        final(s).ring_wait_ns == old(s).ring_wait_ns + chunk.wait_ns,
        final(s).gpu_delta_ns == old(s).gpu_delta_ns + chunk.gpu_delta_ns,
        final(s).gpu_attention_ns == old(s).gpu_attention_ns + chunk.gpu_attn_ns,
        final(s).gpu_expert_ns == old(s).gpu_expert_ns + chunk.gpu_experts_ns,
        final(s).gpu_mtp_ns == old(s).gpu_mtp_ns + chunk.gpu_mtp_ns,
        final(s).ngram_ns == old(s).ngram_ns + chunk.ngram_ns,
        final(s).max_chunk_tokens >= chunk.tokens && final(s).max_chunk_tokens >= old(s).max_chunk_tokens,
        final(s).max_chunk_tokens == chunk.tokens || final(s).max_chunk_tokens == old(s).max_chunk_tokens,
        final(s).min_chunk_tokens <= chunk.tokens,
        old(s).chunks == 0 ==> final(s).min_chunk_tokens == chunk.tokens,
        old(s).chunks > 0 ==> final(s).min_chunk_tokens <= old(s).min_chunk_tokens && (final(s).min_chunk_tokens
            == chunk.tokens || final(s).min_chunk_tokens == old(s).min_chunk_tokens),
{
}

} // verus!
