//! A prompt on its way into the caches: a machine that the device drives.
//!
//! The device runs a step's rows and answers with the token after them. Behind the rows the
//! draft head follows, as far as drafts are kept. What the last step leaves is where decoding
//! begins.

use crate::prefix_cache::plan;
use crate::prefix_cache::plan::{draft_work, prefill_steps, DraftWork, PrefillStep, StepLimits};
use crate::runner::{PrefillPath, PrefillResume};
use vstd::prelude::*;

verus! {

/// What is open behind the rows of a step.
#[derive(Debug)]
pub enum Drafting {
    /// No drafts are kept.
    Nothing,
    /// The engine's own draft is kept, and a second one chained behind it when `chain` is set.
    Engine { chain: bool },
    /// The draft head runs over the tokens after each row and gives so many drafts.
    Head { next: Vec<u32>, drafts: usize },
}

/// Where a prompt stands.
#[derive(Debug, Clone, Copy, PartialEq, Eq, Structural)]
pub enum Stage {
    /// The device has the next step to run.
    Rows,
    /// The device answered, and drafts are to come.
    Drafts,
    /// The step is done; a checkpoint may be taken behind it.
    Behind,
}

#[derive(Debug)]
pub struct Prefilling {
    pub ids: Vec<u32>,
    pub steps: Vec<PrefillStep>,
    /// The step that is next, or that is running.
    pub at: usize,
    pub n_draft: usize,
    pub seed: PrefillResume,
    pub stage: Stage,
}

/// The token behind the rows of a step: the prompt's, or the device's answer at its end.
pub open spec fn behind(ids: Seq<u32>, end: int, answer: u32) -> u32 {
    if end < ids.len() {
        ids[end]
    } else {
        answer
    }
}

/// The token after each row of a step.
pub open spec fn after_rows(ids: Seq<u32>, step: PrefillStep, answer: u32) -> Seq<u32> {
    ids.subrange(step.start + 1, step.end as int).push(behind(ids, step.end as int, answer))
}

/// Whether this is what is open behind a step.
pub open spec fn opens(ids: Seq<u32>, step: PrefillStep, answer: u32, n_draft: usize, d: Drafting) -> bool {
    let last = step.end == ids.len();
    if n_draft == 0 || (step.engine && !last) {
        d is Nothing
    } else if step.engine {
        d == Drafting::Engine { chain: n_draft >= 2 }
    } else {
        d matches Drafting::Head { next, drafts } && next@ == after_rows(ids, step, answer) && drafts == if last {
            n_draft
        } else {
            1
        }
    }
}

/// The steps of a prompt that nothing is cached of, along a path.
pub open spec fn path_steps(total: nat, path: PrefillPath, batch_rows: usize) -> Seq<PrefillStep> {
    match path {
        PrefillPath::Prepared => Seq::empty(),
        PrefillPath::Engine { chunk } => plan::steps_in(
            0,
            total as int,
            crate::runner::equal_chunk(total, chunk as nat) as int,
            true,
        ),
        PrefillPath::Rows => plan::steps_in(0, total as int, batch_rows as int, false),
    }
}

impl Prefilling {
    /// Steps have rows, and the rows are the prompt's.
    pub open spec fn wf(self) -> bool {
        &&& self.ids@.len() > 0
        &&& self.at <= self.steps@.len()
        &&& self.stage != Stage::Rows ==> self.at < self.steps@.len()
        &&& forall|i: int|
            0 <= i < self.steps@.len() ==> (#[trigger] self.steps@[i]).start < self.steps@[i].end
                <= self.ids@.len()
    }

    /// Everything but where the prompt stands and what it leaves.
    pub open spec fn same_prompt(self, other: Prefilling) -> bool {
        self.ids == other.ids && self.steps == other.steps && self.n_draft == other.n_draft
    }

    /// A prompt that nothing is cached of, or one that the caches hold already.
    pub fn new(ids: Vec<u32>, n_draft: usize, path: PrefillPath, batch_rows: usize, prepared: Option<PrefillResume>) -> (r:
        Prefilling)
        requires
            0 < ids@.len() < usize::MAX,
            batch_rows > 0,
            path matches PrefillPath::Engine { chunk } ==> chunk > 0,
        ensures
            r.wf(),
            r.ids == ids,
            r.n_draft == n_draft,
            r.at == 0,
            r.stage == Stage::Rows,
            r.steps@ == path_steps(ids@.len(), path, batch_rows),
            match prepared {
                Some(seed) => r.seed == seed,
                None => r.seed.next == ids@[0] && r.seed.drafts@.len() == 0,
            },
    {
        let total: usize = ids.len();
        let first: u32 = ids[0];
        let mut stops: Vec<usize> = Vec::new();
        let limits: StepLimits = match path {
            PrefillPath::Prepared => StepLimits { engine_min: 0, engine_rows: 1, batch_rows },
            PrefillPath::Engine { chunk } => {
                stops.push(total);
                StepLimits { engine_min: 0, engine_rows: chunk, batch_rows }
            },
            PrefillPath::Rows => {
                stops.push(total);
                StepLimits { engine_min: usize::MAX, engine_rows: 1, batch_rows }
            },
        };
        let steps: Vec<PrefillStep> = prefill_steps(0, stops.as_slice(), &limits);
        proof {
            if path is Prepared {
                assert(steps@ =~= Seq::empty());
            } else {
                assert(stops@.skip(1) =~= Seq::empty());
                assert(plan::steps_through(total as int, stops@.skip(1), limits) =~= Seq::empty());
                assert(steps@ =~= plan::steps_in(0, total as int, limits.size(total as int), limits.engine(total as int)));
                plan::lemma_size_positive(limits, total as int);
                plan::lemma_steps_in_join(0, total as int, limits.size(total as int), limits.engine(total as int));
                assert forall|i: int| 0 <= i < steps@.len() implies (#[trigger] steps@[i]).start < steps@[i].end
                    <= total by {
                    plan::lemma_joined_within(steps@, 0, total as int, i);
                }
            }
        }
        let seed: PrefillResume = match prepared {
            Some(seed) => seed,
            None => PrefillResume { next: first, drafts: Vec::new() },
        };
        Prefilling { ids, steps, at: 0, n_draft, seed, stage: Stage::Rows }
    }

    /// The step that the device runs next; nothing behind the last one.
    pub fn next(&self) -> (r: Option<PrefillStep>)
        requires
            self.wf(),
        ensures
            r == if self.at < self.steps@.len() {
                Some(self.steps@[self.at as int])
            } else {
                None
            },
    {
        if self.at < self.steps.len() {
            Some(self.steps[self.at])
        } else {
            None
        }
    }

    /// The rows of a step.
    pub fn rows(&self, step: &PrefillStep) -> (r: Vec<u32>)
        requires
            step.start <= step.end <= self.ids@.len(),
        ensures
            r@ == self.ids@.subrange(step.start as int, step.end as int),
    {
        let mut out: Vec<u32> = Vec::new();
        out.extend_from_slice(vstd::slice::slice_subrange(self.ids.as_slice(), step.start, step.end));
        assert(out@ =~= self.ids@.subrange(step.start as int, step.end as int));
        out
    }

    /// The prompt's token behind the rows of a step; nothing at the prompt's end.
    pub fn following(&self, step: &PrefillStep) -> (r: Option<u32>)
        ensures
            r == if step.end < self.ids@.len() {
                Some(self.ids@[step.end as int])
            } else {
                None
            },
    {
        if step.end < self.ids.len() {
            Some(self.ids[step.end])
        } else {
            None
        }
    }

    /// The device ran a step and answered with the token after it.
    pub fn answered(&mut self, answer: u32) -> (r: Drafting)
        requires
            old(self).wf(),
            old(self).stage == Stage::Rows,
            old(self).at < old(self).steps@.len(),
        ensures
            final(self).wf(),
            final(self).same_prompt(*old(self)),
            final(self).at == old(self).at,
            final(self).seed.next == answer,
            final(self).seed.drafts@.len() == 0,
            opens(old(self).ids@, old(self).steps@[old(self).at as int], answer, old(self).n_draft, r),
            final(self).stage == if r is Nothing {
                Stage::Behind
            } else {
                Stage::Drafts
            },
    {
        let step: PrefillStep = self.steps[self.at];
        self.seed = PrefillResume { next: answer, drafts: Vec::new() };
        let last: bool = step.end == self.ids.len();
        match draft_work(step.engine, last, self.n_draft) {
            DraftWork::Nothing => {
                self.stage = Stage::Behind;
                Drafting::Nothing
            },
            DraftWork::EngineDraft { chain } => {
                self.stage = Stage::Drafts;
                Drafting::Engine { chain }
            },
            DraftWork::Head { drafts } => {
                let mut next: Vec<u32> = Vec::new();
                next.extend_from_slice(vstd::slice::slice_subrange(self.ids.as_slice(), step.start + 1, step.end));
                next.push(
                    if last {
                        answer
                    } else {
                        self.ids[step.end]
                    },
                );
                assert(next@ =~= after_rows(self.ids@, step, answer));
                self.stage = Stage::Drafts;
                Drafting::Head { next, drafts }
            },
        }
    }

    /// The drafts behind a step have come.
    pub fn drafted(&mut self, drafts: Vec<u32>)
        requires
            old(self).wf(),
            old(self).stage == Stage::Drafts,
        ensures
            final(self).wf(),
            final(self).same_prompt(*old(self)),
            final(self).at == old(self).at,
            final(self).stage == Stage::Behind,
            final(self).seed == (PrefillResume { next: old(self).seed.next, drafts }),
    {
        self.seed.drafts = drafts;
        self.stage = Stage::Behind;
    }

    /// Goes on to the next step.
    pub fn advance(&mut self)
        requires
            old(self).wf(),
            old(self).stage == Stage::Behind,
        ensures
            final(self).wf(),
            final(self).same_prompt(*old(self)),
            final(self).at == old(self).at + 1,
            final(self).stage == Stage::Rows,
            final(self).seed == old(self).seed,
    {
        let count: usize = self.steps.len();
        assert(self.at < count);
        self.at = self.at + 1;
        self.stage = Stage::Rows;
    }
}

/// The steps of a prompt join without gap or overlap from its first token to its last, so that
/// what the last one leaves is the device's answer to the whole prompt; none is longer than
/// its path allows.
pub proof fn law_path_covers_prompt(total: nat, path: PrefillPath, batch_rows: usize, i: int)
    requires
        0 < total <= usize::MAX,
        batch_rows > 0,
        path matches PrefillPath::Engine { chunk } ==> chunk > 0,
        !(path is Prepared),
        0 <= i < path_steps(total, path, batch_rows).len(),
    ensures
        plan::joins(path_steps(total, path, batch_rows), 0, total as int),
        path_steps(total, path, batch_rows).last().end == total,
        ({
            let step = path_steps(total, path, batch_rows)[i];
            step.end - step.start <= match path {
                PrefillPath::Engine { chunk } => chunk,
                _ => batch_rows,
            }
        }),
{
    match path {
        PrefillPath::Engine { chunk } => {
            let size = crate::runner::equal_chunk(total, chunk as nat) as int;
            crate::runner::law_equal_chunks_minimal(total, chunk as nat);
            plan::lemma_steps_in_join(0, total as int, size, true);
            plan::lemma_steps_in_size(0, total as int, size, true, i);
        },
        _ => {
            plan::lemma_steps_in_join(0, total as int, batch_rows as int, false);
            plan::lemma_steps_in_size(0, total as int, batch_rows as int, false, i);
        },
    }
}

/// A prompt that nothing is cached of goes through the device once, from its first token to its
/// last, in order; by the engine, in chunks of at most the asked length, or by row batches.
pub proof fn law_new_prompt_runs_once(
    ids: Vec<u32>,
    n_draft: usize,
    path: PrefillPath,
    batch_rows: usize,
    prepared: Option<PrefillResume>,
    p: Prefilling,
    i: int,
)
    requires
        call_ensures(Prefilling::new, (ids, n_draft, path, batch_rows, prepared), p),
        0 < ids@.len() < usize::MAX,
        batch_rows > 0,
        path matches PrefillPath::Engine { chunk } ==> chunk > 0,
        0 <= i < p.steps@.len(),
    ensures
        !(path is Prepared),
        p.steps@[0].start == 0,
        p.steps@.last().end == ids@.len(),
        p.steps@[i].start < p.steps@[i].end,
        i > 0 ==> p.steps@[i].start == p.steps@[i - 1].end,
        p.steps@[i].engine == (path is Engine),
        p.steps@[i].end - p.steps@[i].start <= match path {
            PrefillPath::Engine { chunk } => chunk,
            _ => batch_rows,
        },
        p.at == 0,
        p.ids == ids,
{
    law_path_covers_prompt(ids@.len(), path, batch_rows, i);
    match path {
        PrefillPath::Engine { chunk } => {
            let size = crate::runner::equal_chunk(ids@.len(), chunk as nat) as int;
            crate::runner::law_equal_chunks_minimal(ids@.len(), chunk as nat);
            plan::lemma_step_of_stretch(0, ids@.len() as int, size, true, i);
        },
        _ => {
            plan::lemma_step_of_stretch(0, ids@.len() as int, batch_rows as int, false, i);
        },
    }
}

/// The rows of a step are the prompt's tokens from its start to its end, and what follows is the
/// prompt's next token.
pub proof fn law_rows_are_the_prompts(p: &Prefilling, step: &PrefillStep, rows: Vec<u32>, following: Option<u32>, i: int)
    requires
        step.start <= step.end <= p.ids@.len(),
        call_ensures(Prefilling::rows, (p, step), rows),
        call_ensures(Prefilling::following, (p, step), following),
    ensures
        rows@.len() == step.end - step.start,
        0 <= i < rows@.len() ==> rows@[i] == p.ids@[step.start + i],
        following is None <==> step.end == p.ids@.len(),
        following matches Some(t) ==> t == p.ids@[step.end as int],
{
}

/// Behind a step the device's answer is the next token, and drafts are open exactly where they
/// are kept: behind row batches always, behind the engine only at the prompt's end. The draft
/// head is given the token after each row: the prompt's own, or the answer at the prompt's end,
/// where as many drafts as asked for are wanted, and one before.
pub proof fn law_answered_step(p: &mut Prefilling, answer: u32, r: Drafting, i: int)
    requires
        old(p).wf(),
        old(p).stage == Stage::Rows,
        old(p).at < old(p).steps@.len(),
        call_ensures(Prefilling::answered, (p, answer), r),
    ensures
        final(p).seed.next == answer,
        ({
            let step = old(p).steps@[old(p).at as int];
            let last = step.end == old(p).ids@.len();
            &&& r is Nothing <==> old(p).n_draft == 0 || (step.engine && !last)
            &&& r is Engine <==> old(p).n_draft > 0 && step.engine && last
            &&& r matches Drafting::Engine { chain } ==> (chain <==> old(p).n_draft > 1)
            &&& r matches Drafting::Head { next, drafts } ==> {
                &&& next@.len() == step.end - step.start
                &&& 0 <= i < next@.len() && step.start + i + 1 < old(p).ids@.len() ==> next@[i] == old(p).ids@[step.start
                    + i + 1]
                &&& last ==> next@.last() == answer
                &&& drafts == if last {
                    old(p).n_draft
                } else {
                    1
                }
            }
        }),
{
}

} // verus!
