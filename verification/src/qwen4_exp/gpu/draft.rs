//! Drafting after a commit: a machine that the device drives from pass to pass.
//!
//! The head runs over the committed rows, each paired with the token that follows it, and then
//! over single rows, each on the draft before it. Where the trunk's step ran the head already,
//! its answer is the first draft, and the others come from one batch of passes.

use crate::qwen4_exp::gpu::mtp;
use crate::qwen4_exp::gpu::mtp::{draft_pass, mtp_draft, DraftError, DraftPlan, Pass};
use crate::qwen4_exp::gpu::prefill::chunk::Sequence;
use vstd::prelude::*;

verus! {

/// A draft under way.
#[derive(Debug)]
pub struct DraftRun {
    /// The first committed position and the committed rows.
    pub batch_pos: usize,
    pub rows: usize,
    /// How many drafts are asked for.
    pub chain: usize,
    /// Whether the trunk's step ran the head.
    pub folded: bool,
    /// The passes that came back.
    pub made: usize,
    /// The tokens of the next pass.
    pub tokens: Vec<u32>,
    pub drafts: Vec<u32>,
}

/// What the device does next for a draft.
#[derive(Debug, Clone, Copy, PartialEq, Eq, Structural)]
pub enum DraftWork {
    /// One pass over the run's tokens.
    Pass(Pass),
    /// So many chained passes in one command list, from a token behind the committed rows.
    Batch { seed: u32, passes: usize },
    Done,
}

/// The first `n` tokens that passes answered for the row behind the last committed one.
pub open spec fn last_answers(answers: Seq<Seq<u32>>, n: nat) -> Seq<u32> {
    Seq::new(n, |i: int| answers[i].last())
}

impl DraftRun {
    /// The passes that are run one by one.
    pub open spec fn passes(self) -> int {
        if self.folded {
            0
        } else if self.chain < 1 {
            1
        } else {
            self.chain as int
        }
    }

    /// The drafts that are there: one for each pass that counts, and the folded one first.
    pub open spec fn wf(self, seq: Sequence) -> bool {
        &&& self.rows >= 1
        &&& self.batch_pos == seq.batch_pos
        &&& self.batch_pos + self.rows <= usize::MAX
        &&& self.folded || self.made > 0 ==> seq.mtp_len == self.batch_pos + self.rows
        &&& !self.folded ==> {
            &&& self.made <= self.passes()
            &&& self.drafts@.len() == if self.made < self.chain {
                self.made
            } else {
                self.chain
            }
            &&& self.tokens@.len() == if self.made == 0 {
                self.rows
            } else {
                1
            }
        }
        &&& self.folded ==> {
            &&& self.tokens@.len() == 1
            &&& self.drafts@.len() <= self.chain
            &&& self.chain > 0 ==> self.drafts@.len() > 0 && self.drafts@[0] == self.tokens@[0]
            &&& self.made == 0 ==> self.drafts@.len() <= 1
            &&& self.made > 0 ==> self.drafts@.len() == self.chain
        }
    }

    /// Whether every draft is there.
    pub open spec fn done(self) -> bool {
        if self.folded {
            self.chain < 2 || self.made > 0
        } else {
            self.made == self.passes()
        }
    }

    /// What comes next. A pass that the context does not hold is an error.
    pub fn next(&self, max_t: usize) -> (r: Result<DraftWork, DraftError>)
        requires
            self.rows >= 1,
            self.tokens@.len() >= 1,
            !self.done() ==> self.batch_pos + self.rows + self.made <= usize::MAX,
        ensures
            match r {
                Ok(DraftWork::Done) => self.done(),
                Ok(DraftWork::Batch { seed, passes }) => !self.done() && self.folded && seed == self.tokens@[0] && passes
                    == self.chain - 1,
                Ok(DraftWork::Pass(pass)) => !self.done() && !self.folded && pass == mtp::unfolded_pass(
                    self.batch_pos as int,
                    self.rows as int,
                    self.made as int,
                ) && pass.base_pos + pass.rows <= max_t,
                Err(e) => {
                    let pass = mtp::unfolded_pass(self.batch_pos as int, self.rows as int, self.made as int);
                    !self.done() && !self.folded && e == DraftError::Capacity && pass.base_pos + pass.rows > max_t
                },
            },
    {
        if self.folded {
            if self.chain < 2 || self.made > 0 {
                Ok(DraftWork::Done)
            } else {
                Ok(DraftWork::Batch { seed: self.tokens[0], passes: self.chain - 1 })
            }
        } else if self.made == (if self.chain < 1 { 1 } else { self.chain }) {
            Ok(DraftWork::Done)
        } else {
            match draft_pass(self.batch_pos, self.rows, self.made, max_t) {
                Ok(pass) => Ok(DraftWork::Pass(pass)),
                Err(e) => Err(e),
            }
        }
    }

    /// A pass came back with the choice of each of its rows: the last one is the next draft, if
    /// one more is asked for, and the token of the next pass. The first pass fills the head's
    /// cache up to the last committed row.
    pub fn passed(&mut self, seq: &mut Sequence, out: &[u32])
        requires
            old(self).wf(*old(seq)),
            !old(self).folded,
            !old(self).done(),
            out@.len() == old(self).tokens@.len(),
        ensures
            final(self).wf(*final(seq)),
            *final(self) == (DraftRun {
                made: (old(self).made + 1) as usize,
                tokens: final(self).tokens,
                drafts: final(self).drafts,
                ..*old(self)
            }),
            final(self).tokens@ == seq![out@.last()],
            final(self).drafts@ == if old(self).made < old(self).chain {
                old(self).drafts@.push(out@.last())
            } else {
                old(self).drafts@
            },
            *final(seq) == (Sequence { mtp_len: (old(self).batch_pos + old(self).rows) as usize, ..*old(seq) }),
    {
        let answer: u32 = out[out.len() - 1];
        seq.mtp_len = self.batch_pos + self.rows;
        if self.made < self.chain {
            self.drafts.push(answer);
        }
        let mut tokens: Vec<u32> = Vec::new();
        tokens.push(answer);
        assert(tokens@ =~= seq![out@.last()]);
        self.tokens = tokens;
        self.made = self.made + 1;
    }

    /// The batch of chained passes came back with the choice of each.
    pub fn chained(&mut self, seq: &Sequence, out: Vec<u32>)
        requires
            old(self).wf(*seq),
            old(self).folded,
            !old(self).done(),
            out@.len() == old(self).chain - 1,
        ensures
            final(self).wf(*seq),
            final(self).done(),
            *final(self) == (DraftRun { made: 1, drafts: final(self).drafts, ..*old(self) }),
            final(self).drafts@ == old(self).drafts@ + out@,
    {
        let mut out = out;
        self.drafts.append(&mut out);
        self.made = 1;
    }

    /// The drafts, as many as were asked for. The head's cache ends behind the committed rows.
    pub fn finish(self, seq: &Sequence) -> (r: Vec<u32>)
        requires
            self.wf(*seq),
            self.done(),
        ensures
            r@ == self.drafts@,
            r@.len() == self.chain,
            seq.mtp_len == seq.batch_pos + self.rows,
    {
        self.drafts
    }
}

impl Sequence {
    /// Starts drafting behind the committed rows. `next` are the tokens that follow the rows;
    /// `folded` are the answers of the head where the trunk's step ran it. Refused drafting
    /// changes nothing.
    pub fn start_draft(&mut self, next: Vec<u32>, chain: usize, folded: Option<Vec<u32>>) -> (r: Result<
        DraftRun,
        DraftError,
    >)
        requires
            old(self).batch_pos + next@.len() <= usize::MAX,
            folded matches Some(out) ==> out@.len() >= next@.len(),
        ensures
            match r {
                Err(DraftError::Rows) => next@.len() == 0 || next@.len() > old(self).batch_nb,
                Err(e) => {
                    &&& 1 <= next@.len() <= old(self).batch_nb
                    &&& old(self).mtp_len != old(self).batch_pos
                    &&& e == (DraftError::OutOfStep { cached: old(self).mtp_len, batch: old(self).batch_pos })
                },
                Ok(run) => {
                    &&& 1 <= next@.len() <= old(self).batch_nb
                    &&& old(self).mtp_len == old(self).batch_pos
                    &&& run.wf(*final(self))
                    &&& (run.batch_pos, run.rows, run.chain, run.made) == (
                        old(self).batch_pos,
                        next@.len() as usize,
                        chain,
                        0usize,
                    )
                    &&& run.folded == (folded is Some)
                    &&& match folded {
                        Some(out) => {
                            &&& run.tokens@ == seq![out@[next@.len() - 1]]
                            &&& run.drafts@ == if chain > 0 {
                                seq![out@[next@.len() - 1]]
                            } else {
                                Seq::empty()
                            }
                        },
                        None => run.tokens@ == next@ && run.drafts@.len() == 0,
                    }
                },
            },
            *final(self) == if r is Ok && folded is Some {
                Sequence { mtp_len: (old(self).batch_pos + next@.len()) as usize, ..*old(self) }
            } else {
                *old(self)
            },
    {
        let n: usize = next.len();
        match mtp_draft(n, chain, folded.is_some(), self.batch_pos, self.batch_nb, self.mtp_len) {
            Err(e) => Err(e),
            Ok(DraftPlan::Passes { .. }) => Ok(
                DraftRun {
                    batch_pos: self.batch_pos,
                    rows: n,
                    chain,
                    folded: false,
                    made: 0,
                    tokens: next,
                    drafts: Vec::new(),
                },
            ),
            Ok(DraftPlan::Folded { row, keep, .. }) => {
                let seed: u32 = match &folded {
                    Some(out) => out[row],
                    None => 0,
                };
                let mut tokens: Vec<u32> = Vec::new();
                tokens.push(seed);
                let mut drafts: Vec<u32> = Vec::new();
                if keep {
                    drafts.push(seed);
                }
                self.mtp_len = self.batch_pos + n;
                assert(tokens@ =~= seq![seed]);
                assert(drafts@ =~= if chain > 0 { seq![seed] } else { Seq::empty() });
                Ok(DraftRun { batch_pos: self.batch_pos, rows: n, chain, folded: true, made: 0, tokens, drafts })
            },
        }
    }

    /// The pass that chains a draft on the residual that a prompt's chunk left, of the draft's
    /// own token.
    pub fn chain_pass(&self) -> (r: Pass)
        ensures
            r == (Pass { rows: 1, base_pos: self.pos, from_trunk: false, src_row: 0 }),
    {
        Pass { rows: 1, base_pos: self.pos, from_trunk: false, src_row: 0 }
    }
}

/// A run after passes that came back with these answers.
pub open spec fn after_passes(start: DraftRun, answers: Seq<Seq<u32>>, run: DraftRun) -> bool {
    &&& run.made == start.made + answers.len()
    &&& (run.batch_pos, run.rows, run.chain, run.folded) == (start.batch_pos, start.rows, start.chain, start.folded)
    &&& run.drafts@ == last_answers(
        answers,
        if answers.len() < start.chain {
            answers.len()
        } else {
            start.chain as nat
        },
    )
    &&& answers.len() > 0 ==> run.tokens@ == seq![answers.last().last()]
}

/// Each pass enters the head on the choice of the pass before it, and the drafts are the choices
/// in order: what one more pass does to a run of an unfolded draft.
pub proof fn law_drafts_follow_each_other(
    start: DraftRun,
    answers: Seq<Seq<u32>>,
    run: DraftRun,
    out: Seq<u32>,
    next: DraftRun,
)
    requires
        !start.folded,
        start.made == 0,
        after_passes(start, answers, run),
        next == (DraftRun { made: (run.made + 1) as usize, tokens: next.tokens, drafts: next.drafts, ..run }),
        run.made < usize::MAX,
        next.tokens@ == seq![out.last()],
        next.drafts@ == if run.made < run.chain {
            run.drafts@.push(out.last())
        } else {
            run.drafts@
        },
    ensures
        after_passes(start, answers.push(out), next),
{
    let all = answers.push(out);
    let n = if all.len() < start.chain {
        all.len()
    } else {
        start.chain as nat
    };
    assert(next.drafts@ =~= last_answers(all, n)) by {
        assert forall|i: int| 0 <= i < next.drafts@.len() implies next.drafts@[i] == last_answers(all, n)[i] by {
            if i < answers.len() {
                assert(all[i] == answers[i]);
            }
        }
    }
}

/// A draft that is done has as many tokens as were asked for, whether the head was folded or not
/// and for a chain of none, and the head's cache ends behind the committed rows.
pub proof fn law_draft_complete(run: DraftRun, seq: Sequence)
    requires
        run.wf(seq),
        run.done(),
    ensures
        run.drafts@.len() == run.chain,
        seq.mtp_len == seq.batch_pos + run.rows,
{
}

/// A draft starts with one to as many rows as the batch has, behind a draft cache that has come as
/// far as the batch; anything else is refused, and then nothing changes.
pub proof fn law_draft_starts(s: &mut Sequence, next: Vec<u32>, chain: usize, folded: Option<Vec<u32>>, r: Result<DraftRun, DraftError>)
    requires
        call_ensures(Sequence::start_draft, (s, next, chain, folded), r),
        old(s).batch_pos + next@.len() <= usize::MAX,
    ensures
        r is Ok <==> 1 <= next@.len() <= old(s).batch_nb && old(s).mtp_len == old(s).batch_pos,
        next@.len() == 0 || next@.len() > old(s).batch_nb ==> r is Err && r->Err_0 is Rows,
        r is Err ==> *final(s) == *old(s),
        r matches Ok(run) ==> {
            &&& run.batch_pos == old(s).batch_pos && run.rows == next@.len() && run.chain == chain && run.made == 0
            &&& folded is None ==> run.tokens@ == next@ && run.drafts@.len() == 0 && *final(s) == *old(s)
            &&& folded matches Some(out) ==> run.tokens@.len() == 1 && run.tokens@[0] == out@[next@.len() - 1]
            &&& folded matches Some(out) ==> (chain > 0 ==> run.drafts@.len() == 1 && run.drafts@[0] == out@[next@.len() - 1])
            &&& folded is Some && chain == 0 ==> run.drafts@.len() == 0
            &&& folded is Some ==> final(s).mtp_len == old(s).batch_pos + next@.len()
        },
{
}

/// A draft is done once it has made as many passes as it drafts tokens, and at least one; a folded
/// one once its chain was run, where it has more than one token. A pass must fit the draft cache.
pub proof fn law_draft_work(run: DraftRun, max_t: usize, r: Result<DraftWork, DraftError>)
    requires
        call_ensures(DraftRun::next, (&run, max_t), r),
        run.rows >= 1,
        run.tokens@.len() >= 1,
        run.batch_pos + run.rows + run.made <= usize::MAX,
    ensures
        r matches Ok(DraftWork::Done) <==> if run.folded {
            run.chain <= 1 || run.made > 0
        } else {
            run.made == (if run.chain == 0 {
                1
            } else {
                run.chain as int
            })
        },
        r matches Ok(DraftWork::Batch { seed, passes }) ==> run.folded && seed == run.tokens@[0] && passes + 1 == run.chain,
        r matches Ok(DraftWork::Pass(pass)) ==> {
            &&& !run.folded
            &&& pass.base_pos + pass.rows <= max_t
            &&& run.made == 0 ==> pass.rows == run.rows && pass.base_pos == run.batch_pos && pass.from_trunk
            &&& run.made > 0 ==> pass.rows == 1 && pass.base_pos == run.batch_pos + run.rows + run.made - 1 && !pass.from_trunk
        },
        r matches Err(e) ==> e is Capacity && !run.folded && run.batch_pos + run.rows + run.made > max_t,
        run.folded ==> r is Ok,
{
}

/// Each pass hands its last answer to the next, and adds it to the drafts while there are fewer than
/// asked for; the draft cache has then come behind the batch.
pub proof fn law_draft_passed(run: &mut DraftRun, s: &mut Sequence, out: &[u32])
    requires
        call_ensures(DraftRun::passed, (run, s, out), ()),
        old(run).wf(*old(s)),
        !old(run).folded,
        !old(run).done(),
        out@.len() == old(run).tokens@.len(),
    ensures
        final(run).made == old(run).made + 1,
        final(run).tokens@.len() == 1 && final(run).tokens@[0] == out@.last(),
        old(run).made < old(run).chain ==> final(run).drafts@ == old(run).drafts@.push(out@.last()),
        old(run).made >= old(run).chain ==> final(run).drafts@ == old(run).drafts@,
        final(s).mtp_len == old(run).batch_pos + old(run).rows,
        final(s).pos == old(s).pos && final(s).batch_pos == old(s).batch_pos,
        final(run).chain == old(run).chain && final(run).rows == old(run).rows,
{
}

/// A finished draft has as many tokens as were asked for.
pub proof fn law_draft_finished(run: DraftRun, s: Sequence, r: Vec<u32>)
    requires
        call_ensures(DraftRun::finish, (run, &s), r),
        run.wf(s),
        run.done(),
    ensures
        r@ == run.drafts@,
        r@.len() == run.chain,
{
}

} // verus!
