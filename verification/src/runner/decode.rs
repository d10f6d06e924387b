//! One complete verification step, resumable between shared-device turns.
//!
//! A step runs in three calls around the device's work: `begin` emits the current token
//! and names the rows to verify, `settle` decides how many rows to commit and what to
//! draft next, and `emit_accepted` with `advance` emits the accepted rows and moves on.

use crate::runner::{FinishReason, PrefillResume};
use vstd::prelude::*;

verus! {

/// Whether a token ends the model's turn.
pub open spec fn ends(eos: Option<(u32, u32)>, token: u32) -> bool {
    eos matches Some(ids) && (token == ids.0 || token == ids.1)
}

/// Row `i` of a batch holds the token that the model chose after row `i - 1`, and does not
/// end the turn.
pub open spec fn accepted_row(rows: Seq<u32>, result: Seq<u32>, eos: Option<(u32, u32)>, i: int) -> bool {
    result[i - 1] == rows[i] && !ends(eos, rows[i])
}

/// The first `n` rows are the ones to commit: every row after the first is accepted, and
/// the row after them is not.
pub open spec fn commits(rows: Seq<u32>, result: Seq<u32>, eos: Option<(u32, u32)>, n: int) -> bool {
    &&& 1 <= n <= rows.len()
    &&& forall|i: int| 1 <= i < n ==> #[trigger] accepted_row(rows, result, eos, i)
    &&& n < rows.len() ==> !accepted_row(rows, result, eos, n)
}

/// The token after each committed row.
pub open spec fn next_tokens(rows: Seq<u32>, result: Seq<u32>, n: int) -> Seq<u32> {
    rows.subrange(1, n).push(result[n - 1])
}

/// How many drafts to ask for: a second one only after a step that accepted its whole batch.
pub open spec fn chain_length(n_draft: nat, n: int, rows: int) -> nat {
    if n_draft >= 2 && n < rows {
        1
    } else {
        n_draft
    }
}

/// What to do after the device verified the rows.
#[derive(Debug)]
pub struct Settled {
    /// Rows to commit.
    pub commit: usize,
    /// The token after each committed row.
    pub next: Vec<u32>,
    /// Drafts to ask for; none when drafting is off.
    pub chain: usize,
}

/// The resumable token loop of one request.
#[derive(Debug)]
pub struct Decode {
    pub cur: u32,
    pub drafts: Vec<u32>,
    pub n_draft: usize,
    pub eos: Option<(u32, u32)>,
    pub limit: usize,
    pub tokens: Vec<u32>,
    pub finish_reason: Option<FinishReason>,
    pub steps: usize,
    pub accepted: usize,
}

fn is_end(eos: Option<(u32, u32)>, token: u32) -> (r: bool)
    ensures
        r == ends(eos, token),
{
    match eos {
        Some(ids) => token == ids.0 || token == ids.1,
        None => false,
    }
}

/// The rows of a step: the current token and at most `count` drafts.
pub open spec fn batch(cur: u32, drafts: Seq<u32>, count: nat) -> Seq<u32> {
    seq![cur] + drafts.take(if drafts.len() < count { drafts.len() } else { count } as int)
}

fn batch_rows(cur: u32, drafts: &Vec<u32>, count: usize) -> (rows: Vec<u32>)
    ensures
        rows@ == batch(cur, drafts@, count as nat),
{
    let mut rows: Vec<u32> = Vec::new();
    rows.push(cur);
    let mut i: usize = 0;
    while i < drafts.len() && i < count
        invariant
            i <= drafts.len(),
            i <= count,
            rows@ == seq![cur] + drafts@.take(i as int),
        decreases drafts.len() - i,
    {
        rows.push(drafts[i]);
        assert(rows@ =~= seq![cur] + drafts@.take(i + 1));
        i = i + 1;
    }
    rows
}

fn commit_count(rows: &[u32], result: &[u32], eos: Option<(u32, u32)>) -> (n: usize)
    requires
        1 <= rows.len() <= result.len(),
    ensures
        commits(rows@, result@, eos, n as int),
{
    let mut n: usize = 1;
    while n < rows.len()
        invariant
            1 <= n <= rows.len() <= result.len(),
            forall|i: int| 1 <= i < n ==> #[trigger] accepted_row(rows@, result@, eos, i),
        decreases rows.len() - n,
    {
        if result[n - 1] != rows[n] || is_end(eos, rows[n]) {
            return n;
        }
        assert(accepted_row(rows@, result@, eos, n as int));
        n = n + 1;
    }
    n
}

fn tokens_after(rows: &[u32], result: &[u32], n: usize) -> (next: Vec<u32>)
    requires
        1 <= n <= rows.len() <= result.len(),
    ensures
        next@ == next_tokens(rows@, result@, n as int),
{
    let mut next: Vec<u32> = Vec::new();
    let mut i: usize = 1;
    while i < n
        invariant
            1 <= i <= n <= rows.len(),
            next@ == rows@.subrange(1, i as int),
        decreases n - i,
    {
        next.push(rows[i]);
        assert(next@ =~= rows@.subrange(1, i + 1));
        i = i + 1;
    }
    next.push(result[n - 1]);
    next
}

impl Decode {
    /// The counters never pass the tokens emitted, and the tokens never pass the limit.
    pub open spec fn wf(self) -> bool {
        &&& self.tokens.len() <= self.limit
        &&& self.steps <= self.tokens.len()
        &&& self.accepted <= self.tokens.len()
    }

    /// A loop after prefill. `first` is the first token: the prefill's own under greedy
    /// choice, or the sampled one.
    pub fn new(seed: PrefillResume, first: Option<u32>, n_draft: usize, eos: Option<(u32, u32)>, limit: usize) -> (r: Decode)
        ensures
            r.wf(),
            r.cur == match first {
                Some(t) => t,
                None => seed.next,
            },
            r.drafts == seed.drafts,
            r.n_draft == n_draft,
            r.eos == eos,
            r.limit == limit,
            r.tokens@ == Seq::<u32>::empty(),
            r.finish_reason is None,
            r.steps == 0,
            r.accepted == 0,
    {
        let cur: u32 = match first {
            Some(t) => t,
            None => seed.next,
        };
        Decode {
            cur,
            drafts: seed.drafts,
            n_draft,
            eos,
            limit,
            tokens: Vec::new(),
            finish_reason: None,
            steps: 0,
            accepted: 0,
        }
    }

    pub fn is_eos(&self, token: u32) -> (r: bool)
        ensures
            r == ends(self.eos, token),
    {
        is_end(self.eos, token)
    }

    /// Whether the loop ends before another step, and why.
    pub open spec fn halts(self) -> Option<FinishReason> {
        if self.finish_reason is Some {
            self.finish_reason
        } else if ends(self.eos, self.cur) {
            Some(FinishReason::Stop)
        } else if self.tokens.len() >= self.limit {
            Some(FinishReason::Length)
        } else {
            None
        }
    }

    /// Everything but the tokens, the current token, the drafts, the counters and the reason.
    pub open spec fn same_request(self, other: Decode) -> bool {
        self.n_draft == other.n_draft && self.eos == other.eos && self.limit == other.limit
    }

    /// Start a step: the rows to verify, whose first was emitted, or nothing at the end.
    pub fn begin(&mut self) -> (r: Option<Vec<u32>>)
        requires
            old(self).wf(),
        ensures
            final(self).wf(),
            final(self).same_request(*old(self)),
            final(self).cur == old(self).cur,
            final(self).drafts == old(self).drafts,
            final(self).steps == old(self).steps,
            final(self).accepted == old(self).accepted,
            final(self).finish_reason == old(self).halts(),
            match r {
                None => old(self).halts() is Some && final(self).tokens@ == old(self).tokens@,
                Some(rows) => {
                    let left = (old(self).limit - old(self).tokens.len() - 1) as nat;
                    &&& old(self).halts() is None
                    &&& final(self).tokens@ == old(self).tokens@.push(old(self).cur)
                    &&& rows@ == batch(
                        old(self).cur,
                        old(self).drafts@,
                        if old(self).n_draft < left { old(self).n_draft as nat } else { left },
                    )
                    &&& final(self).steps < final(self).tokens.len()
                    &&& final(self).accepted + rows.len() <= final(self).limit
                    &&& final(self).tokens.len() + rows.len() <= final(self).limit + 1
                },
            },
    {
        if self.finish_reason.is_some() {
            return None;
        }
        if self.is_eos(self.cur) {
            self.finish_reason = Some(FinishReason::Stop);
            return None;
        }
        if self.tokens.len() >= self.limit {
            self.finish_reason = Some(FinishReason::Length);
            return None;
        }
        let left: usize = self.limit - self.tokens.len() - 1;
        let count: usize = if self.n_draft < left { self.n_draft } else { left };
        let rows: Vec<u32> = batch_rows(self.cur, &self.drafts, count);
        self.tokens.push(self.cur);
        Some(rows)
    }

    /// Decide on the verified rows.
    pub fn settle(&mut self, rows: &[u32], result: &[u32]) -> (r: Settled)
        requires
            1 <= rows.len() <= result.len(),
            old(self).steps < old(self).tokens.len(),
            old(self).accepted + rows.len() <= old(self).limit,
        ensures
            commits(rows@, result@, old(self).eos, r.commit as int),
            r.next@ == next_tokens(rows@, result@, r.commit as int),
            r.chain == if old(self).n_draft == 0 {
                0
            } else {
                chain_length(old(self).n_draft as nat, r.commit as int, rows.len() as int)
            },
            final(self).same_request(*old(self)),
            final(self).cur == old(self).cur,
            final(self).drafts == old(self).drafts,
            final(self).tokens == old(self).tokens,
            final(self).finish_reason == old(self).finish_reason,
            final(self).steps == old(self).steps + 1,
            final(self).accepted == old(self).accepted + r.commit - 1,
    {
        let n: usize = commit_count(rows, result, self.eos);
        self.steps = self.steps + 1;
        self.accepted = self.accepted + (n - 1);
        let next: Vec<u32> = tokens_after(rows, result, n);
        let chain: usize = if self.n_draft >= 2 && n < rows.len() {
            1
        } else {
            self.n_draft
        };
        Settled { commit: n, next, chain }
    }

    /// Emit the accepted rows; at the limit the request is finished.
    pub fn emit_accepted(&mut self, rows: &[u32], commit: usize, drafts: Option<Vec<u32>>)
        requires
            1 <= commit <= rows.len(),
            old(self).tokens.len() + commit - 1 <= old(self).limit,
            old(self).steps <= old(self).tokens.len(),
            old(self).accepted <= old(self).tokens.len() + commit - 1,
        ensures
            final(self).wf(),
            final(self).same_request(*old(self)),
            final(self).cur == old(self).cur,
            final(self).steps == old(self).steps,
            final(self).accepted == old(self).accepted,
            final(self).tokens@ == old(self).tokens@ + rows@.subrange(1, commit as int),
            final(self).drafts@ == match drafts {
                Some(d) => d@,
                None => old(self).drafts@,
            },
            final(self).finish_reason == if final(self).tokens.len() == final(self).limit {
                Some(FinishReason::Length)
            } else {
                old(self).finish_reason
            },
    {
        let ghost start = *self;
        match drafts {
            Some(d) => {
                self.drafts = d;
            },
            None => {},
        }
        let ghost drafted = self.drafts;
        let mut i: usize = 1;
        while i < commit
            invariant
                1 <= i <= commit <= rows.len(),
                self.same_request(start),
                self.cur == start.cur,
                self.drafts == drafted,
                self.steps == start.steps,
                self.accepted == start.accepted,
                self.finish_reason == start.finish_reason,
                self.tokens@ == start.tokens@ + rows@.subrange(1, i as int),
            decreases commit - i,
        {
            self.tokens.push(rows[i]);
            assert(self.tokens@ =~= start.tokens@ + rows@.subrange(1, i + 1));
            i = i + 1;
        }
        if self.tokens.len() == self.limit {
            self.finish_reason = Some(FinishReason::Length);
        }
    }

    /// Continue from the token after the committed rows.
    pub fn advance(&mut self, token: u32)
        requires
            old(self).wf(),
        ensures
            *final(self) == (Decode { cur: token, ..*old(self) }),
    {
        self.cur = token;
    }
}

// ---- what drafting may not change ----
/// Each token is the model's choice after the prompt and the tokens before it.
pub open spec fn greedy(model: spec_fn(Seq<u32>) -> u32, prompt: Seq<u32>, tokens: Seq<u32>) -> bool {
    forall|j: int| 0 <= j < tokens.len() ==> #[trigger] tokens[j] == model(prompt + tokens.take(j))
}

/// The device answered each row with the model's choice after the context and the rows up to it.
pub open spec fn honest(
    model: spec_fn(Seq<u32>) -> u32,
    context: Seq<u32>,
    rows: Seq<u32>,
    result: Seq<u32>,
) -> bool {
    &&& result.len() >= rows.len()
    &&& forall|i: int| 0 <= i < rows.len() ==> #[trigger] result[i] == model(context + rows.take(i + 1))
}

/// Whatever the drafts were, the committed rows extend the greedy output, and the token
/// after them is the model's next choice.
pub proof fn law_committed_rows_greedy(
    model: spec_fn(Seq<u32>) -> u32,
    prompt: Seq<u32>,
    tokens: Seq<u32>,
    rows: Seq<u32>,
    result: Seq<u32>,
    eos: Option<(u32, u32)>,
    n: int,
)
    requires
        greedy(model, prompt, tokens),
        rows.len() > 0,
        rows[0] == model(prompt + tokens),
        honest(model, prompt + tokens, rows, result),
        commits(rows, result, eos, n),
    ensures
        greedy(model, prompt, tokens + rows.take(n)),
        result[n - 1] == model(prompt + (tokens + rows.take(n))),
        forall|i: int| 1 <= i < n ==> !ends(eos, #[trigger] rows[i]),
{
    let longer = tokens + rows.take(n);
    assert forall|j: int| 0 <= j < longer.len() implies #[trigger] longer[j] == model(prompt + longer.take(j)) by {
        if j < tokens.len() {
            assert(longer.take(j) =~= tokens.take(j));
            assert(tokens[j] == model(prompt + tokens.take(j)));
        } else {
            let k = j - tokens.len();
            assert(longer[j] == rows[k]);
            assert(prompt + longer.take(j) =~= (prompt + tokens) + rows.take(k));
            if k == 0 {
                assert((prompt + tokens) + rows.take(0) =~= prompt + tokens);
            } else {
                assert(accepted_row(rows, result, eos, k));
                assert(result[k - 1] == model((prompt + tokens) + rows.take(k - 1 + 1)));
            }
        }
    }
    assert(prompt + longer =~= (prompt + tokens) + rows.take(n - 1 + 1));
    assert forall|i: int| 1 <= i < n implies !ends(eos, #[trigger] rows[i]) by {
        assert(accepted_row(rows, result, eos, i));
    }
}

/// The complete greedy output of at most `limit` tokens: cut at the limit or before the
/// first token that ends the turn.
pub open spec fn complete(
    model: spec_fn(Seq<u32>) -> u32,
    prompt: Seq<u32>,
    eos: Option<(u32, u32)>,
    limit: nat,
    tokens: Seq<u32>,
) -> bool {
    &&& greedy(model, prompt, tokens)
    &&& tokens.len() <= limit
    &&& forall|i: int| 0 <= i < tokens.len() ==> !ends(eos, #[trigger] tokens[i])
    &&& tokens.len() == limit || ends(eos, model(prompt + tokens))
}

/// There is one complete output: drafting cannot change it.
pub proof fn law_output_independent_of_drafts(
    model: spec_fn(Seq<u32>) -> u32,
    prompt: Seq<u32>,
    eos: Option<(u32, u32)>,
    limit: nat,
    a: Seq<u32>,
    b: Seq<u32>,
)
    requires
        complete(model, prompt, eos, limit, a),
        complete(model, prompt, eos, limit, b),
    ensures
        a == b,
{
    let n = if a.len() < b.len() { a.len() as int } else { b.len() as int };
    lemma_common_prefix(model, prompt, a, b, n);
    if a.len() < b.len() {
        assert(b.take(n) =~= a);
        assert(b[n] == model(prompt + b.take(n)));
        assert(!ends(eos, b[n]));
    } else if b.len() < a.len() {
        assert(a.take(n) =~= b);
        assert(a[n] == model(prompt + a.take(n)));
        assert(!ends(eos, a[n]));
    }
    assert(a.take(n) =~= a);
    assert(b.take(n) =~= b);
}

proof fn lemma_common_prefix(model: spec_fn(Seq<u32>) -> u32, prompt: Seq<u32>, a: Seq<u32>, b: Seq<u32>, n: int)
    requires
        greedy(model, prompt, a),
        greedy(model, prompt, b),
        0 <= n <= a.len(),
        n <= b.len(),
    ensures
        a.take(n) == b.take(n),
    decreases n,
{
    if n > 0 {
        lemma_common_prefix(model, prompt, a, b, n - 1);
        assert(a[n - 1] == model(prompt + a.take(n - 1)));
        assert(b[n - 1] == model(prompt + b.take(n - 1)));
        assert(a.take(n) =~= a.take(n - 1).push(a[n - 1]));
        assert(b.take(n) =~= b.take(n - 1).push(b[n - 1]));
    } else {
        assert(a.take(0) =~= b.take(0));
    }
}

/// A loop whose tokens are greedy and whose current token is the model's next choice is
/// complete when it halts before a step, and stops short of the limit exactly at a token
/// that ends the turn.
pub proof fn law_halted_output_complete(model: spec_fn(Seq<u32>) -> u32, prompt: Seq<u32>, d: Decode)
    requires
        d.wf(),
        d.finish_reason is None,
        greedy(model, prompt, d.tokens@),
        forall|i: int| 0 <= i < d.tokens.len() ==> !ends(d.eos, #[trigger] d.tokens@[i]),
        d.cur == model(prompt + d.tokens@),
        d.halts() is Some,
    ensures
        complete(model, prompt, d.eos, d.limit as nat, d.tokens@),
        d.halts() == Some(FinishReason::Stop) <==> ends(d.eos, model(prompt + d.tokens@)),
{
}

// ---- the command line's loop ----
/// The token loop of a command-line run: drafts are verified past the output limit, and a
/// turn that ends at the limit counts as stopped.
#[derive(Debug)]
pub struct Generator {
    pub cur: u32,
    pub drafts: Vec<u32>,
    pub n_draft: usize,
    pub eos: Option<(u32, u32)>,
    pub max_tokens: usize,
    pub out: Vec<u32>,
    pub steps: usize,
    pub accepted: usize,
    pub finish_reason: Option<FinishReason>,
}

/// The output after the accepted rows `rest` were emitted one by one, and why the loop
/// ended among them, if it did.
pub open spec fn emitted(
    out: Seq<u32>,
    rest: Seq<u32>,
    eos: Option<(u32, u32)>,
    max_tokens: nat,
) -> (Seq<u32>, Option<FinishReason>)
    decreases rest.len(),
{
    if rest.len() == 0 {
        (out, None)
    } else if ends(eos, rest[0]) {
        (out, Some(FinishReason::Stop))
    } else if out.len() >= max_tokens {
        (out, Some(FinishReason::Length))
    } else {
        emitted(out.push(rest[0]), rest.skip(1), eos, max_tokens)
    }
}

impl Generator {
    pub open spec fn wf(self) -> bool {
        &&& self.out.len() <= self.max_tokens
        &&& self.max_tokens + self.n_draft < usize::MAX
        &&& self.finish_reason is None ==> self.steps + self.accepted == self.out.len()
    }

    pub open spec fn same_request(self, other: Generator) -> bool {
        self.n_draft == other.n_draft && self.eos == other.eos && self.max_tokens == other.max_tokens
    }

    pub open spec fn halts(self) -> Option<FinishReason> {
        if self.finish_reason is Some {
            self.finish_reason
        } else if ends(self.eos, self.cur) {
            Some(FinishReason::Stop)
        } else if self.out.len() >= self.max_tokens {
            Some(FinishReason::Length)
        } else {
            None
        }
    }

    pub fn new(seed: PrefillResume, n_draft: usize, eos: Option<(u32, u32)>, max_tokens: usize) -> (r: Generator)
        requires
            max_tokens + n_draft < usize::MAX,
        ensures
            r.wf(),
            r.cur == seed.next,
            r.drafts == seed.drafts,
            r.n_draft == n_draft,
            r.eos == eos,
            r.max_tokens == max_tokens,
            r.out@ == Seq::<u32>::empty(),
            r.steps == 0,
            r.accepted == 0,
            r.finish_reason is None,
    {
        Generator {
            cur: seed.next,
            drafts: seed.drafts,
            n_draft,
            eos,
            max_tokens,
            out: Vec::new(),
            steps: 0,
            accepted: 0,
            finish_reason: None,
        }
    }

    /// Start a step: the rows to verify, whose first was emitted, or nothing at the end.
    pub fn begin(&mut self) -> (r: Option<Vec<u32>>)
        requires
            old(self).wf(),
        ensures
            final(self).same_request(*old(self)),
            final(self).cur == old(self).cur,
            final(self).drafts == old(self).drafts,
            final(self).steps == old(self).steps,
            final(self).accepted == old(self).accepted,
            final(self).finish_reason == old(self).halts(),
            final(self).out.len() <= final(self).max_tokens,
            match r {
                None => old(self).halts() is Some && final(self).out@ == old(self).out@ && final(self).wf(),
                Some(rows) => {
                    &&& old(self).halts() is None
                    &&& final(self).out@ == old(self).out@.push(old(self).cur)
                    &&& rows@ == batch(old(self).cur, old(self).drafts@, old(self).n_draft as nat)
                    &&& final(self).steps + final(self).accepted + 1 == final(self).out.len()
                },
            },
    {
        if self.finish_reason.is_some() {
            return None;
        }
        if is_end(self.eos, self.cur) {
            self.finish_reason = Some(FinishReason::Stop);
            return None;
        }
        if self.out.len() >= self.max_tokens {
            self.finish_reason = Some(FinishReason::Length);
            return None;
        }
        let rows: Vec<u32> = batch_rows(self.cur, &self.drafts, self.n_draft);
        self.out.push(self.cur);
        Some(rows)
    }

    /// Decide on the verified rows: every confirmed row is committed.
    pub fn settle(&mut self, rows: &[u32], result: &[u32]) -> (r: Settled)
        requires
            1 <= rows.len() <= result.len(),
            rows.len() <= old(self).n_draft + 1,
            old(self).out.len() <= old(self).max_tokens,
            old(self).max_tokens + old(self).n_draft < usize::MAX,
            old(self).steps + old(self).accepted + 1 == old(self).out.len(),
        ensures
            commits(rows@, result@, None, r.commit as int),
            r.next@ == next_tokens(rows@, result@, r.commit as int),
            r.chain == if old(self).n_draft == 0 {
                0
            } else {
                chain_length(old(self).n_draft as nat, r.commit as int, rows.len() as int)
            },
            final(self).same_request(*old(self)),
            final(self).cur == old(self).cur,
            final(self).drafts == old(self).drafts,
            final(self).out == old(self).out,
            final(self).finish_reason == old(self).finish_reason,
            final(self).steps == old(self).steps + 1,
            final(self).accepted == old(self).accepted + r.commit - 1,
    {
        let n: usize = commit_count(rows, result, None);
        self.steps = self.steps + 1;
        self.accepted = self.accepted + (n - 1);
        let next: Vec<u32> = tokens_after(rows, result, n);
        let chain: usize = if self.n_draft >= 2 && n < rows.len() {
            1
        } else {
            self.n_draft
        };
        Settled { commit: n, next, chain }
    }

    /// Emit the accepted rows up to the end of the turn or the limit, and continue from `token`.
    pub fn emit_accepted(&mut self, rows: &[u32], commit: usize, drafts: Option<Vec<u32>>, token: u32)
        requires
            1 <= commit <= rows.len(),
            old(self).finish_reason is None,
            old(self).out.len() <= old(self).max_tokens,
            old(self).max_tokens + old(self).n_draft < usize::MAX,
            old(self).steps + old(self).accepted + 1 == old(self).out.len() + commit,
        ensures
            final(self).wf(),
            final(self).same_request(*old(self)),
            final(self).cur == token,
            final(self).steps == old(self).steps,
            final(self).accepted == old(self).accepted,
            final(self).drafts@ == match drafts {
                Some(d) => d@,
                None => old(self).drafts@,
            },
            (final(self).out@, final(self).finish_reason) == emitted(
                old(self).out@,
                rows@.subrange(1, commit as int),
                old(self).eos,
                old(self).max_tokens as nat,
            ),
    {
        let ghost start = *self;
        match drafts {
            Some(d) => {
                self.drafts = d;
            },
            None => {},
        }
        self.cur = token;
        let ghost drafted = self.drafts;
        let mut i: usize = 1;
        while i < commit
            invariant
                1 <= i <= commit <= rows.len(),
                self.same_request(start),
                self.cur == token,
                self.drafts == drafted,
                self.steps == start.steps,
                self.accepted == start.accepted,
                self.finish_reason is None,
                self.out.len() <= self.max_tokens,
                start == *old(self),
                self.max_tokens + self.n_draft < usize::MAX,
                self.out.len() == start.out.len() + i - 1,
                self.steps + self.accepted + 1 == start.out.len() + commit,
                drafted@ == match drafts {
                    Some(d) => d@,
                    None => start.drafts@,
                },
                emitted(
                    self.out@,
                    rows@.subrange(i as int, commit as int),
                    start.eos,
                    start.max_tokens as nat,
                ) == emitted(
                    start.out@,
                    rows@.subrange(1, commit as int),
                    start.eos,
                    start.max_tokens as nat,
                ),
            decreases commit - i,
        {
            let t: u32 = rows[i];
            let ghost rest = rows@.subrange(i as int, commit as int);
            assert(rest[0] == t);
            assert(rest.skip(1) =~= rows@.subrange(i + 1, commit as int));
            if is_end(self.eos, t) {
                self.finish_reason = Some(FinishReason::Stop);
                return;
            }
            if self.out.len() >= self.max_tokens {
                self.finish_reason = Some(FinishReason::Length);
                return;
            }
            self.out.push(t);
            i = i + 1;
        }
        assert(rows@.subrange(commit as int, commit as int) =~= Seq::empty());
    }

    /// What the run produced.
    pub fn finish(self, prompt_tokens: usize) -> (r: crate::runner::Generation)
        ensures
            r.tokens == self.out,
            r.prompt_tokens == prompt_tokens,
            r.finish_reason == match self.finish_reason {
                Some(reason) => reason,
                None => FinishReason::Length,
            },
    {
        let finish_reason: FinishReason = match self.finish_reason {
            Some(reason) => reason,
            None => FinishReason::Length,
        };
        crate::runner::Generation { tokens: self.out, prompt_tokens, finish_reason }
    }
}

/// Emitting the accepted rows keeps the output greedy; where the loop ends among them the
/// output is complete, and it stopped exactly where the model ended its turn; where it
/// does not, the token after the rows is the model's next choice.
pub proof fn law_emitted_greedy(
    model: spec_fn(Seq<u32>) -> u32,
    prompt: Seq<u32>,
    out: Seq<u32>,
    rest: Seq<u32>,
    eos: Option<(u32, u32)>,
    max_tokens: nat,
)
    requires
        greedy(model, prompt, out + rest),
        out.len() <= max_tokens,
        forall|i: int| 0 <= i < out.len() ==> !ends(eos, #[trigger] out[i]),
    ensures
        ({
            let (after, reason) = emitted(out, rest, eos, max_tokens);
            &&& greedy(model, prompt, after)
            &&& after.len() <= max_tokens
            &&& forall|i: int| 0 <= i < after.len() ==> !ends(eos, #[trigger] after[i])
            &&& reason is None ==> after == out + rest
            &&& reason is Some ==> complete(model, prompt, eos, max_tokens, after)
            &&& reason is Some ==> (reason == Some(FinishReason::Stop) <==> ends(eos, model(prompt + after)))
        }),
    decreases rest.len(),
{
    let all = out + rest;
    assert(greedy(model, prompt, out)) by {
        assert forall|j: int| 0 <= j < out.len() implies #[trigger] out[j] == model(prompt + out.take(j)) by {
            assert(all[j] == model(prompt + all.take(j)));
            assert(all.take(j) =~= out.take(j));
        }
    }
    if rest.len() == 0 {
        assert(all =~= out);
    } else {
        assert(all[out.len() as int] == model(prompt + all.take(out.len() as int)));
        assert(all.take(out.len() as int) =~= out);
        if !ends(eos, rest[0]) && out.len() < max_tokens {
            assert(out.push(rest[0]) + rest.skip(1) =~= all);
            law_emitted_greedy(model, prompt, out.push(rest[0]), rest.skip(1), eos, max_tokens);
        }
    }
}

/// One step of a request, whatever the drafts and however the device's answers fall: the tokens
/// grow by at least one and stay within the limit, each is the model's own choice and none ends
/// the turn, and the next current token is the model's choice behind them. The request is
/// finished exactly where the limit is reached.
pub proof fn law_decode_step(
    model: spec_fn(Seq<u32>) -> u32,
    prompt: Seq<u32>,
    begun: &mut Decode,
    rows: Vec<u32>,
    settling: &mut Decode,
    batch: &[u32],
    result: &[u32],
    settled: Settled,
    emitting: &mut Decode,
    drafts: Option<Vec<u32>>,
    advancing: &mut Decode,
)
    requires
        old(begun).wf(),
        old(begun).finish_reason is None,
        greedy(model, prompt, old(begun).tokens@),
        old(begun).cur == model(prompt + old(begun).tokens@),
        forall|i: int| 0 <= i < old(begun).tokens@.len() ==> !ends(old(begun).eos, #[trigger] old(begun).tokens@[i]),
        call_ensures(Decode::begin, (begun,), Some(rows)),
        *old(settling) == *final(begun),
        batch@ == rows@,
        result@.len() >= rows@.len(),
        forall|i: int|
            0 <= i < rows@.len() ==> #[trigger] result@[i] == model(
                prompt + old(begun).tokens@ + rows@.take(i + 1),
            ),
        call_ensures(Decode::settle, (settling, batch, result), settled),
        *old(emitting) == *final(settling),
        call_ensures(Decode::emit_accepted, (emitting, batch, settled.commit, drafts), ()),
        *old(advancing) == *final(emitting),
        call_ensures(Decode::advance, (advancing, result@[settled.commit - 1]), ()),
    ensures
        final(advancing).wf(),
        greedy(model, prompt, final(advancing).tokens@),
        final(advancing).cur == model(prompt + final(advancing).tokens@),
        forall|i: int|
            0 <= i < final(advancing).tokens@.len() ==> !ends(old(begun).eos, #[trigger] final(advancing).tokens@[i]),
        old(begun).tokens@.len() < final(advancing).tokens@.len() <= old(begun).limit,
        final(advancing).tokens@.take(old(begun).tokens@.len() as int) == old(begun).tokens@,
        final(advancing).tokens@.len() == old(begun).tokens@.len() + settled.commit,
        final(advancing).finish_reason == if final(advancing).tokens@.len() == old(begun).limit {
            Some(FinishReason::Length)
        } else {
            None
        },
        (final(advancing).n_draft, final(advancing).eos, final(advancing).limit) == (
            old(begun).n_draft,
            old(begun).eos,
            old(begun).limit,
        ),
        final(advancing).steps == old(begun).steps + 1,
        final(advancing).accepted == old(begun).accepted + settled.commit - 1,
        drafts matches Some(d) ==> final(advancing).drafts@ == d@,
{
    let before = old(begun).tokens@;
    let n = settled.commit as int;
    let context = prompt + before;
    assert(honest(model, context, rows@, result@)) by {
        assert forall|i: int| 0 <= i < rows@.len() implies #[trigger] result@[i] == model(context + rows@.take(i + 1)) by {
        }
    }
    law_committed_rows_greedy(model, prompt, before, rows@, result@, old(begun).eos, n);
    let after = final(advancing).tokens@;
    assert(after =~= before + rows@.take(n));
    assert(after.take(before.len() as int) =~= before);
    assert forall|i: int| 0 <= i < after.len() implies !ends(old(begun).eos, #[trigger] after[i]) by {
        if i < before.len() {
            assert(after[i] == before[i]);
        } else if i > before.len() {
            assert(after[i] == rows@[i - before.len()]);
        }
    }
}

/// Where a request begins no further step, its output is complete: every token is the model's
/// choice, it ends at the limit or before a token that ends the turn, and it is said to have
/// stopped exactly where the model ended its turn. Nothing is emitted.
pub proof fn law_decode_ends(model: spec_fn(Seq<u32>) -> u32, prompt: Seq<u32>, d: &mut Decode)
    requires
        old(d).wf(),
        old(d).finish_reason is None,
        greedy(model, prompt, old(d).tokens@),
        old(d).cur == model(prompt + old(d).tokens@),
        forall|i: int| 0 <= i < old(d).tokens@.len() ==> !ends(old(d).eos, #[trigger] old(d).tokens@[i]),
        call_ensures(Decode::begin, (d,), None),
    ensures
        final(d).tokens@ == old(d).tokens@,
        old(d).tokens@.len() == old(d).limit || (old(d).eos matches Some((a, b)) && (old(d).cur == a || old(d).cur
            == b)),
        final(d).finish_reason == Some(FinishReason::Stop) <==> (old(d).eos matches Some((a, b)) && (old(d).cur == a
            || old(d).cur == b)),
        final(d).finish_reason == Some(FinishReason::Stop) || final(d).finish_reason == Some(FinishReason::Length),
        complete(model, prompt, old(d).eos, old(d).limit as nat, old(d).tokens@),
{
    law_halted_output_complete(model, prompt, *old(d));
}

/// A step goes on exactly where nothing ended the request: its reason is open, the current token
/// does not end the turn, and a token may still be emitted. It verifies the current token and as
/// many drafts as there are, as are asked for, and as may still be emitted, in order.
pub proof fn law_begin_rows(d: &mut Decode, r: Option<Vec<u32>>, i: int)
    requires
        old(d).wf(),
        call_ensures(Decode::begin, (d,), r),
    ensures
        r is Some <==> old(d).finish_reason is None && old(d).tokens@.len() < old(d).limit && !(old(d).eos matches Some(
            (a, b),
        ) && (old(d).cur == a || old(d).cur == b)),
        r matches Some(rows) ==> {
            &&& rows@[0] == old(d).cur
            &&& 1 <= i < rows@.len() ==> rows@[i] == old(d).drafts@[i - 1]
            &&& rows@.len() <= old(d).drafts@.len() + 1
            &&& rows@.len() <= old(d).n_draft + 1
            &&& rows@.len() <= old(d).limit - old(d).tokens@.len()
            &&& rows@.len() == old(d).drafts@.len() + 1 || rows@.len() == old(d).n_draft + 1 || rows@.len() == old(d).limit
                - old(d).tokens@.len()
            &&& final(d).tokens@ == old(d).tokens@.push(old(d).cur)
        },
{
}

/// The committed rows are the longest beginning of the batch in which every row behind the first
/// is what the device chose behind the row before it, and does not end the turn. What follows
/// each is the next committed row, and behind the last the device's choice. After a step that
/// did not accept its whole batch one draft is asked for, otherwise as many as drafting allows.
pub proof fn law_settled_rows(d: &mut Decode, rows: &[u32], result: &[u32], r: Settled, i: int)
    requires
        1 <= rows@.len() <= result@.len(),
        call_ensures(Decode::settle, (d, rows, result), r),
    ensures
        1 <= r.commit <= rows@.len(),
        1 <= i < r.commit ==> rows@[i] == result@[i - 1],
        1 <= i < r.commit ==> !(old(d).eos matches Some((a, b)) && (rows@[i] == a || rows@[i] == b)),
        r.commit < rows@.len() ==> rows@[r.commit as int] != result@[r.commit - 1] || (old(d).eos matches Some((a, b))
            && (rows@[r.commit as int] == a || rows@[r.commit as int] == b)),
        r.next@.len() == r.commit,
        r.next@[r.commit - 1] == result@[r.commit - 1],
        0 <= i < r.commit - 1 ==> r.next@[i] == rows@[i + 1],
        r.chain == old(d).n_draft || (r.chain == 1 && old(d).n_draft >= 2),
        old(d).n_draft >= 2 ==> (r.chain == 1 <==> r.commit < rows@.len()),
{
    if 1 <= i < r.commit {
        assert(accepted_row(rows@, result@, old(d).eos, i));
    }
}

/// The command line's loop commits every row that the device confirmed, also one that ends the
/// turn, and asks for drafts in the same way.
pub proof fn law_generator_settles(g: &mut Generator, rows: &[u32], result: &[u32], r: Settled, i: int)
    requires
        1 <= rows@.len() <= result@.len(),
        call_ensures(Generator::settle, (g, rows, result), r),
    ensures
        1 <= r.commit <= rows@.len(),
        1 <= i < r.commit ==> rows@[i] == result@[i - 1],
        r.commit < rows@.len() ==> rows@[r.commit as int] != result@[r.commit - 1],
        r.next@.len() == r.commit,
        r.next@[r.commit - 1] == result@[r.commit - 1],
        0 <= i < r.commit - 1 ==> r.next@[i] == rows@[i + 1],
        r.chain == old(g).n_draft || (r.chain == 1 && old(g).n_draft >= 2),
        old(g).n_draft >= 2 ==> (r.chain == 1 <==> r.commit < rows@.len()),
        final(g).out == old(g).out,
{
    if 1 <= i < r.commit {
        assert(accepted_row(rows@, result@, None, i));
    }
}

/// One step of the command line's loop keeps the output greedy, within the limit and free of
/// tokens that end the turn. Where it goes on, the next current token is the model's choice;
/// where it ends among the accepted rows, the output is complete.
pub proof fn law_generator_step(
    model: spec_fn(Seq<u32>) -> u32,
    prompt: Seq<u32>,
    begun: &mut Generator,
    rows: Vec<u32>,
    settling: &mut Generator,
    batch: &[u32],
    result: &[u32],
    settled: Settled,
    emitting: &mut Generator,
    drafts: Option<Vec<u32>>,
)
    requires
        old(begun).wf(),
        old(begun).finish_reason is None,
        greedy(model, prompt, old(begun).out@),
        old(begun).cur == model(prompt + old(begun).out@),
        forall|i: int| 0 <= i < old(begun).out@.len() ==> !ends(old(begun).eos, #[trigger] old(begun).out@[i]),
        call_ensures(Generator::begin, (begun,), Some(rows)),
        *old(settling) == *final(begun),
        batch@ == rows@,
        result@.len() >= rows@.len(),
        honest(model, prompt + old(begun).out@, rows@, result@),
        call_ensures(Generator::settle, (settling, batch, result), settled),
        *old(emitting) == *final(settling),
        call_ensures(
            Generator::emit_accepted,
            (emitting, batch, settled.commit, drafts, result@[settled.commit - 1]),
            (),
        ),
    ensures
        greedy(model, prompt, final(emitting).out@),
        old(begun).out@.len() < final(emitting).out@.len() <= old(begun).max_tokens,
        old(begun).out@.is_prefix_of(final(emitting).out@),
        forall|i: int|
            0 <= i < final(emitting).out@.len() ==> !ends(old(begun).eos, #[trigger] final(emitting).out@[i]),
        final(emitting).finish_reason is None ==> final(emitting).cur == model(prompt + final(emitting).out@),
        final(emitting).finish_reason is Some ==> complete(
            model,
            prompt,
            old(begun).eos,
            old(begun).max_tokens as nat,
            final(emitting).out@,
        ) && (final(emitting).finish_reason == Some(FinishReason::Stop) <==> ends(
            old(begun).eos,
            model(prompt + final(emitting).out@),
        )),
{
    let before = old(begun).out@;
    let n = settled.commit as int;
    law_committed_rows_greedy(model, prompt, before, rows@, result@, None, n);
    let out = before.push(rows@[0]);
    let rest = rows@.subrange(1, n);
    assert(out + rest =~= before + rows@.take(n));
    assert(forall|i: int| 0 <= i < out.len() ==> !ends(old(begun).eos, #[trigger] out[i]));
    law_emitted_greedy(model, prompt, out, rest, old(begun).eos, old(begun).max_tokens as nat);
    lemma_emitted_grows(out, rest, old(begun).eos, old(begun).max_tokens as nat);
    assert(before.is_prefix_of(out));
}

proof fn lemma_emitted_grows(out: Seq<u32>, rest: Seq<u32>, eos: Option<(u32, u32)>, max_tokens: nat)
    ensures
        out.is_prefix_of(emitted(out, rest, eos, max_tokens).0),
    decreases rest.len(),
{
    if rest.len() > 0 && !ends(eos, rest[0]) && out.len() < max_tokens {
        lemma_emitted_grows(out.push(rest[0]), rest.skip(1), eos, max_tokens);
    }
}

/// The command line's loop verifies the current token and every draft that is asked for, and
/// ends where its output is complete.
pub proof fn law_generator_begins(g: &mut Generator, r: Option<Vec<u32>>, i: int)
    requires
        old(g).wf(),
        call_ensures(Generator::begin, (g,), r),
    ensures
        r is Some <==> old(g).finish_reason is None && old(g).out@.len() < old(g).max_tokens && !(old(g).eos matches Some(
            (a, b),
        ) && (old(g).cur == a || old(g).cur == b)),
        r is None && old(g).finish_reason is None ==> (final(g).finish_reason == Some(FinishReason::Stop) <==> (old(g).eos matches Some((a, b)) && (old(g).cur == a || old(g).cur == b))),
        r matches Some(rows) ==> {
            &&& rows@[0] == old(g).cur
            &&& 1 <= i < rows@.len() ==> rows@[i] == old(g).drafts@[i - 1]
            &&& rows@.len() == 1 + if old(g).drafts@.len() < old(g).n_draft {
                old(g).drafts@.len() as int
            } else {
                old(g).n_draft as int
            }
            &&& final(g).out@ == old(g).out@.push(old(g).cur)
        },
{
}

} // verus!
