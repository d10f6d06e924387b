//! Prompt prefill plans and the token loop of one generation.
//!
//! The device verifies a row batch `[current, drafts...]` per step and answers with the
//! token that follows each row. This module chooses the rows, decides which drafts to
//! commit and which tokens to emit, and proves that drafting never changes the output.

use crate::number::Real32;
use crate::text;
use crate::text::decimal;
use vstd::prelude::*;
use vstd::string::*;

pub mod decode;
pub mod diagnostics;
pub mod prefill;

verus! {

/// Why generation ended.
#[derive(Debug, Clone, Copy, PartialEq, Eq, Structural)]
pub enum FinishReason {
    /// The model ended its turn.
    Stop,
    /// The output limit was reached.
    Length,
}

impl FinishReason {
    pub fn name(&self) -> (r: &'static str)
        ensures
            r@ == match *self {
                FinishReason::Stop => "stop"@,
                FinishReason::Length => "length"@,
            },
    {
        match self {
            FinishReason::Stop => "stop",
            FinishReason::Length => "length",
        }
    }
}

/// The token after a filled prompt and the draft chain behind it.
#[derive(Debug)]
pub struct PrefillResume {
    pub next: u32,
    pub drafts: Vec<u32>,
}

#[derive(Debug)]
pub struct Generation {
    pub tokens: Vec<u32>,
    pub prompt_tokens: usize,
    pub finish_reason: FinishReason,
}

// ---- prompt text and budget ----
/// The prompt in the chat format, or as it stands.
pub open spec fn chatml_text(prompt: Seq<char>, raw: bool) -> Seq<char> {
    if raw {
        prompt
    } else {
        "<|im_start|>user\n"@ + prompt + "<|im_end|>\n<|im_start|>assistant\n<think>\n\n</think>\n\n"@
    }
}

pub fn chatml(prompt: &str, raw: bool) -> (r: String)
    ensures
        r@ == chatml_text(prompt@, raw),
{
    if raw {
        prompt.to_owned()
    } else {
        let mut text: String = "<|im_start|>user\n".to_owned();
        text.append(prompt);
        text.append("<|im_end|>\n<|im_start|>assistant\n<think>\n\n</think>\n\n");
        text
    }
}

/// Why a request does not fit its context.
#[derive(Debug, Clone, Copy, PartialEq, Eq, Structural)]
pub enum BudgetError {
    EmptyPrompt,
    Overflow,
    Exceeds { prompt: usize, output: usize, drafts: usize, need: usize, context: usize },
}

impl BudgetError {
    pub open spec fn text(self) -> Seq<char> {
        match self {
            BudgetError::EmptyPrompt => "prompt must contain at least one token"@,
            BudgetError::Overflow => "token budget overflows"@,
            BudgetError::Exceeds { prompt, output, drafts, need, context } => {
                "prompt ("@ + text::decimal_of(prompt as nat) + ") + output ("@ + text::decimal_of(
                    output as nat,
                ) + ") + draft lookahead ("@ + text::decimal_of(drafts as nat) + ") needs "@
                    + text::decimal_of(need as nat) + " tokens, exceeding --max-ctx "@
                    + text::decimal_of(context as nat)
            },
        }
    }

    pub fn message(&self) -> (r: String)
        ensures
            r@ == self.text(),
    {
        match self {
            BudgetError::EmptyPrompt => "prompt must contain at least one token".to_owned(),
            BudgetError::Overflow => "token budget overflows".to_owned(),
            BudgetError::Exceeds { prompt, output, drafts, need, context } => {
                let mut text: String = "prompt (".to_owned();
                text.append(decimal(*prompt as u64).as_str());
                text.append(") + output (");
                text.append(decimal(*output as u64).as_str());
                text.append(") + draft lookahead (");
                text.append(decimal(*drafts as u64).as_str());
                text.append(") needs ");
                text.append(decimal(*need as u64).as_str());
                text.append(" tokens, exceeding --max-ctx ");
                text.append(decimal(*context as u64).as_str());
                text
            },
        }
    }
}

/// The reason against a budget: prompt, output and draft lookahead have to fit the context.
pub open spec fn budget_fault(prompt: usize, output: usize, drafts: usize, context: usize) -> Option<BudgetError> {
    if prompt == 0 {
        Some(BudgetError::EmptyPrompt)
    } else if prompt + output + drafts > usize::MAX {
        Some(BudgetError::Overflow)
    } else if prompt + output + drafts > context {
        Some(
            BudgetError::Exceeds { prompt, output, drafts, need: (prompt + output + drafts) as usize, context },
        )
    } else {
        None
    }
}

pub fn check_budget(prompt: usize, output: usize, drafts: usize, context: usize) -> (r: Result<(), BudgetError>)
    ensures
        r == match budget_fault(prompt, output, drafts, context) {
            Some(e) => Err::<(), BudgetError>(e),
            None => Ok(()),
        },
{
    if prompt == 0 {
        return Err(BudgetError::EmptyPrompt);
    }
    match prompt.checked_add(output) {
        None => Err(BudgetError::Overflow),
        Some(n) => match n.checked_add(drafts) {
            None => Err(BudgetError::Overflow),
            Some(need) => {
                if need > context {
                    Err(BudgetError::Exceeds { prompt, output, drafts, need, context })
                } else {
                    Ok(())
                }
            },
        },
    }
}

// ---- the greedy choice ----
/// Token `best` has the greatest logit in the total order, the last of its equals.
pub open spec fn is_argmax(logits: Seq<Real32>, best: int) -> bool {
    &&& 0 <= best < logits.len()
    &&& forall|i: int| 0 <= i < logits.len() ==> (#[trigger] logits[i]).total() <= logits[best].total()
    &&& forall|i: int| best < i < logits.len() ==> (#[trigger] logits[i]).total() < logits[best].total()
}

pub fn argmax(logits: &[Real32]) -> (r: u32)
    requires
        0 < logits.len() <= u32::MAX,
    ensures
        is_argmax(logits@, r as int),
{
    let mut best: usize = 0;
    let mut i: usize = 1;
    while i < logits.len()
        invariant
            best < i <= logits.len(),
            forall|k: int| 0 <= k < i ==> (#[trigger] logits@[k]).total() <= logits@[best as int].total(),
            forall|k: int| best < k < i ==> (#[trigger] logits@[k]).total() < logits@[best as int].total(),
        decreases logits.len() - i,
    {
        if logits[i].total_key() >= logits[best].total_key() {
            best = i;
        }
        i = i + 1;
    }
    best as u32
}

// ---- prefill plans ----
/// The quotient rounded up.
pub open spec fn ceil_div(a: nat, b: nat) -> nat {
    ((a + b - 1) / (b as int)) as nat
}

/// `a / b` rounded up.
pub fn div_ceil(a: usize, b: usize) -> (r: usize)
    requires
        b > 0,
    ensures
        r == ceil_div(a as nat, b as nat),
        a > 0 ==> r > 0,
        r <= a,
        a <= r * b,
        r > 0 ==> (r - 1) * b < a,
{
    let q: usize = a / b;
    let m: usize = a % b;
    proof {
        let (a, b, q, m) = (a as int, b as int, q as int, m as int);
        vstd::arithmetic::div_mod::lemma_fundamental_div_mod(a, b);
        assert(a == q * b + m) by {
            assert(b * q == q * b) by (nonlinear_arith);
        }
        if m == 0 {
            assert((a + b - 1) / b == q) by {
                vstd::arithmetic::div_mod::lemma_fundamental_div_mod_converse(a + b - 1, b, q, b - 1);
            }
            assert(q > 0 ==> (q - 1) * b < a) by (nonlinear_arith)
                requires
                    a == q * b,
                    b > 0,
            ;
            assert(a > 0 ==> q > 0) by (nonlinear_arith)
                requires
                    a == q * b,
                    q >= 0,
            ;
            assert(q <= q * b) by (nonlinear_arith)
                requires
                    q >= 0,
                    b > 0,
            ;
        } else {
            assert((a + b - 1) / b == q + 1) by {
                assert(a + b - 1 == (q + 1) * b + (m - 1)) by (nonlinear_arith)
                    requires
                        a == q * b + m,
                ;
                vstd::arithmetic::div_mod::lemma_fundamental_div_mod_converse(a + b - 1, b, q + 1, m - 1);
            }
            assert(a <= (q + 1) * b && q * b < a) by (nonlinear_arith)
                requires
                    a == q * b + m,
                    0 < m < b,
            ;
            assert(q + 1 <= a) by (nonlinear_arith)
                requires
                    a == q * b + m,
                    0 < m,
                    b > 0,
                    q >= 0,
            ;
        }
    }
    if m == 0 {
        q
    } else {
        q + 1
    }
}

/// The size of the equal chunks that cover `total` rows with at most `limit` rows each.
pub open spec fn equal_chunk(total: nat, limit: nat) -> nat {
    ceil_div(total, ceil_div(total, limit))
}

/// Equal-sized chunks, so a short tail does not stream the whole store again.
pub fn chunk_len(total: usize, limit: usize) -> (r: usize)
    requires
        total > 0,
        limit > 0,
    ensures
        r == equal_chunk(total as nat, limit as nat),
        0 < r <= limit,
        ceil_div(total as nat, r as nat) <= ceil_div(total as nat, limit as nat),
{
    let chunks: usize = div_ceil(total, limit);
    let len: usize = div_ceil(total, chunks);
    proof {
        assert(len <= limit) by (nonlinear_arith)
            requires
                total <= chunks * limit,
                (len - 1) * chunks < total,
                chunks > 0,
        ;
        let again = ceil_div(total as nat, len as nat);
        lemma_ceil_div(total as int, len as int);
        assert(again <= chunks) by (nonlinear_arith)
            requires
                total <= len * chunks,
                (again - 1) * len < total,
                len > 0,
        ;
    }
    len
}

proof fn lemma_ceil_div(a: int, b: int)
    requires
        a > 0,
        b > 0,
    ensures
        ({
            let q = ceil_div(a as nat, b as nat);
            q > 0 && a <= q * b && (q - 1) * b < a
        }),
{
    let q = (a + b - 1) / b;
    vstd::arithmetic::div_mod::lemma_fundamental_div_mod(a + b - 1, b);
    let m = (a + b - 1) % b;
    assert(q > 0 && a <= q * b && (q - 1) * b < a) by (nonlinear_arith)
        requires
            a + b - 1 == b * q + m,
            0 <= m < b,
            a > 0,
            b > 0,
    ;
}

/// Equal chunks cover the prompt in as few chunks as chunks of the full limit would.
pub proof fn law_equal_chunks_minimal(total: nat, limit: nat)
    requires
        total > 0,
        limit > 0,
    ensures
        0 < equal_chunk(total, limit) <= limit,
        ceil_div(total, equal_chunk(total, limit)) == ceil_div(total, limit),
{
    let chunks = ceil_div(total, limit);
    lemma_ceil_div(total as int, limit as int);
    let len = ceil_div(total, chunks);
    lemma_ceil_div(total as int, chunks as int);
    lemma_ceil_div(total as int, len as int);
    let again = ceil_div(total, len);
    assert(len <= limit) by (nonlinear_arith)
        requires
            total <= chunks * limit,
            (len - 1) * chunks < total,
            chunks > 0,
    ;
    assert(again <= chunks) by (nonlinear_arith)
        requires
            total <= len * chunks,
            (again - 1) * len < total,
            len > 0,
    ;
    assert(chunks <= again) by (nonlinear_arith)
        requires
            total <= again * len,
            (chunks - 1) * limit < total,
            len <= limit,
            again >= 0,
            limit > 0,
    ;
}

/// How a prompt reaches the caches.
#[derive(Debug, Clone, Copy, PartialEq, Eq, Structural)]
pub enum PrefillPath {
    /// The caches hold the prompt already.
    Prepared,
    /// The prefill engine, in chunks of up to this many rows.
    Engine { chunk: usize },
    /// Row batches of the decode kernels.
    Rows,
}

/// The rows from which a prompt goes through the prefill engine by default.
pub const PREFILL_MIN: usize = 64;

/// The largest chunk while rows are compared with a reference.
pub const CHECK_CHUNK: usize = 1024;

/// Choose the prefill path. `prefill_min` and `prefill_chunk` are the developer's
/// overrides; `rows_fit` is what the engine's memory allows.
pub fn prefill_path(
    prepared: bool,
    prompt: usize,
    check: bool,
    prefill_min: Option<usize>,
    prefill_chunk: Option<usize>,
    rows_fit: usize,
) -> (r: PrefillPath)
    ensures
        ({
            let least = if let Some(n) = prefill_min { n } else { PREFILL_MIN };
            let rows = if let Some(n) = prefill_chunk { n } else { rows_fit };
            let rows = if rows < 1 { 1 } else { rows };
            let rows = if check && rows > CHECK_CHUNK { CHECK_CHUNK } else { rows };
            r == if prepared {
                PrefillPath::Prepared
            } else if prompt >= least {
                PrefillPath::Engine { chunk: rows }
            } else {
                PrefillPath::Rows
            }
        }),
{
    let least: usize = match prefill_min {
        Some(n) => n,
        None => PREFILL_MIN,
    };
    let mut rows: usize = match prefill_chunk {
        Some(n) => n,
        None => rows_fit,
    };
    if rows < 1 {
        rows = 1;
    }
    if check && rows > CHECK_CHUNK {
        rows = CHECK_CHUNK;
    }
    if prepared {
        PrefillPath::Prepared
    } else if prompt >= least {
        PrefillPath::Engine { chunk: rows }
    } else {
        PrefillPath::Rows
    }
}

/// Where the chunk at `start` ends.
pub open spec fn chunk_end(rows: int, start: int, chunk: int) -> int {
    if rows - start <= chunk {
        rows
    } else {
        start + chunk
    }
}

/// Rows that a batch of the decode kernels may hold: the developer's cap within the kernels' own.
pub fn rows_max(cap: Option<usize>, kernel_rows: usize) -> (r: usize)
    requires
        kernel_rows > 0,
    ensures
        r == match cap {
            None => kernel_rows,
            Some(n) => if n < 1 {
                1
            } else if n > kernel_rows {
                kernel_rows
            } else {
                n
            },
        },
        0 < r <= kernel_rows,
{
    match cap {
        None => kernel_rows,
        Some(n) => {
            if n < 1 {
                1
            } else if n > kernel_rows {
                kernel_rows
            } else {
                n
            }
        },
    }
}

/// The head-buffer row that holds the last prompt row's logits.
pub fn last_logits_row(engine: bool, prompt: usize, kernel_rows: usize) -> (r: usize)
    requires
        prompt > 0,
        kernel_rows > 0,
    ensures
        r == if engine {
            0
        } else {
            (prompt - 1) % kernel_rows as int
        },
{
    if engine {
        0
    } else {
        (prompt - 1) % kernel_rows
    }
}

/// A request fits exactly where it has a prompt, and prompt, output and draft lookahead together
/// are within the context. An empty prompt is the first error; a sum that is no machine number
/// overflows; any other sum beyond the context is told with its parts.
pub proof fn law_budget_exact(prompt: usize, output: usize, drafts: usize, context: usize, r: Result<(), BudgetError>)
    requires
        call_ensures(check_budget, (prompt, output, drafts, context), r),
    ensures
        r is Ok <==> 0 < prompt && prompt + output + drafts <= context,
        r == Err::<(), BudgetError>(BudgetError::EmptyPrompt) <==> prompt == 0,
        r == Err::<(), BudgetError>(BudgetError::Overflow) <==> prompt > 0 && prompt + output + drafts > usize::MAX,
        r matches Err(BudgetError::Exceeds { prompt: p, output: o, drafts: d, need, context: c }) ==> (p, o, d, c) == (
            prompt,
            output,
            drafts,
            context,
        ) && need == prompt + output + drafts && need > context,
{
}

/// Room is neither gained nor lost by moving tokens between prompt, output and drafts, and a
/// larger context accepts whatever a smaller one does.
pub proof fn law_budget_by_sum(
    a: (usize, usize, usize),
    b: (usize, usize, usize),
    context: usize,
    larger: usize,
)
    requires
        a.0 + a.1 + a.2 == b.0 + b.1 + b.2,
        a.0 > 0,
        b.0 > 0,
        context <= larger,
    ensures
        budget_fault(a.0, a.1, a.2, context) is None <==> budget_fault(b.0, b.1, b.2, context) is None,
        budget_fault(a.0, a.1, a.2, context) is None ==> budget_fault(a.0, a.1, a.2, larger) is None,
{
}

/// The greedy choice is a token that no other has a greater logit than, and of equals the one
/// with the highest number.
pub proof fn law_argmax_is_greatest(logits: &[Real32], best: u32, i: int)
    requires
        call_ensures(argmax, (logits,), best),
        0 <= i < logits@.len(),
    ensures
        best < logits@.len(),
        !logits@[best as int].lt(logits@[i]),
        logits@[i].total() <= logits@[best as int].total(),
        logits@[i].bits == logits@[best as int].bits ==> i <= best,
{
}

/// A chat prompt shows the question between its marks and leaves the answer open; a raw one is
/// the question itself.
pub proof fn law_question_is_shown(prompt: &str, raw: bool, r: String)
    requires
        call_ensures(chatml, (prompt, raw), r),
    ensures
        raw ==> r@ == prompt@,
        !raw ==> r@ == "<|im_start|>user\n"@ + prompt@
            + "<|im_end|>\n<|im_start|>assistant\n<think>\n\n</think>\n\n"@,
{
}

/// Chunks are as few as the limit allows, and of those as short as can be: where `c` chunks of
/// the limit are needed and enough, `c` chunks of the length are needed and enough, and no
/// shorter length is.
pub proof fn law_chunk_lengths(total: usize, limit: usize, r: usize, c: int)
    requires
        call_ensures(chunk_len, (total, limit), r),
        total > 0,
        limit > 0,
        c > 0,
        (c - 1) * limit < total <= c * limit,
    ensures
        0 < r <= limit,
        (c - 1) * r < total <= c * r,
        c * (r - 1) < total,
{
    let n = ceil_div(total as nat, limit as nat) as int;
    lemma_ceil_div(total as int, limit as int);
    assert(n == c) by (nonlinear_arith)
        requires
            (c - 1) * limit < total <= c * limit,
            (n - 1) * limit < total <= n * limit,
            limit > 0,
    ;
    lemma_ceil_div(total as int, c);
    assert((c - 1) * r <= (c - 1) * limit) by (nonlinear_arith)
        requires
            c > 0,
            0 < r <= limit,
    ;
    assert(c * r == r * c && c * (r - 1) == (r - 1) * c) by (nonlinear_arith);
}

/// A quotient rounded up is the least number of parts that is enough.
pub proof fn law_rounded_up(a: usize, b: usize, r: usize)
    requires
        call_ensures(div_ceil, (a, b), r),
        b > 0,
    ensures
        a <= r * b,
        r > 0 ==> (r - 1) * b < a,
{
}

/// A prompt that the caches hold runs nowhere. Another goes through the engine from 64 tokens on,
/// or from the developer's number, in chunks of what fits or of the developer's number, at least
/// one row and at most 1024 while rows are compared; a shorter one goes in row batches.
pub proof fn law_prefill_path_exact(
    prepared: bool,
    prompt: usize,
    check: bool,
    prefill_min: Option<usize>,
    prefill_chunk: Option<usize>,
    rows_fit: usize,
    r: PrefillPath,
)
    requires
        call_ensures(prefill_path, (prepared, prompt, check, prefill_min, prefill_chunk, rows_fit), r),
    ensures
        r is Prepared <==> prepared,
        r is Engine <==> !prepared && prompt >= match prefill_min {
            Some(n) => n,
            None => 64,
        },
        r matches PrefillPath::Engine { chunk } ==> {
            &&& chunk >= 1
            &&& check ==> chunk <= 1024
            &&& prefill_chunk matches Some(n) ==> chunk <= n || n == 0
            &&& prefill_chunk is None ==> chunk <= rows_fit || rows_fit == 0
            &&& prefill_chunk matches Some(n) ==> chunk == n || n == 0 || (check && chunk == 1024)
            &&& prefill_chunk is None ==> chunk == rows_fit || rows_fit == 0 || (check && chunk == 1024)
        },
{
}

/// A batch holds what the developer caps it at, within one row and the kernels' own limit.
pub proof fn law_rows_max_exact(cap: Option<usize>, kernel_rows: usize, r: usize)
    requires
        call_ensures(rows_max, (cap, kernel_rows), r),
        kernel_rows > 0,
    ensures
        1 <= r <= kernel_rows,
        cap is None ==> r == kernel_rows,
        cap matches Some(n) ==> (1 <= n <= kernel_rows ==> r == n) && (n == 0 ==> r == 1) && (n > kernel_rows ==> r
            == kernel_rows),
{
}

/// Equal chunks by the number of chunks that the limit needs.
pub proof fn lemma_equal_chunk(total: int, limit: int, c: int)
    requires
        total > 0,
        limit > 0,
        c > 0,
        (c - 1) * limit < total <= c * limit,
    ensures
        total <= c * equal_chunk(total as nat, limit as nat),
        c * (equal_chunk(total as nat, limit as nat) - 1) < total,
{
    let n = ceil_div(total as nat, limit as nat) as int;
    lemma_ceil_div(total, limit);
    assert(n == c) by (nonlinear_arith)
        requires
            (c - 1) * limit < total <= c * limit,
            (n - 1) * limit < total <= n * limit,
            limit > 0,
    ;
    lemma_ceil_div(total, c);
    let r = equal_chunk(total as nat, limit as nat) as int;
    assert(c * r == r * c && c * (r - 1) == (r - 1) * c) by (nonlinear_arith);
}

} // verus!
