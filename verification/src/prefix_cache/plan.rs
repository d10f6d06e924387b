//! How the uncached part of a prompt is prefilled and where checkpoints are taken.

use crate::runner;
use crate::runner::{chunk_len, rows_max, PREFILL_MIN};
use vstd::prelude::*;

verus! {

/// The bytes of a checkpoint: device state, tokens, bookkeeping and drafts.
pub fn checkpoint_bytes(state: usize, pos: usize, overhead: usize, drafts: usize) -> (r: usize)
    requires
        state + pos * 4 + overhead + drafts * 4 <= usize::MAX,
    ensures
        r == state + pos * 4 + overhead + drafts * 4,
{
    state + pos * 4 + overhead + drafts * 4
}

/// `b` is a place where prefill stops: the end of the prompt, and with checkpoints kept
/// also the stable boundaries behind what was reused and the last token's start, which
/// serves any extension of the prompt.
pub open spec fn is_boundary(b: int, total: int, cached: int, stable: Seq<usize>, keep: bool) -> bool {
    ||| b == total
    ||| keep && 0 <= b <= usize::MAX && stable.contains(b as usize) && cached < b < total
    ||| keep && total > 1 && b == total - 1
}

pub open spec fn increasing(s: Seq<usize>) -> bool {
    forall|i: int, j: int| 0 <= i < j < s.len() ==> #[trigger] s[i] < #[trigger] s[j]
}

/// Add `x` to an increasing list unless it is there.
fn add_sorted(list: &mut Vec<usize>, x: usize)
    requires
        increasing(old(list)@),
    ensures
        increasing(final(list)@),
        forall|y: usize| #[trigger] final(list)@.contains(y) <==> old(list)@.contains(y) || y == x,
{
    let ghost before = list@;
    let mut at: usize = 0;
    while at < list.len()
        invariant
            at <= list.len(),
            list@ == before,
            before == old(list)@,
            increasing(before),
            forall|k: int| 0 <= k < at ==> #[trigger] list@[k] < x,
        decreases list.len() - at,
    {
        if list[at] >= x {
            if list[at] == x {
                assert(before.contains(x));
                return;
            }
            list.insert(at, x);
            proof {
                let after = list@;
                assert forall|y: usize| #[trigger] after.contains(y) <==> before.contains(y) || y == x by {
                    if after.contains(y) && y != x {
                        let k = choose|k: int| 0 <= k < after.len() && after[k] == y;
                        assert(before[if k < at { k } else { k - 1 }] == y);
                    }
                    if before.contains(y) {
                        let k = choose|k: int| 0 <= k < before.len() && before[k] == y;
                        assert(after[if k < at { k } else { k + 1 }] == y);
                    }
                    if y == x {
                        assert(after[at as int] == x);
                    }
                }
                assert forall|i: int, j: int| 0 <= i < j < after.len() implies #[trigger] after[i] < #[trigger] after[j] by {
                    let a = if i < at { i } else { i - 1 };
                    let b = if j < at { j } else { j - 1 };
                    if i != at && j != at {
                        assert(after[i] == before[a] && after[j] == before[b]);
                    } else if i == at {
                        assert(after[j] == before[b]);
                        assert(before[at as int] <= before[b]);
                    } else {
                        assert(after[i] == before[a]);
                    }
                }
            }
            return;
        }
        at = at + 1;
    }
    list.push(x);
    proof {
        let after = list@;
        assert forall|y: usize| #[trigger] after.contains(y) <==> before.contains(y) || y == x by {
            if after.contains(y) && y != x {
                let k = choose|k: int| 0 <= k < after.len() && after[k] == y;
                assert(before[k] == y);
            }
            if before.contains(y) {
                let k = choose|k: int| 0 <= k < before.len() && before[k] == y;
                assert(after[k] == y);
            }
            if y == x {
                assert(after[before.len() as int] == x);
            }
        }
    }
}

/// The places where prefill stops, in order.
pub fn boundaries(total: usize, cached: usize, stable: &[usize], keep: bool) -> (r: Vec<usize>)
    requires
        total > 0,
    ensures
        increasing(r@),
        forall|b: usize| #[trigger] r@.contains(b) <==> is_boundary(b as int, total as int, cached as int, stable@, keep),
{
    let mut list: Vec<usize> = Vec::new();
    list.push(total);
    assert(list@ =~= seq![total]);
    assert forall|b: usize| #[trigger] list@.contains(b) <==> b == total by {
        if b == total {
            assert(list@[0] == b);
        }
    }
    if keep {
        let mut i: usize = 0;
        while i < stable.len()
            invariant
                i <= stable.len(),
                increasing(list@),
                forall|b: usize| #[trigger]
                    list@.contains(b) <==> b == total || (cached < b < total && stable@.take(i as int).contains(b)),
            decreases stable.len() - i,
        {
            let b: usize = stable[i];
            let ghost before = list@;
            if b > cached && b < total {
                add_sorted(&mut list, b);
            }
            proof {
                let head = stable@.take(i as int);
                let longer = stable@.take(i + 1);
                assert(longer =~= head.push(b));
                assert forall|y: usize| #[trigger] longer.contains(y) <==> head.contains(y) || y == b by {
                    if longer.contains(y) && y != b {
                        let k = choose|k: int| 0 <= k < longer.len() && longer[k] == y;
                        assert(head[k] == y);
                    }
                    if head.contains(y) {
                        let k = choose|k: int| 0 <= k < head.len() && head[k] == y;
                        assert(longer[k] == y);
                    }
                    if y == b {
                        assert(longer[i as int] == y);
                    }
                }
                assert forall|y: usize| #[trigger] list@.contains(y) <==> y == total || (cached < y < total
                    && longer.contains(y)) by {
                    assert(before.contains(y) <==> y == total || (cached < y < total && head.contains(y)));
                    assert(longer.contains(y) <==> head.contains(y) || y == b);
                }
            }
            i = i + 1;
        }
        assert(stable@.take(i as int) =~= stable@);
        if total > 1 {
            add_sorted(&mut list, total - 1);
        }
    }
    list
}

/// One device call of a prefill.
#[derive(Debug, Clone, Copy, PartialEq, Eq, Structural)]
pub struct PrefillStep {
    pub start: usize,
    pub end: usize,
    /// The prefill engine runs the rows; otherwise the decode kernels do.
    pub engine: bool,
    /// A checkpoint is taken behind the rows.
    pub checkpoint: bool,
    /// The engine's scratch is released behind the rows.
    pub release: bool,
}

/// What governs the size of the steps.
#[derive(Debug, Clone, Copy, PartialEq, Eq, Structural)]
pub struct StepLimits {
    /// Rows from which the engine is used.
    pub engine_min: usize,
    /// Rows that one engine chunk may hold.
    pub engine_rows: usize,
    /// Rows that one batch of the decode kernels may hold.
    pub batch_rows: usize,
}

/// The limits from the developer's overrides, what the engine's memory allows, and the
/// decode kernels' own limit.
pub fn step_limits(
    prefill_min: Option<usize>,
    prefill_chunk: Option<usize>,
    rows_fit: usize,
    rows_cap: Option<usize>,
    kernel_rows: usize,
) -> (r: StepLimits)
    requires
        kernel_rows > 0,
    ensures
        r.engine_min == match prefill_min {
            Some(n) => n,
            None => PREFILL_MIN,
        },
        r.engine_rows == ({
            let n = match prefill_chunk {
                Some(n) => n,
                None => rows_fit,
            };
            if n < 1 {
                1
            } else {
                n
            }
        }),
        r.batch_rows == match rows_cap {
            None => kernel_rows,
            Some(n) => if n < 1 {
                1
            } else if n > kernel_rows {
                kernel_rows
            } else {
                n
            },
        },
        r.wf(),
{
    let engine_min: usize = match prefill_min {
        Some(n) => n,
        None => PREFILL_MIN,
    };
    let rows: usize = match prefill_chunk {
        Some(n) => n,
        None => rows_fit,
    };
    StepLimits {
        engine_min,
        engine_rows: if rows < 1 { 1 } else { rows },
        batch_rows: rows_max(rows_cap, kernel_rows),
    }
}

impl StepLimits {
    pub open spec fn wf(self) -> bool {
        self.engine_rows > 0 && self.batch_rows > 0
    }

    pub open spec fn engine(self, rows: int) -> bool {
        rows >= self.engine_min
    }

    /// The step size for a stretch of `rows` rows.
    pub open spec fn size(self, rows: int) -> int {
        if self.engine(rows) {
            runner::equal_chunk(rows as nat, self.engine_rows as nat) as int
        } else {
            self.batch_rows as int
        }
    }
}

/// The steps of `size` rows from `pos` to `end`.
pub open spec fn steps_in(pos: int, end: int, size: int, engine: bool) -> Seq<PrefillStep>
    decreases end - pos,
{
    if pos >= end || size <= 0 {
        Seq::empty()
    } else {
        let stop = runner::chunk_end(end, pos, size);
        seq![
            PrefillStep {
                start: pos as usize,
                end: stop as usize,
                engine,
                checkpoint: stop == end || engine,
                release: stop == end,
            },
        ] + steps_in(stop, end, size, engine)
    }
}

/// The steps from `pos` through the given stops.
pub open spec fn steps_through(pos: int, stops: Seq<usize>, limits: StepLimits) -> Seq<PrefillStep>
    decreases stops.len(),
{
    if stops.len() == 0 {
        Seq::empty()
    } else {
        let end = stops[0] as int;
        if end <= pos {
            steps_through(pos, stops.skip(1), limits)
        } else {
            steps_in(pos, end, limits.size(end - pos), limits.engine(end - pos)) + steps_through(
                end,
                stops.skip(1),
                limits,
            )
        }
    }
}

/// The device calls that prefill a prompt from `pos` through its stops.
pub fn prefill_steps(pos: usize, stops: &[usize], limits: &StepLimits) -> (r: Vec<PrefillStep>)
    requires
        limits.wf(),
    ensures
        r@ == steps_through(pos as int, stops@, *limits),
{
    let mut out: Vec<PrefillStep> = Vec::new();
    let mut at: usize = pos;
    let mut i: usize = 0;
    assert(stops@.skip(0) =~= stops@);
    while i < stops.len()
        invariant
            i <= stops.len(),
            limits.wf(),
            out@ + steps_through(at as int, stops@.skip(i as int), *limits) == steps_through(
                pos as int,
                stops@,
                *limits,
            ),
        decreases stops.len() - i,
    {
        let end: usize = stops[i];
        let ghost rest = stops@.skip(i as int);
        assert(rest[0] == end);
        assert(rest.skip(1) =~= stops@.skip(i + 1));
        if end > at {
            let rows: usize = end - at;
            let engine: bool = rows >= limits.engine_min;
            let size: usize = if engine {
                chunk_len(rows, limits.engine_rows)
            } else {
                limits.batch_rows
            };
            let ghost done = out@;
            let ghost from = at as int;
            assert(done + Seq::<PrefillStep>::empty() =~= done);
            while at < end
                invariant
                    at <= end,
                    size > 0,
                    out@ + steps_in(at as int, end as int, size as int, engine) == done + steps_in(
                        from,
                        end as int,
                        size as int,
                        engine,
                    ),
                decreases end - at,
            {
                let left: usize = end - at;
                let stop: usize = if left <= size { end } else { at + size };
                let step = PrefillStep {
                    start: at,
                    end: stop,
                    engine,
                    checkpoint: stop == end || engine,
                    release: stop == end,
                };
                let ghost more = steps_in(stop as int, end as int, size as int, engine);
                assert(out@ + (seq![step] + more) =~= out@.push(step) + more);
                out.push(step);
                at = stop;
            }
            proof {
                assert(steps_in(at as int, end as int, size as int, engine) =~= Seq::empty());
                assert(out@ + Seq::<PrefillStep>::empty() =~= out@);
                let tail = steps_through(end as int, stops@.skip(i + 1), *limits);
                assert(done + (steps_in(from, end as int, size as int, engine) + tail) =~= (done + steps_in(
                    from,
                    end as int,
                    size as int,
                    engine,
                )) + tail);
            }
        }
        i = i + 1;
    }
    assert(steps_through(at as int, stops@.skip(i as int), *limits) =~= Seq::empty());
    assert(out@ + Seq::<PrefillStep>::empty() =~= out@);
    out
}

/// The steps join from `from` to `to` without gap or overlap.
pub open spec fn joins(steps: Seq<PrefillStep>, from: int, to: int) -> bool {
    &&& steps.len() == 0 ==> from == to
    &&& steps.len() > 0 ==> steps[0].start == from && steps.last().end == to
    &&& forall|i: int| 0 <= i < steps.len() ==> (#[trigger] steps[i]).start < steps[i].end
    &&& forall|i: int| 0 < i < steps.len() ==> (#[trigger] steps[i]).start == steps[i - 1].end
}

proof fn lemma_joins_append(a: Seq<PrefillStep>, b: Seq<PrefillStep>, from: int, mid: int, to: int)
    requires
        joins(a, from, mid),
        joins(b, mid, to),
    ensures
        joins(a + b, from, to),
{
    let all = a + b;
    assert forall|i: int| 0 <= i < all.len() implies (#[trigger] all[i]).start < all[i].end by {
        if i < a.len() {
            assert(all[i] == a[i]);
        } else {
            assert(all[i] == b[i - a.len()]);
        }
    }
    assert forall|i: int| 0 < i < all.len() implies (#[trigger] all[i]).start == all[i - 1].end by {
        if i < a.len() {
            assert(all[i] == a[i] && all[i - 1] == a[i - 1]);
        } else if i == a.len() {
            assert(all[i] == b[0] && all[i - 1] == a.last());
        } else {
            assert(all[i] == b[i - a.len()] && all[i - 1] == b[i - a.len() - 1]);
        }
    }
    if b.len() > 0 {
        assert(all.last() == b.last());
    } else {
        assert(all =~= a);
    }
    if a.len() == 0 {
        assert(all =~= b);
    }
}

/// The steps of a stretch join its ends, and the last one is kept.
pub proof fn lemma_steps_in_join(pos: int, end: int, size: int, engine: bool)
    requires
        0 <= pos <= end <= usize::MAX,
        size > 0,
    ensures
        joins(steps_in(pos, end, size, engine), pos, end),
        pos < end ==> {
            let steps = steps_in(pos, end, size, engine);
            steps.len() > 0 && steps.last().checkpoint && steps.last().release
        },
    decreases end - pos,
{
    if pos < end {
        let stop = runner::chunk_end(end, pos, size);
        lemma_steps_in_join(stop, end, size, engine);
        let first = steps_in(pos, end, size, engine)[0];
        let rest = steps_in(stop, end, size, engine);
        assert(joins(seq![first], pos, stop));
        lemma_joins_append(seq![first], rest, pos, stop, end);
        assert(steps_in(pos, end, size, engine) =~= seq![first] + rest);
        if stop < end {
            assert(steps_in(pos, end, size, engine).last() == rest.last());
        }
    }
}

/// Some step ends at `end` and takes a checkpoint there.
pub open spec fn checkpointed(steps: Seq<PrefillStep>, end: int) -> bool {
    exists|i: int| 0 <= i < steps.len() && (#[trigger] steps[i]).end == end && steps[i].checkpoint
}

proof fn lemma_checkpoint_append(a: Seq<PrefillStep>, b: Seq<PrefillStep>, end: int)
    requires
        checkpointed(a, end) || checkpointed(b, end),
    ensures
        checkpointed(a + b, end),
{
    if checkpointed(a, end) {
        let i = choose|i: int| 0 <= i < a.len() && (#[trigger] a[i]).end == end && a[i].checkpoint;
        assert((a + b)[i] == a[i]);
    } else {
        let i = choose|i: int| 0 <= i < b.len() && (#[trigger] b[i]).end == end && b[i].checkpoint;
        assert((a + b)[a.len() + i] == b[i]);
    }
}

/// A stretch that has rows has steps.
pub proof fn lemma_size_positive(limits: StepLimits, rows: int)
    requires
        limits.wf(),
        rows > 0,
    ensures
        limits.size(rows) > 0,
{
    if limits.engine(rows) {
        runner::law_equal_chunks_minimal(rows as nat, limits.engine_rows as nat);
    }
}

/// No step of a stretch is longer than its size.
pub proof fn lemma_steps_in_size(pos: int, end: int, size: int, engine: bool, i: int)
    requires
        0 <= pos <= end <= usize::MAX,
        size > 0,
        0 <= i < steps_in(pos, end, size, engine).len(),
    ensures
        steps_in(pos, end, size, engine)[i].end - steps_in(pos, end, size, engine)[i].start <= size,
    decreases end - pos,
{
    let stop = runner::chunk_end(end, pos, size);
    if i > 0 {
        lemma_steps_in_size(stop, end, size, engine, i - 1);
    }
}

/// Steps that join two places end between them.
pub proof fn lemma_joined_within(steps: Seq<PrefillStep>, from: int, to: int, i: int)
    requires
        joins(steps, from, to),
        0 <= i < steps.len(),
    ensures
        from <= steps[i].start < steps[i].end <= to,
{
    lemma_joined_from(steps, from, to, i);
    lemma_joined_to(steps, from, to, i);
}

proof fn lemma_joined_from(steps: Seq<PrefillStep>, from: int, to: int, i: int)
    requires
        joins(steps, from, to),
        0 <= i < steps.len(),
    ensures
        from <= steps[i].start,
    decreases i,
{
    if i > 0 {
        lemma_joined_from(steps, from, to, i - 1);
        assert(steps[i].start == steps[i - 1].end);
    }
}

proof fn lemma_joined_to(steps: Seq<PrefillStep>, from: int, to: int, i: int)
    requires
        joins(steps, from, to),
        0 <= i < steps.len(),
    ensures
        steps[i].start < steps[i].end <= to,
    decreases steps.len() - i,
{
    if i < steps.len() - 1 {
        lemma_joined_to(steps, from, to, i + 1);
        assert(steps[i + 1].start == steps[i].end);
    }
}

/// Prefill covers the prompt from what was reused to the last stop, each row once.
pub proof fn law_prefill_covers(pos: int, stops: Seq<usize>, limits: StepLimits)
    requires
        limits.wf(),
        0 <= pos,
        stops.len() > 0,
        increasing(stops),
        pos <= stops.last(),
    ensures
        joins(steps_through(pos, stops, limits), pos, stops.last() as int),
    decreases stops.len(),
{
    let end = stops[0] as int;
    let rest = stops.skip(1);
    lemma_increasing_skip(stops);
    if rest.len() > 0 {
        assert(rest.last() == stops.last());
        assert(stops[0] < stops[stops.len() - 1]);
    }
    if end <= pos {
        if rest.len() > 0 {
            law_prefill_covers(pos, rest, limits);
        }
    } else {
        lemma_size_positive(limits, end - pos);
        lemma_steps_in_join(pos, end, limits.size(end - pos), limits.engine(end - pos));
        let head = steps_in(pos, end, limits.size(end - pos), limits.engine(end - pos));
        let tail = steps_through(end, rest, limits);
        if rest.len() > 0 {
            law_prefill_covers(end, rest, limits);
        }
        lemma_joins_append(head, tail, pos, end, stops.last() as int);
    }
}

proof fn lemma_increasing_skip(stops: Seq<usize>)
    requires
        increasing(stops),
        stops.len() > 0,
    ensures
        increasing(stops.skip(1)),
{
    let rest = stops.skip(1);
    assert forall|i: int, j: int| 0 <= i < j < rest.len() implies #[trigger] rest[i] < #[trigger] rest[j] by {
        assert(rest[i] == stops[i + 1] && rest[j] == stops[j + 1]);
    }
}

/// Every stop behind what was reused gets a checkpoint.
pub proof fn law_stops_checkpointed(pos: int, stops: Seq<usize>, limits: StepLimits, k: int)
    requires
        limits.wf(),
        0 <= pos,
        increasing(stops),
        0 <= k < stops.len(),
        pos < stops[k],
    ensures
        checkpointed(steps_through(pos, stops, limits), stops[k] as int),
    decreases stops.len(),
{
    let end = stops[0] as int;
    let rest = stops.skip(1);
    lemma_increasing_skip(stops);
    if end <= pos {
        assert(rest[k - 1] == stops[k]);
        law_stops_checkpointed(pos, rest, limits, k - 1);
    } else {
        lemma_size_positive(limits, end - pos);
        lemma_steps_in_join(pos, end, limits.size(end - pos), limits.engine(end - pos));
        let head = steps_in(pos, end, limits.size(end - pos), limits.engine(end - pos));
        let tail = steps_through(end, rest, limits);
        if k == 0 {
            assert(head[head.len() - 1] == head.last());
        } else {
            assert(stops[0] < stops[k]);
            assert(rest[k - 1] == stops[k]);
            law_stops_checkpointed(end, rest, limits, k - 1);
        }
        lemma_checkpoint_append(head, tail, stops[k] as int);
    }
}

/// What the rows of a prefill step leave for the draft head.
#[derive(Debug, Clone, Copy, PartialEq, Eq, Structural)]
pub enum DraftWork {
    /// No drafts are kept.
    Nothing,
    /// The engine's own draft, and a second one chained behind it when `chain` is set.
    EngineDraft { chain: bool },
    /// The draft head runs behind the rows and gives this many drafts.
    Head { drafts: usize },
}

/// The draft work behind a step: the engine drafts only behind the whole prompt, the
/// decode kernels' rows always fill the draft cache.
pub fn draft_work(engine: bool, last: bool, drafts: usize) -> (r: DraftWork)
    ensures
        r == if drafts == 0 {
            DraftWork::Nothing
        } else if engine {
            if last {
                DraftWork::EngineDraft { chain: drafts >= 2 }
            } else {
                DraftWork::Nothing
            }
        } else {
            DraftWork::Head { drafts: if last { drafts } else { 1 } }
        },
{
    if drafts == 0 {
        return DraftWork::Nothing;
    }
    if engine {
        if last {
            DraftWork::EngineDraft { chain: drafts >= 2 }
        } else {
            DraftWork::Nothing
        }
    } else {
        DraftWork::Head { drafts: if last { drafts } else { 1 } }
    }
}

/// What step `i` of a stretch is.
pub proof fn lemma_step_of_stretch(pos: int, end: int, size: int, engine: bool, i: int)
    requires
        0 <= pos <= end <= usize::MAX,
        size > 0,
        0 <= i < steps_in(pos, end, size, engine).len(),
    ensures
        ({
            let step = steps_in(pos, end, size, engine)[i];
            &&& step.start == pos + i * size
            &&& step.start < end
            &&& step.end == step.start + size || (step.end == end && step.end - step.start <= size)
            &&& step.end <= end
            &&& step.engine == engine
            &&& step.release == (step.end == end)
            &&& step.checkpoint == (step.end == end || engine)
        }),
    decreases end - pos,
{
    let stop = runner::chunk_end(end, pos, size);
    if i > 0 {
        lemma_step_of_stretch(stop, end, size, engine, i - 1);
        assert(steps_in(pos, end, size, engine)[i] == steps_in(stop, end, size, engine)[i - 1]);
        assert(stop == pos + size);
        assert(pos + size + (i - 1) * size == pos + i * size) by (nonlinear_arith);
    }
}

/// Each step of a prefill lies between two stops that follow each other, or what was reused and
/// the first stop behind it, and crosses none. A stretch of at least the engine's least rows goes
/// through the engine, in equal chunks that are as few as its limit allows; another goes in row
/// batches. A checkpoint is taken behind every engine chunk and at every stop, and the scratch is
/// released at every stop.
pub proof fn law_step_within_stops(pos: usize, stops: &[usize], limits: &StepLimits, steps: Vec<PrefillStep>, i: int) -> (r: (
    int,
    int,
    int,
))
    requires
        call_ensures(prefill_steps, (pos, stops, limits), steps),
        limits.wf(),
        increasing(stops@),
        0 <= i < steps@.len(),
    ensures
        ({
            let (from, to, size) = r;
            let step = steps@[i];
            let rows = to - from;
            &&& from == pos || stops@.contains(from as usize)
            &&& stops@.contains(to as usize)
            &&& pos <= from < to
            &&& forall|b: usize| #[trigger] stops@.contains(b) ==> b <= from || to <= b
            &&& from <= step.start < step.end <= to
            &&& step.engine <==> rows >= limits.engine_min
            &&& step.release <==> step.end == to
            &&& step.checkpoint <==> step.end == to || step.engine
            &&& step.end - step.start == size || (step.end == to && step.end - step.start <= size)
            &&& !step.engine ==> size == limits.batch_rows
            &&& step.engine ==> 0 < size <= limits.engine_rows
            &&& step.engine ==> forall|c: int|
                c > 0 && #[trigger] ((c - 1) * limits.engine_rows) < rows && rows <= c * limits.engine_rows ==> rows <= c
                    * size && c * (size - 1) < rows
        }),
{
    lemma_step_within(pos as int, stops@, *limits, i)
}

proof fn lemma_step_within(pos: int, stops: Seq<usize>, limits: StepLimits, i: int) -> (r: (int, int, int))
    requires
        limits.wf(),
        0 <= pos <= usize::MAX,
        increasing(stops),
        0 <= i < steps_through(pos, stops, limits).len(),
    ensures
        ({
            let (from, to, size) = r;
            let step = steps_through(pos, stops, limits)[i];
            let rows = to - from;
            &&& from == pos || stops.contains(from as usize)
            &&& stops.contains(to as usize)
            &&& pos <= from < to <= usize::MAX
            &&& forall|b: usize| #[trigger] stops.contains(b) ==> b <= from || to <= b
            &&& from <= step.start < step.end <= to
            &&& step.engine <==> rows >= limits.engine_min
            &&& step.release <==> step.end == to
            &&& step.checkpoint <==> step.end == to || step.engine
            &&& step.end - step.start == size || (step.end == to && step.end - step.start <= size)
            &&& !step.engine ==> size == limits.batch_rows
            &&& step.engine ==> 0 < size <= limits.engine_rows
            &&& step.engine ==> forall|c: int|
                c > 0 && #[trigger] ((c - 1) * limits.engine_rows) < rows && rows <= c * limits.engine_rows ==> rows <= c
                    * size && c * (size - 1) < rows
        }),
    decreases stops.len(),
{
    let end = stops[0] as int;
    let rest = stops.skip(1);
    lemma_increasing_skip(stops);
    assert forall|b: usize| #[trigger] stops.contains(b) <==> b == end || rest.contains(b) by {
        if stops.contains(b) {
            let k = choose|k: int| 0 <= k < stops.len() && stops[k] == b;
            if k > 0 {
                assert(rest[k - 1] == b);
            }
        }
        if rest.contains(b) {
            let k = choose|k: int| 0 <= k < rest.len() && rest[k] == b;
            assert(stops[k + 1] == b);
        }
        if b == end {
            assert(stops[0] == b);
        }
    }
    assert forall|b: usize| #[trigger] rest.contains(b) implies end < b by {
        let k = choose|k: int| 0 <= k < rest.len() && rest[k] == b;
        assert(stops[0] < stops[k + 1]);
    }
    if end <= pos {
        let r = lemma_step_within(pos, rest, limits, i);
        assert(stops.contains(r.1 as usize));
        r
    } else {
        let rows = end - pos;
        let size = limits.size(rows);
        let head = steps_in(pos, end, size, limits.engine(rows));
        lemma_size_positive(limits, rows);
        if i < head.len() {
            lemma_step_of_stretch(pos, end, size, limits.engine(rows), i);
            lemma_steps_in_join(pos, end, size, limits.engine(rows));
            lemma_joined_within(head, pos, end, i);
            assert(pos <= pos + i * size) by (nonlinear_arith)
                requires
                    i >= 0,
                    size > 0,
            ;
            if limits.engine(rows) {
                runner::law_equal_chunks_minimal(rows as nat, limits.engine_rows as nat);
                assert forall|c: int|
                    c > 0 && #[trigger] ((c - 1) * limits.engine_rows) < rows && rows <= c * limits.engine_rows implies rows
                    <= c * size && c * (size - 1) < rows by {
                    runner::lemma_equal_chunk(rows, limits.engine_rows as int, c);
                }
            }
            assert(stops.contains(end as usize));
            (pos, end, size)
        } else {
            let r = lemma_step_within(end, rest, limits, i - head.len());
            assert(steps_through(pos, stops, limits)[i] == steps_through(end, rest, limits)[i - head.len()]);
            assert(r.0 == end ==> stops.contains(r.0 as usize));
            assert(stops.contains(r.1 as usize));
            r
        }
    }
}

/// Prefill stops exactly at the end of the prompt and, where checkpoints are kept, before its last
/// token and at every stable place behind what was reused; each place once, in order.
pub proof fn law_stops_exact(total: usize, cached: usize, stable: &[usize], keep: bool, r: Vec<usize>, b: usize, i: int, j: int)
    requires
        total > 0,
        call_ensures(boundaries, (total, cached, stable, keep), r),
    ensures
        0 <= i < j < r@.len() ==> r@[i] < r@[j],
        r@.contains(b) <==> b == total || (keep && ((total > 1 && b == total - 1) || (cached < b < total
            && stable@.contains(b)))),
{
}

/// Drafts are kept behind row batches always, one each until the prompt's end; the engine drafts
/// only behind the whole prompt, once, and a second time where two drafts are asked for.
pub proof fn law_draft_work_exact(engine: bool, last: bool, drafts: usize, r: DraftWork)
    requires
        call_ensures(draft_work, (engine, last, drafts), r),
    ensures
        r is Nothing <==> drafts == 0 || (engine && !last),
        r is Head <==> drafts > 0 && !engine,
        r matches DraftWork::Head { drafts: n } ==> (last ==> n == drafts) && (!last ==> n == 1),
        r matches DraftWork::EngineDraft { chain } ==> engine && last && (chain <==> drafts > 1),
{
}

/// The developer's numbers count before what is measured, and every limit is at least one row.
pub proof fn law_step_limits_exact(
    prefill_min: Option<usize>,
    prefill_chunk: Option<usize>,
    rows_fit: usize,
    rows_cap: Option<usize>,
    kernel_rows: usize,
    r: StepLimits,
)
    requires
        kernel_rows > 0,
        call_ensures(step_limits, (prefill_min, prefill_chunk, rows_fit, rows_cap, kernel_rows), r),
    ensures
        prefill_min is None ==> r.engine_min == 64,
        prefill_min matches Some(n) ==> r.engine_min == n,
        r.engine_rows >= 1,
        prefill_chunk matches Some(n) ==> n > 0 ==> r.engine_rows == n,
        prefill_chunk is None && rows_fit > 0 ==> r.engine_rows == rows_fit,
        1 <= r.batch_rows <= kernel_rows,
        rows_cap is None ==> r.batch_rows == kernel_rows,
        rows_cap matches Some(n) ==> 1 <= n <= kernel_rows ==> r.batch_rows == n,
{
}

/// A checkpoint takes its state, its bookkeeping, and four bytes for each token and draft.
pub proof fn law_checkpoint_size(state: usize, pos: usize, overhead: usize, drafts: usize, r: usize)
    requires
        call_ensures(checkpoint_bytes, (state, pos, overhead, drafts), r),
    ensures
        r == state + overhead + 4 * (pos + drafts),
{
}

} // verus!
