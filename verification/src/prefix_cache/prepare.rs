//! A prompt that begins behind the longest checkpoint that serves it.

use super::plan;
use super::plan::{boundaries, prefill_steps, PrefillStep, StepLimits};
use super::{Entry, PrefixCache};
use crate::runner::prefill::{Prefilling, Stage};
use crate::runner::PrefillResume;
use vstd::prelude::*;

verus! {

/// What a prompt reuses, and the way to its end.
#[derive(Debug)]
pub struct Preparation {
    /// The most recent checkpoint is to be restored: the prompt starts with its tokens.
    pub restore: bool,
    /// How many tokens it covers.
    pub cached: usize,
    pub prompt: Prefilling,
}

/// Whether prefill stops at the places of a list, in order.
pub open spec fn stops_of(stops: Seq<usize>, total: nat, cached: nat, stable: Seq<usize>, keep: bool) -> bool {
    &&& plan::increasing(stops)
    &&& forall|b: usize| #[trigger]
        stops.contains(b) <==> plan::is_boundary(b as int, total as int, cached as int, stable, keep)
}

impl Preparation {
    /// The way from what was reused to the end of a prompt: nothing where all of it was.
    pub open spec fn leads(self, ids: Seq<u32>, stable: Seq<usize>, limits: StepLimits, keep: bool) -> bool {
        if self.cached == ids.len() {
            self.prompt.steps@.len() == 0
        } else {
            &&& exists|stops: Seq<usize>| #[trigger]
                stops_of(stops, ids.len(), self.cached as nat, stable, keep) && self.prompt.steps@
                    == plan::steps_through(self.cached as int, stops, limits)
            &&& plan::joins(self.prompt.steps@, self.cached as int, ids.len() as int)
        }
    }
}

impl<S> PrefixCache<S> {
    /// What preparing a prompt does: what was idle for too long goes, the longest checkpoint
    /// that serves the prompt becomes the most recent one, and the rest of the prompt is
    /// planned behind it.
    pub open spec fn prepares(
        self,
        ids: Seq<u32>,
        stable: Seq<usize>,
        limits: StepLimits,
        n_draft: usize,
        now: u128,
        r: Preparation,
        after: PrefixCache<S>,
    ) -> bool {
        &&& after.wf()
        &&& after.same_limits(self)
        &&& after.evictions == self.evictions + self.expired(now)
        &&& r.restore == exists|i: int| 0 <= i < self.live(now).len() && super::serves(#[trigger] self.live(now)[i], ids)
        &&& !r.restore ==> after.entries@ == self.live(now) && r.cached == 0
        &&& r.restore ==> exists|i: int|
            #[trigger] super::longest_match(self.live(now), ids, i) && after.entries@ == super::moved_to_back(
                self.live(now),
                i,
                now,
            ) && r.cached == self.live(now)[i].tokens@.len()
        &&& r.prompt.wf()
        &&& r.prompt.ids@ == ids
        &&& r.prompt.n_draft == n_draft
        &&& r.prompt.at == 0
        &&& r.prompt.stage == Stage::Rows
        &&& r.leads(ids, stable, limits, self.capacity > 0)
        &&& if r.cached == ids.len() {
            let e = after.entries@.last();
            r.prompt.seed.next == e.next && r.prompt.seed.drafts@ == e.drafts@
        } else {
            r.prompt.seed.next == ids[0] && r.prompt.seed.drafts@.len() == 0
        }
    }

    /// Finds the longest checkpoint that serves a prompt, makes it the most recent one, and
    /// plans the rest of the prompt. What was idle for too long is dropped before.
    pub fn prepare(&mut self, ids: Vec<u32>, stable: &[usize], limits: &StepLimits, n_draft: usize, now: u128) -> (r:
        Preparation)
        requires
            old(self).wf(),
            old(self).evictions + old(self).entries@.len() <= u64::MAX,
            ids@.len() > 0,
            limits.wf(),
        ensures
            old(self).prepares(ids@, stable@, *limits, n_draft, now, r, *final(self)),
    {
        let ghost live = self.live(now);
        let restore: bool = self.reuse(ids.as_slice(), now);
        let mut cached: usize = 0;
        let mut seed = PrefillResume { next: ids[0], drafts: Vec::new() };
        if restore {
            let ghost i = choose|i: int|
                #[trigger] super::longest_match(live, ids@, i) && self.entries@ == super::moved_to_back(live, i, now);
            let last: usize = self.entries.len() - 1;
            let entry: &Entry<S> = &self.entries[last];
            assert(*entry == self.entries@.last());
            assert(entry.tokens == live[i].tokens);
            cached = entry.tokens.len();
            if cached == ids.len() {
                let mut drafts: Vec<u32> = Vec::new();
                drafts.extend_from_slice(entry.drafts.as_slice());
                assert(drafts@ =~= entry.drafts@);
                seed = PrefillResume { next: entry.next, drafts };
                let prompt = Prefilling { ids, steps: Vec::new(), at: 0, n_draft, seed, stage: Stage::Rows };
                return Preparation { restore, cached, prompt };
            }
        }
        let stops: Vec<usize> = boundaries(ids.len(), cached, stable, self.capacity > 0);
        let steps: Vec<PrefillStep> = prefill_steps(cached, stops.as_slice(), limits);
        proof {
            let total = ids@.len() as int;
            lemma_last_stop(stops@, ids@.len(), cached as nat, stable@, self.capacity > 0);
            plan::law_prefill_covers(cached as int, stops@, *limits);
            assert forall|i: int| 0 <= i < steps@.len() implies (#[trigger] steps@[i]).start < steps@[i].end <= total by {
                plan::lemma_joined_within(steps@, cached as int, total, i);
            }
            assert(stops_of(stops@, ids@.len(), cached as nat, stable@, old(self).capacity > 0));
        }
        let prompt = Prefilling { ids, steps, at: 0, n_draft, seed, stage: Stage::Rows };
        Preparation { restore, cached, prompt }
    }
}

/// The last place where prefill stops is the end of the prompt.
proof fn lemma_last_stop(stops: Seq<usize>, total: nat, cached: nat, stable: Seq<usize>, keep: bool)
    requires
        stops_of(stops, total, cached, stable, keep),
        0 < total <= usize::MAX,
        cached < total,
    ensures
        stops.len() > 0,
        stops.last() == total,
{
    assert(stops.contains(total as usize));
    let k = choose|k: int| 0 <= k < stops.len() && stops[k] == total;
    if k < stops.len() - 1 {
        assert(stops[k] < stops.last());
        assert(stops.contains(stops.last()));
    }
}

/// A prompt that was prepared is complete behind its last step, and all of what it is made of
/// was either reused or runs through the device, each token once.
pub proof fn law_prepared_prompt_complete(
    p: Preparation,
    ids: Seq<u32>,
    stable: Seq<usize>,
    limits: StepLimits,
    keep: bool,
)
    requires
        p.leads(ids, stable, limits, keep),
        p.cached < ids.len(),
    ensures
        p.prompt.steps@.len() > 0,
        p.prompt.steps@[0].start == p.cached,
        p.prompt.steps@.last().end == ids.len(),
{
}

/// The most recent checkpoint is the state behind the whole of a prompt.
pub open spec fn holds_all<S>(cache: PrefixCache<S>, ids: Seq<u32>) -> bool {
    &&& cache.entries@.len() > 0
    &&& cache.entries@.last().tokens@ == ids
    &&& cache.entries@.last().complete
}

proof fn lemma_held_moved<S>(entries: Seq<Entry<S>>, now: u128)
    requires
        entries.len() > 0,
    ensures
        super::held(super::moved_to_back(entries, entries.len() - 1, now)) == super::held(entries),
        super::moved_to_back(entries, entries.len() - 1, now).len() == entries.len(),
{
    let last = entries.len() - 1;
    super::lemma_held_remove(entries, last);
    super::lemma_held_push(entries.remove(last), Entry { touched: now, ..entries[last] });
}

/// What is held of the whole of a prompt is what the prompt reuses.
proof fn lemma_whole_reused<S>(
    cache: PrefixCache<S>,
    ids: Seq<u32>,
    stable: Seq<usize>,
    limits: StepLimits,
    n_draft: usize,
    now: u128,
    p: Preparation,
    after: PrefixCache<S>,
)
    requires
        cache.wf(),
        holds_all(cache, ids),
        cache.expired(now) == 0,
        cache.prepares(ids, stable, limits, n_draft, now, p, after),
    ensures
        p.restore,
        p.cached == ids.len(),
        p.prompt.steps@.len() == 0,
        p.prompt.seed.next == cache.entries@.last().next,
        p.prompt.seed.drafts@ == cache.entries@.last().drafts@,
        after.stats_of() == cache.stats_of(),
        holds_all(after, ids),
        after.entries@.last().next == cache.entries@.last().next,
        after.entries@.last().drafts == cache.entries@.last().drafts,
{
    let entries = cache.entries@;
    let last = entries.len() - 1;
    assert(cache.live(now) =~= entries);
    assert(ids.take(ids.len() as int) =~= ids);
    assert(super::serves(entries[last], ids));
    assert(super::serves(cache.live(now)[last], ids));
    let i = choose|i: int|
        #[trigger] super::longest_match(cache.live(now), ids, i) && after.entries@ == super::moved_to_back(
            cache.live(now),
            i,
            now,
        ) && p.cached == cache.live(now)[i].tokens@.len();
    super::law_longest_match_unique(entries, ids, i, last);
    lemma_held_moved(entries, now);
}

/// A prompt that was prepared and kept is reused as a whole when it is prepared again: nothing
/// is prefilled, the answer is the one that was kept, and the number of checkpoints, the bytes
/// that they hold and the evictions stay as they were. Either the first preparation found the
/// whole prompt, or the checkpoint behind its last step was stored.
pub proof fn law_prepared_again_reused<S>(
    start: PrefixCache<S>,
    ids: Seq<u32>,
    stable: Seq<usize>,
    limits: StepLimits,
    n_draft: usize,
    now: u128,
    first: Preparation,
    found: PrefixCache<S>,
    before_store: PrefixCache<S>,
    room: PrefixCache<S>,
    next: u32,
    drafts: Vec<u32>,
    lookahead: bool,
    state: S,
    bytes: usize,
    kept_at: u128,
    kept: PrefixCache<S>,
    later: u128,
    second: Preparation,
    done: PrefixCache<S>,
)
    requires
        start.wf(),
        0 < ids.len() <= usize::MAX,
        start.prepares(ids, stable, limits, n_draft, now, first, found),
        if first.cached == ids.len() {
            kept == found && next == first.prompt.seed.next && drafts@ == first.prompt.seed.drafts@
        } else {
            &&& before_store.wf()
            &&& before_store.same_limits(start)
            &&& bytes <= start.capacity
            &&& before_store.room_made(ids, ids.len() as usize, bytes, true, room)
            &&& room.inserted(ids, ids.len() as usize, next, drafts, lookahead, state, bytes, kept_at, kept)
        },
        kept.expired(later) == 0,
        kept.prepares(ids, stable, limits, n_draft, later, second, done),
    ensures
        second.restore,
        second.cached == ids.len(),
        second.prompt.steps@.len() == 0,
        second.prompt.seed.next == next,
        second.prompt.seed.drafts@ == drafts@,
        done.stats_of() == kept.stats_of(),
{
    assert(ids.take(ids.len() as int) =~= ids);
    if first.cached == ids.len() {
        assert(first.restore);
        let live = start.live(now);
        let i = choose|i: int|
            #[trigger] super::longest_match(live, ids, i) && found.entries@ == super::moved_to_back(live, i, now)
                && first.cached == live[i].tokens@.len();
        let e = found.entries@.last();
        assert(e == (Entry { touched: now, ..live[i] }));
        assert(super::serves(live[i], ids));
    }
    assert(holds_all(kept, ids));
    lemma_whole_reused(kept, ids, stable, limits, n_draft, later, second, done);
}

/// A cache that may hold nothing, and holds nothing.
pub open spec fn disabled<S>(cache: PrefixCache<S>) -> bool {
    &&& cache.wf()
    &&& cache.capacity == 0
    &&& cache.stats_of() == (0nat, 0nat, 0nat)
}

/// Whether a cache is what a prompt's preparation left of another.
pub open spec fn prepared_from<S>(start: PrefixCache<S>, done: PrefixCache<S>) -> bool {
    exists|ids: Seq<u32>, stable: Seq<usize>, limits: StepLimits, n_draft: usize, now: u128, p: Preparation|
        ids.len() > 0 && #[trigger] start.prepares(ids, stable, limits, n_draft, now, p, done)
}

/// Whether a cache is what an attempt to keep a checkpoint left of another. A checkpoint takes
/// some bytes.
pub open spec fn stored_from<S>(start: PrefixCache<S>, done: PrefixCache<S>) -> bool {
    exists|
        ids: Seq<u32>,
        pos: usize,
        next: u32,
        drafts: Vec<u32>,
        lookahead: bool,
        state: S,
        bytes: usize,
        now: u128,
        stored: bool,
        room: PrefixCache<S>,
    |
        bytes > 0 && #[trigger] start.room_made(ids, pos, bytes, stored, room) && (!stored ==> done == room) && (stored
            ==> #[trigger] room.inserted(ids, pos, next, drafts, lookahead, state, bytes, now, done))
}

/// A capacity of nothing disables the cache: over any number of preparations and attempts to
/// keep a checkpoint it stays empty, and nothing is ever evicted.
pub proof fn law_disabled_cache_stays_empty<S>(caches: Seq<PrefixCache<S>>, i: int)
    requires
        0 <= i < caches.len(),
        disabled(caches[0]),
        forall|k: int|
            0 <= k < caches.len() - 1 ==> prepared_from(#[trigger] caches[k], caches[k + 1]) || stored_from(
                caches[k],
                caches[k + 1],
            ),
    ensures
        disabled(caches[i]),
    decreases i,
{
    if i > 0 {
        law_disabled_cache_stays_empty(caches, i - 1);
        let (a, b) = (caches[i - 1], caches[i]);
        assert(prepared_from(caches[i - 1], caches[i - 1 + 1]) || stored_from(caches[i - 1], caches[i - 1 + 1]));
        if prepared_from(a, b) {
            let (ids, stable, limits, n_draft, now, p) = choose|
                ids: Seq<u32>,
                stable: Seq<usize>,
                limits: StepLimits,
                n_draft: usize,
                now: u128,
                p: Preparation,
            |
                ids.len() > 0 && #[trigger] a.prepares(ids, stable, limits, n_draft, now, p, b);
            law_disabled_cache_reuses_nothing(a, ids, stable, limits, n_draft, now, p, b);
        }
    }
}

/// A disabled cache gives a prompt nothing, and stays disabled.
pub proof fn law_disabled_cache_reuses_nothing<S>(
    start: PrefixCache<S>,
    ids: Seq<u32>,
    stable: Seq<usize>,
    limits: StepLimits,
    n_draft: usize,
    now: u128,
    p: Preparation,
    done: PrefixCache<S>,
)
    requires
        disabled(start),
        start.prepares(ids, stable, limits, n_draft, now, p, done),
    ensures
        !p.restore,
        p.cached == 0,
        disabled(done),
{
    assert(start.live(now).len() == 0);
    assert(super::held(done.entries@) == 0);
}

/// What preparing a prompt gives. Tokens are reused exactly where a checkpoint that has not been
/// idle for too long serves the prompt; they are those of the longest such checkpoint, which is
/// a beginning of the prompt. The rest runs once, in order, from there to the prompt's end, and
/// nothing runs where nothing is left; then the answer is the one that was kept.
pub proof fn law_prepared_behind_the_longest<S>(
    cache: &mut PrefixCache<S>,
    ids: Vec<u32>,
    stable: &[usize],
    limits: &StepLimits,
    n_draft: usize,
    now: u128,
    r: Preparation,
    k: int,
    i: int,
)
    requires
        old(cache).wf(),
        ids@.len() > 0,
        limits.wf(),
        call_ensures(PrefixCache::<S>::prepare, (cache, ids, stable, limits, n_draft, now), r),
        0 <= k < old(cache).entries@.len(),
    ensures
        r.cached <= ids@.len(),
        !r.restore ==> r.cached == 0,
        r.restore ==> final(cache).entries@.len() > 0 && final(cache).entries@.last().tokens@.len() == r.cached && final(cache).entries@.last().touched == now && (0 <= i < r.cached ==> final(cache).entries@.last().tokens@[i] == ids@[i]),
        super::matching(
            old(cache).entries@[k].tokens@,
            old(cache).entries@[k].following,
            old(cache).entries@[k].complete,
            ids@,
        ) && k >= old(cache).expired(now) ==> r.restore && old(cache).entries@[k].tokens@.len() <= r.cached,
        r.cached < ids@.len() ==> r.prompt.steps@.len() > 0 && r.prompt.steps@[0].start == r.cached
            && r.prompt.steps@.last().end == ids@.len(),
        r.cached == ids@.len() ==> r.prompt.steps@.len() == 0 && r.prompt.seed.next == final(cache).entries@.last().next
            && r.prompt.seed.drafts@ == final(cache).entries@.last().drafts@,
        0 < i < r.prompt.steps@.len() ==> r.prompt.steps@[i].start == r.prompt.steps@[i - 1].end,
        r.prompt.ids@ == ids@,
{
    let live = old(cache).live(now);
    super::lemma_expired(*old(cache), now);
    if r.restore {
        let m = choose|m: int|
            #[trigger] super::longest_match(live, ids@, m) && final(cache).entries@ == super::moved_to_back(live, m, now)
                && r.cached == live[m].tokens@.len();
        super::law_longest_is_reused(live, ids@, m, now, final(cache).entries@, m);
        super::law_checkpoint_serves_exactly(live[m].tokens@, live[m].following, live[m].complete, ids@);
        assert(final(cache).entries@.last().tokens == live[m].tokens);
    }
    if k >= old(cache).expired(now) {
        let at = k - old(cache).expired(now);
        assert(live[at] == old(cache).entries@[k]);
        if super::matching(live[at].tokens@, live[at].following, live[at].complete, ids@) {
            assert(super::serves(live[at], ids@));
        }
    }
}

} // verus!
