//! Bounded checkpoints of complete sequence state, kept by recency.
//!
//! A checkpoint is stored under the tokens it covers. A request reuses the longest
//! checkpoint whose tokens it starts with and whose lookahead it shares; the rest of the
//! prompt is prefilled in chunks that leave new checkpoints behind.

use std::collections::VecDeque;
use vstd::prelude::*;

pub mod plan;
pub mod prepare;

verus! {

/// One checkpoint. `S` is the program's copy of the device state.
#[derive(Debug)]
pub struct Entry<S> {
    pub tokens: Vec<u32>,
    /// The token that the last cache row looked ahead to.
    pub following: Option<u32>,
    /// Whether the tokens were the whole prompt.
    pub complete: bool,
    pub next: u32,
    pub drafts: Vec<u32>,
    pub state: S,
    pub bytes: usize,
    /// When the checkpoint was last used, in nanoseconds of a monotonic clock.
    pub touched: u128,
}

#[derive(Debug)]
pub struct PrefixCache<S> {
    pub entries: VecDeque<Entry<S>>,
    pub capacity: usize,
    pub used: usize,
    pub evictions: u64,
    pub max_entries: usize,
    /// Nanoseconds without use after which a checkpoint is dropped.
    pub idle: Option<u128>,
}

/// `request` starts with `tokens`.
pub open spec fn starts_with(request: Seq<u32>, tokens: Seq<u32>) -> bool {
    tokens.len() <= request.len() && request.take(tokens.len() as int) == tokens
}

/// A checkpoint serves a request that starts with its tokens: for the whole request it has
/// to be the state after a whole prompt; otherwise the request has to continue with the
/// token that the checkpoint's last row looked ahead to, if there is one.
pub open spec fn matching(tokens: Seq<u32>, following: Option<u32>, complete: bool, request: Seq<u32>) -> bool {
    &&& starts_with(request, tokens)
    &&& if request.len() == tokens.len() {
        complete
    } else {
        following is None || request[tokens.len() as int] == following->0
    }
}

/// Whether `request` starts with `tokens`.
fn prefix_of(tokens: &Vec<u32>, request: &[u32]) -> (r: bool)
    ensures
        r == starts_with(request@, tokens@),
{
    if tokens.len() > request.len() {
        return false;
    }
    let mut i: usize = 0;
    while i < tokens.len()
        invariant
            i <= tokens.len() <= request.len(),
            forall|k: int| 0 <= k < i ==> tokens@[k] == request@[k],
        decreases tokens.len() - i,
    {
        if tokens[i] != request[i] {
            assert(request@.take(tokens.len() as int)[i as int] != tokens@[i as int]);
            return false;
        }
        i = i + 1;
    }
    assert(request@.take(tokens.len() as int) =~= tokens@);
    true
}

/// Whether a checkpoint serves a request.
pub fn matches(tokens: &Vec<u32>, following: Option<u32>, complete: bool, request: &[u32]) -> (r: bool)
    ensures
        r == matching(tokens@, following, complete, request@),
{
    if !prefix_of(tokens, request) {
        return false;
    }
    if request.len() == tokens.len() {
        complete
    } else {
        match following {
            None => true,
            Some(next) => request[tokens.len()] == next,
        }
    }
}

/// The bytes that checkpoints hold together.
pub open spec fn held<S>(entries: Seq<Entry<S>>) -> nat
    decreases entries.len(),
{
    if entries.len() == 0 {
        0
    } else {
        entries[0].bytes as nat + held(entries.skip(1))
    }
}

/// The oldest checkpoints that were idle for at least `idle` at `now`.
pub open spec fn stale<S>(entries: Seq<Entry<S>>, idle: u128, now: u128) -> nat
    decreases entries.len(),
{
    if entries.len() > 0 && now - entries[0].touched >= idle {
        1 + stale(entries.skip(1), idle, now)
    } else {
        0
    }
}

/// The checkpoints left after the oldest made room for another of `bytes`.
pub open spec fn with_room<S>(entries: Seq<Entry<S>>, bytes: nat, capacity: nat, max_entries: nat) -> Seq<Entry<S>>
    decreases entries.len(),
{
    if entries.len() > 0 && (held(entries) + bytes > capacity || entries.len() >= max_entries) {
        with_room(entries.skip(1), bytes, capacity, max_entries)
    } else {
        entries
    }
}

/// Checkpoint `i` is the one that a request reuses: it serves the request, no other that
/// does is longer, and it is the most recent of the longest.
pub open spec fn longest_match<S>(entries: Seq<Entry<S>>, request: Seq<u32>, i: int) -> bool {
    &&& 0 <= i < entries.len()
    &&& serves(entries[i], request)
    &&& forall|k: int|
        0 <= k < entries.len() && #[trigger] serves(entries[k], request) ==> entries[k].tokens.len()
            <= entries[i].tokens.len()
    &&& forall|k: int|
        i < k < entries.len() && #[trigger] serves(entries[k], request) ==> entries[k].tokens.len()
            < entries[i].tokens.len()
}

/// Checkpoint `i`, touched at `now`, becomes the most recent one.
pub open spec fn moved_to_back<S>(entries: Seq<Entry<S>>, i: int, now: u128) -> Seq<Entry<S>> {
    entries.remove(i).push(Entry { touched: now, ..entries[i] })
}

pub open spec fn serves<S>(entry: Entry<S>, request: Seq<u32>) -> bool {
    matching(entry.tokens@, entry.following, entry.complete, request)
}

/// No two checkpoints cover the same tokens.
pub open spec fn distinct<S>(entries: Seq<Entry<S>>) -> bool {
    forall|i: int, j: int|
        0 <= i < j < entries.len() ==> (#[trigger] entries[i]).tokens@ != (#[trigger] entries[j]).tokens@
}

pub(crate) proof fn lemma_held_remove<S>(entries: Seq<Entry<S>>, i: int)
    requires
        0 <= i < entries.len(),
    ensures
        held(entries.remove(i)) + entries[i].bytes == held(entries),
    decreases entries.len(),
{
    if i == 0 {
        assert(entries.remove(0) =~= entries.skip(1));
    } else {
        lemma_held_remove(entries.skip(1), i - 1);
        assert(entries.remove(i).skip(1) =~= entries.skip(1).remove(i - 1));
        assert(entries.remove(i)[0] == entries[0]);
    }
}

pub(crate) proof fn lemma_held_push<S>(entries: Seq<Entry<S>>, e: Entry<S>)
    ensures
        held(entries.push(e)) == held(entries) + e.bytes,
    decreases entries.len(),
{
    reveal_with_fuel(held, 2);
    if entries.len() == 0 {
        assert(entries.push(e).skip(1) =~= Seq::<Entry<S>>::empty());
    } else {
        lemma_held_push(entries.skip(1), e);
        assert(entries.push(e).skip(1) =~= entries.skip(1).push(e));
        assert(entries.push(e)[0] == entries[0]);
    }
}

/// Room is made by dropping the oldest checkpoints only, and only as many as needed.
pub proof fn law_room_made<S>(entries: Seq<Entry<S>>, bytes: nat, capacity: nat, max_entries: nat)
    requires
        bytes <= capacity,
        max_entries > 0,
    ensures
        held(with_room(entries, bytes, capacity, max_entries)) + bytes <= capacity,
        with_room(entries, bytes, capacity, max_entries).len() < max_entries,
        with_room(entries, bytes, capacity, max_entries).len() <= entries.len(),
        with_room(entries, bytes, capacity, max_entries) == entries.skip(
            entries.len() - with_room(entries, bytes, capacity, max_entries).len(),
        ),
    decreases entries.len(),
{
    if entries.len() > 0 && (held(entries) + bytes > capacity || entries.len() >= max_entries) {
        law_room_made(entries.skip(1), bytes, capacity, max_entries);
        let left = with_room(entries, bytes, capacity, max_entries);
        assert(entries.skip(1).skip(entries.len() - 1 - left.len()) =~= entries.skip(entries.len() - left.len()));
    } else {
        assert(entries.skip(0) =~= entries);
    }
}

proof fn lemma_distinct_skip<S>(entries: Seq<Entry<S>>, k: int)
    requires
        distinct(entries),
        0 <= k <= entries.len(),
    ensures
        distinct(entries.skip(k)),
{
    assert forall|i: int, j: int| 0 <= i < j < entries.skip(k).len() implies (#[trigger] entries.skip(k)[i]).tokens@
        != (#[trigger] entries.skip(k)[j]).tokens@ by {
        assert(entries.skip(k)[i] == entries[i + k]);
        assert(entries.skip(k)[j] == entries[j + k]);
    }
}

impl<S> PrefixCache<S> {
    /// The bytes used are those of the checkpoints and within the capacity; there are at
    /// most as many as allowed, under distinct tokens.
    pub open spec fn wf(self) -> bool {
        &&& self.used == held(self.entries@)
        &&& self.used <= self.capacity
        &&& self.entries@.len() <= self.max_entries
        &&& distinct(self.entries@)
    }

    /// How many of the oldest checkpoints were idle for too long at `now`.
    pub open spec fn expired(self, now: u128) -> nat {
        match self.idle {
            Some(idle) => stale(self.entries@, idle, now),
            None => 0,
        }
    }

    /// The checkpoints that were not idle for too long at `now`.
    pub open spec fn live(self, now: u128) -> Seq<Entry<S>> {
        self.entries@.skip(self.expired(now) as int)
    }

    pub open spec fn same_limits(self, other: PrefixCache<S>) -> bool {
        self.capacity == other.capacity && self.max_entries == other.max_entries && self.idle == other.idle
    }

    pub fn new(capacity: usize, max_entries: usize, idle_seconds: u64) -> (r: PrefixCache<S>)
        ensures
            r.wf(),
            r.entries@ == Seq::<Entry<S>>::empty(),
            r.capacity == capacity,
            r.used == 0,
            r.evictions == 0,
            r.max_entries == max_entries,
            r.idle == if idle_seconds > 0 {
                Some((idle_seconds * 1_000_000_000) as u128)
            } else {
                None
            },
    {
        let idle: Option<u128> = if idle_seconds > 0 {
            Some(idle_seconds as u128 * 1_000_000_000)
        } else {
            None
        };
        PrefixCache { entries: VecDeque::new(), capacity, used: 0, evictions: 0, max_entries, idle }
    }

    /// Drop the oldest checkpoint, if there is one.
    pub fn evict_oldest(&mut self)
        requires
            old(self).wf(),
            old(self).evictions < u64::MAX,
        ensures
            final(self).wf(),
            final(self).same_limits(*old(self)),
            old(self).entries@.len() == 0 ==> {
                &&& final(self).entries@ == old(self).entries@
                &&& final(self).used == old(self).used
                &&& final(self).evictions == old(self).evictions
            },
            old(self).entries@.len() > 0 ==> {
                &&& final(self).entries@ == old(self).entries@.skip(1)
                &&& final(self).used == old(self).used - old(self).entries@[0].bytes
                &&& final(self).evictions == old(self).evictions + 1
            },
    {
        proof {
            if self.entries@.len() > 0 {
                lemma_distinct_skip(self.entries@, 1);
            }
        }
        match self.entries.pop_front() {
            Some(entry) => {
                assert(self.entries@ =~= old(self).entries@.skip(1));
                self.used = self.used - entry.bytes;
                self.evictions = self.evictions + 1;
            },
            None => {},
        }
    }

    /// Drop the checkpoints that were idle for too long at `now`.
    pub fn expire(&mut self, now: u128)
        requires
            old(self).wf(),
            old(self).evictions + old(self).entries@.len() <= u64::MAX,
        ensures
            final(self).wf(),
            final(self).same_limits(*old(self)),
            old(self).expired(now) <= old(self).entries@.len(),
            final(self).entries@ == old(self).live(now),
            final(self).evictions == old(self).evictions + old(self).expired(now),
    {
        match self.idle {
            None => {
                assert(self.entries@ =~= self.entries@.skip(0));
            },
            Some(idle) => {
                let ghost start = *self;
                let ghost mut gone: int = 0;
                assert(self.entries@.skip(0) =~= self.entries@);
                while self.entries.len() > 0
                    invariant_except_break
                        self.wf(),
                        self.same_limits(start),
                        start.evictions + start.entries@.len() <= u64::MAX,
                        0 <= gone <= start.entries@.len(),
                        self.entries@ == start.entries@.skip(gone),
                        self.evictions == start.evictions + gone,
                        stale(start.entries@, idle, now) == gone + stale(self.entries@, idle, now),
                    ensures
                        self.wf(),
                        self.same_limits(start),
                        0 <= gone <= start.entries@.len(),
                        self.entries@ == start.entries@.skip(gone),
                        self.evictions == start.evictions + gone,
                        stale(start.entries@, idle, now) == gone,
                    decreases self.entries@.len(),
                {
                    let touched: u128 = self.entries[0].touched;
                    if now < touched || now - touched < idle {
                        break;
                    }
                    self.evict_oldest();
                    proof {
                        assert(start.entries@.skip(gone).skip(1) =~= start.entries@.skip(gone + 1));
                        gone = gone + 1;
                    }
                }
            },
        }
    }

    /// How many checkpoints there are, the bytes they hold, and how many were dropped.
    pub open spec fn stats_of(self) -> (nat, nat, nat) {
        (self.entries@.len(), self.used as nat, self.evictions as nat)
    }

    pub fn stats(&self) -> (r: (usize, usize, u64))
        ensures
            (r.0 as nat, r.1 as nat, r.2 as nat) == self.stats_of(),
    {
        (self.entries.len(), self.used, self.evictions)
    }

    /// What making room for a checkpoint of the first `pos` tokens does: a checkpoint that is
    /// larger than the whole cache, or of nothing, is not stored and changes nothing. For
    /// another, an older checkpoint of the same tokens goes, and then the oldest ones.
    pub open spec fn room_made(self, ids: Seq<u32>, pos: usize, bytes: usize, r: bool, after: PrefixCache<S>) -> bool {
        &&& after.wf()
        &&& after.same_limits(self)
        &&& r == (bytes <= self.capacity && pos > 0)
        &&& !r ==> after == self
        &&& r ==> after.has_room(ids.take(pos as int), bytes)
        &&& r ==> exists|kept: Seq<Entry<S>>| {
            &&& #[trigger] without_tokens(self.entries@, ids.take(pos as int), kept)
            &&& after.entries@ == with_room(kept, bytes as nat, self.capacity as nat, self.max_entries as nat)
            &&& after.evictions == self.evictions + kept.len() - after.entries@.len()
        }
    }

    /// Make room for a checkpoint of `ids[..pos]` before its state is copied, so that the
    /// peak stays within the budget too. Says whether the checkpoint is to be stored.
    pub fn make_room(&mut self, ids: &[u32], pos: usize, bytes: usize) -> (r: bool)
        requires
            old(self).wf(),
            pos <= ids.len(),
            old(self).evictions + old(self).entries@.len() <= u64::MAX,
            old(self).max_entries > 0 || bytes > old(self).capacity || pos == 0,
        ensures
            old(self).room_made(ids@, pos, bytes, r, *final(self)),
    {
        if bytes > self.capacity || pos == 0 {
            return false;
        }
        let ghost covered = ids@.take(pos as int);
        let ghost start = *self;
        let mut i: usize = 0;
        let mut same: Option<usize> = None;
        while i < self.entries.len() && same.is_none()
            invariant
                i <= self.entries@.len(),
                *self == start,
                pos <= ids.len(),
                covered == ids@.take(pos as int),
                same is None ==> forall|k: int| 0 <= k < i ==> (#[trigger] self.entries@[k]).tokens@ != covered,
                same is Some ==> same->0 < self.entries@.len() && self.entries@[same->0 as int].tokens@ == covered,
            decreases self.entries@.len() - i, if same is None { 1int } else { 0int },
        {
            let entry: &Entry<S> = &self.entries[i];
            if entry.tokens.len() == pos && prefix_of(&entry.tokens, ids) {
                same = Some(i);
            } else {
                assert(self.entries@[i as int].tokens@ != covered) by {
                    if entry.tokens@ == covered {
                        assert(starts_with(ids@, entry.tokens@));
                    }
                }
                i = i + 1;
            }
        }
        match same {
            Some(at) => {
                proof {
                    lemma_held_remove(start.entries@, at as int);
                }
                match self.entries.remove(at) {
                    Some(gone) => {
                        self.used = self.used - gone.bytes;
                    },
                    None => {},
                }
                proof {
                    assert forall|a: int, b: int| 0 <= a < b < self.entries@.len() implies (
                    #[trigger] self.entries@[a]).tokens@ != (#[trigger] self.entries@[b]).tokens@ by {
                        let x = if a < at { a } else { a + 1 };
                        let y = if b < at { b } else { b + 1 };
                        assert(self.entries@[a] == start.entries@[x]);
                        assert(self.entries@[b] == start.entries@[y]);
                    }
                    assert forall|k: int| 0 <= k < self.entries@.len() implies (#[trigger] self.entries@[k]).tokens@
                        != covered by {
                        let x = if k < at { k } else { k + 1 };
                        assert(self.entries@[k] == start.entries@[x]);
                        if x < at {
                            assert(start.entries@[x].tokens@ != start.entries@[at as int].tokens@);
                        } else {
                            assert(start.entries@[at as int].tokens@ != start.entries@[x].tokens@);
                        }
                    }
                }
            },
            None => {},
        }
        let ghost kept = self.entries@;
        assert(without_tokens(start.entries@, covered, kept)) by {
            if same is Some {
                assert(kept == start.entries@.remove(same->0 as int));
            }
        }
        assert(kept.skip(0) =~= kept);
        let ghost mut dropped: int = 0;
        while self.capacity - self.used < bytes || self.entries.len() >= self.max_entries
            invariant
                self.wf(),
                self.same_limits(start),
                bytes <= self.capacity,
                self.max_entries > 0,
                start.evictions + kept.len() <= u64::MAX,
                0 <= dropped <= kept.len(),
                self.entries@ == kept.skip(dropped),
                self.evictions == start.evictions + dropped,
                with_room(self.entries@, bytes as nat, self.capacity as nat, self.max_entries as nat) == with_room(
                    kept,
                    bytes as nat,
                    self.capacity as nat,
                    self.max_entries as nat,
                ),
            decreases self.entries@.len(),
        {
            assert(self.entries@.len() > 0) by {
                if self.entries@.len() == 0 {
                    assert(held(self.entries@) == 0);
                }
            }
            self.evict_oldest();
            proof {
                assert(kept.skip(dropped).skip(1) =~= kept.skip(dropped + 1));
                dropped = dropped + 1;
            }
        }
        proof {
            assert forall|k: int| 0 <= k < self.entries@.len() implies (#[trigger] self.entries@[k]).tokens@
                != covered by {
                assert(self.entries@[k] == kept[k + dropped]);
            }
        }
        true
    }

    /// A checkpoint of `tokens` can be added without passing a limit or covering tokens twice.
    pub open spec fn has_room(self, tokens: Seq<u32>, bytes: usize) -> bool {
        &&& self.used + bytes <= self.capacity
        &&& self.entries@.len() < self.max_entries
        &&& forall|k: int| 0 <= k < self.entries@.len() ==> (#[trigger] self.entries@[k]).tokens@ != tokens
    }

    /// What adding a checkpoint does: it becomes the most recent one.
    pub open spec fn inserted(
        self,
        ids: Seq<u32>,
        pos: usize,
        next: u32,
        drafts: Vec<u32>,
        lookahead: bool,
        state: S,
        bytes: usize,
        now: u128,
        after: PrefixCache<S>,
    ) -> bool {
        let e = after.entries@.last();
        &&& after.wf()
        &&& after.same_limits(self)
        &&& after.used == self.used + bytes
        &&& after.evictions == self.evictions
        &&& after.entries@.len() == self.entries@.len() + 1
        &&& after.entries@.drop_last() == self.entries@
        &&& e.tokens@ == ids.take(pos as int)
        &&& e.following == if !lookahead {
            None
        } else if pos < ids.len() {
            Some(ids[pos as int])
        } else {
            Some(next)
        }
        &&& e.complete == (pos == ids.len())
        &&& e.next == next
        &&& e.drafts == drafts
        &&& e.state == state
        &&& e.bytes == bytes
        &&& e.touched == now
    }

    /// Add the checkpoint that room was made for as the most recent one. `lookahead` says
    /// whether the device keeps a draft cache, whose last row depends on the token after it.
    pub fn insert(
        &mut self,
        ids: &[u32],
        pos: usize,
        next: u32,
        drafts: Vec<u32>,
        lookahead: bool,
        state: S,
        bytes: usize,
        now: u128,
    )
        requires
            old(self).wf(),
            pos <= ids.len(),
            old(self).has_room(ids@.take(pos as int), bytes),
        ensures
            old(self).inserted(ids@, pos, next, drafts, lookahead, state, bytes, now, *final(self)),
    {
        let mut tokens: Vec<u32> = Vec::new();
        let mut i: usize = 0;
        while i < pos
            invariant
                i <= pos <= ids.len(),
                tokens@ == ids@.take(i as int),
            decreases pos - i,
        {
            tokens.push(ids[i]);
            assert(tokens@ =~= ids@.take(i + 1));
            i = i + 1;
        }
        let following: Option<u32> = if !lookahead {
            None
        } else if pos < ids.len() {
            Some(ids[pos])
        } else {
            Some(next)
        };
        let ghost before = self.entries@;
        let entry = Entry { tokens, following, complete: pos == ids.len(), next, drafts, state, bytes, touched: now };
        proof {
            lemma_held_push(before, entry);
        }
        self.entries.push_back(entry);
        self.used = self.used + bytes;
        proof {
            assert(self.entries@.drop_last() =~= before);
            assert forall|a: int, b: int| 0 <= a < b < self.entries@.len() implies (#[trigger] self.entries@[a]).tokens@
                != (#[trigger] self.entries@[b]).tokens@ by {
                assert(self.entries@[a] == before[a]);
                if b < before.len() {
                    assert(self.entries@[b] == before[b]);
                }
            }
        }
    }

    /// Drop what expired and find the checkpoint that `ids` reuses; it becomes the most
    /// recent one, touched at `now`.
    pub fn reuse(&mut self, ids: &[u32], now: u128) -> (r: bool)
        requires
            old(self).wf(),
            old(self).evictions + old(self).entries@.len() <= u64::MAX,
        ensures
            final(self).wf(),
            final(self).same_limits(*old(self)),
            final(self).evictions == old(self).evictions + old(self).expired(now),
            r == exists|i: int| 0 <= i < old(self).live(now).len() && serves(#[trigger] old(self).live(now)[i], ids@),
            !r ==> final(self).entries@ == old(self).live(now),
            r ==> exists|i: int|
                #[trigger] longest_match(old(self).live(now), ids@, i) && final(self).entries@ == moved_to_back(
                    old(self).live(now),
                    i,
                    now,
                ),
    {
        self.expire(now);
        let ghost live = self.entries@;
        let mut best: Option<usize> = None;
        let mut best_len: usize = 0;
        let mut i: usize = 0;
        while i < self.entries.len()
            invariant
                i <= self.entries@.len(),
                self.entries@ == live,
                best is None ==> forall|k: int| 0 <= k < i ==> !serves(#[trigger] live[k], ids@),
                best is Some ==> {
                    &&& best->0 < i
                    &&& serves(live[best->0 as int], ids@)
                    &&& live[best->0 as int].tokens.len() == best_len
                    &&& forall|k: int| 0 <= k < i && #[trigger] serves(live[k], ids@) ==> live[k].tokens.len() <= best_len
                    &&& forall|k: int|
                        best->0 < k < i && #[trigger] serves(live[k], ids@) ==> live[k].tokens.len() < best_len
                },
            decreases self.entries@.len() - i,
        {
            let entry: &Entry<S> = &self.entries[i];
            let hit: bool = matches(&entry.tokens, entry.following, entry.complete, ids);
            if hit && (best.is_none() || entry.tokens.len() >= best_len) {
                best = Some(i);
                best_len = entry.tokens.len();
            }
            i = i + 1;
        }
        match best {
            None => false,
            Some(at) => {
                assert(longest_match(live, ids@, at as int));
                proof {
                    lemma_held_remove(live, at as int);
                }
                match self.entries.remove(at) {
                    Some(mut entry) => {
                        let ghost found = entry;
                        entry.touched = now;
                        proof {
                            lemma_held_push(live.remove(at as int), entry);
                        }
                        self.entries.push_back(entry);
                        proof {
                            assert(entry == (Entry { touched: now, ..live[at as int] }));
                            let after = self.entries@;
                            assert(after == moved_to_back(live, at as int, now));
                            assert(serves(live[at as int], ids@));
                            assert forall|a: int, b: int| 0 <= a < b < after.len() implies (#[trigger] after[a]).tokens@
                                != (#[trigger] after[b]).tokens@ by {
                                let x = if a < at { a } else { a + 1 };
                                let y = if b == after.len() - 1 {
                                    at as int
                                } else if b < at {
                                    b
                                } else {
                                    b + 1
                                };
                                assert(after[a].tokens == live[x].tokens);
                                assert(after[b].tokens == live[y].tokens);
                                if x < y {
                                    assert(live[x].tokens@ != live[y].tokens@);
                                } else {
                                    assert(live[y].tokens@ != live[x].tokens@);
                                }
                            }
                        }
                    },
                    None => {},
                }
                true
            },
        }
    }
}

/// `kept` is `entries` without the checkpoint of `tokens`, if there was one.
pub open spec fn without_tokens<S>(entries: Seq<Entry<S>>, tokens: Seq<u32>, kept: Seq<Entry<S>>) -> bool {
    ||| kept == entries && forall|k: int| 0 <= k < entries.len() ==> (#[trigger] entries[k]).tokens@ != tokens
    ||| exists|i: int|
        0 <= i < entries.len() && (#[trigger] entries[i]).tokens@ == tokens && kept == entries.remove(i)
}

/// Storing keeps the limits, and at no moment more than the capacity is used: room is made
/// before the new state is copied.
pub proof fn law_store_keeps_limits<S>(
    start: PrefixCache<S>,
    ids: Seq<u32>,
    pos: usize,
    next: u32,
    drafts: Vec<u32>,
    lookahead: bool,
    state: S,
    bytes: usize,
    now: u128,
    stored: bool,
    room: PrefixCache<S>,
    done: PrefixCache<S>,
)
    requires
        start.wf(),
        start.max_entries >= 1,
        start.room_made(ids, pos, bytes, stored, room),
        if stored {
            room.inserted(ids, pos, next, drafts, lookahead, state, bytes, now, done)
        } else {
            done == room
        },
    ensures
        stored ==> room.used + bytes <= start.capacity && room.entries@.len() < start.max_entries,
        done.used == held(done.entries@),
        done.used <= start.capacity,
        done.entries@.len() <= start.max_entries,
        done.wf(),
        done.same_limits(start),
{
}

/// A checkpoint taken while prefilling a request serves the same request again.
pub proof fn law_stored_checkpoint_serves(ids: Seq<u32>, pos: int, next: u32, lookahead: bool)
    requires
        0 < pos <= ids.len(),
    ensures
        ({
            let following = if !lookahead {
                None
            } else if pos < ids.len() {
                Some(ids[pos])
            } else {
                Some(next)
            };
            matching(ids.take(pos), following, pos == ids.len(), ids)
        }),
{
    assert(ids.take(pos).len() == pos);
    assert(ids.take(ids.take(pos).len() as int) =~= ids.take(pos));
}

/// A checkpoint with a lookahead never serves a longer request that continues otherwise.
pub proof fn law_lookahead_respected(tokens: Seq<u32>, following: u32, complete: bool, request: Seq<u32>)
    requires
        matching(tokens, Some(following), complete, request),
        request.len() > tokens.len(),
    ensures
        request[tokens.len() as int] == following,
{
}

/// What a request reuses is a prefix of the request.
pub proof fn law_reused_tokens_are_prefix<S>(entries: Seq<Entry<S>>, request: Seq<u32>, i: int)
    requires
        longest_match(entries, request, i),
    ensures
        request.take(entries[i].tokens@.len() as int) == entries[i].tokens@,
        entries[i].tokens@.len() <= request.len(),
{
}

/// Of two checkpoints that serve a request, the same length means the same checkpoint.
pub proof fn law_longest_match_unique<S>(entries: Seq<Entry<S>>, request: Seq<u32>, i: int, j: int)
    requires
        distinct(entries),
        longest_match(entries, request, i),
        0 <= j < entries.len(),
        serves(entries[j], request),
        entries[j].tokens.len() == entries[i].tokens.len(),
    ensures
        i == j,
{
    assert(entries[i].tokens@ == request.take(entries[i].tokens@.len() as int));
    assert(entries[j].tokens@ == request.take(entries[j].tokens@.len() as int));
    if i < j {
        assert(entries[i].tokens@ != entries[j].tokens@);
    } else if j < i {
        assert(entries[j].tokens@ != entries[i].tokens@);
    }
}

proof fn lemma_stale<S>(entries: Seq<Entry<S>>, idle: u128, now: u128)
    ensures
        stale(entries, idle, now) <= entries.len(),
        forall|i: int| 0 <= i < stale(entries, idle, now) ==> now - (#[trigger] entries[i]).touched >= idle,
        stale(entries, idle, now) < entries.len() ==> now - entries[stale(entries, idle, now) as int].touched < idle,
    decreases entries.len(),
{
    if entries.len() > 0 && now - entries[0].touched >= idle {
        lemma_stale(entries.skip(1), idle, now);
        let n = stale(entries.skip(1), idle, now);
        assert forall|i: int| 0 <= i < n + 1 implies now - (#[trigger] entries[i]).touched >= idle by {
            if i > 0 {
                assert(entries.skip(1)[i - 1] == entries[i]);
            }
        }
        if n < entries.skip(1).len() {
            assert(entries.skip(1)[n as int] == entries[n as int + 1]);
        }
    }
}

/// What expiry leaves. Without an idle limit everything stays. With one, the checkpoints that are
/// dropped are the oldest, each was idle for the limit, whatever it holds, and the oldest that is
/// left was not; each drop is counted.
pub proof fn law_expire<S>(cache: &mut PrefixCache<S>, now: u128)
    requires
        call_ensures(PrefixCache::<S>::expire, (cache, now), ()),
    ensures
        final(cache).idle == old(cache).idle,
        old(cache).idle is None ==> final(cache).entries@ == old(cache).entries@,
        final(cache).entries@.len() <= old(cache).entries@.len(),
        final(cache).evictions - old(cache).evictions == old(cache).entries@.len() - final(cache).entries@.len(),
        forall|i: int|
            0 <= i < final(cache).entries@.len() ==> #[trigger] final(cache).entries@[i] == old(cache).entries@[i + (old(cache).entries@.len()
                - final(cache).entries@.len())],
        old(cache).idle matches Some(idle) ==> {
            &&& forall|i: int|
                0 <= i < old(cache).entries@.len() - final(cache).entries@.len() ==> now - (#[trigger] old(cache).entries@[i]).touched >= idle
            &&& final(cache).entries@.len() > 0 ==> now - final(cache).entries@[0].touched < idle
        },
{
    law_idle_are_dropped(*old(cache), now, *final(cache));
}

pub(crate) proof fn lemma_expired<S>(cache: PrefixCache<S>, now: u128)
    ensures
        cache.expired(now) <= cache.entries@.len(),
{
    if let Some(idle) = cache.idle {
        lemma_stale(cache.entries@, idle, now);
    }
}

/// The same of the checkpoints before and after.
pub proof fn law_idle_are_dropped<S>(start: PrefixCache<S>, now: u128, done: PrefixCache<S>)
    requires
        done.entries@ == start.live(now),
        done.evictions == start.evictions + start.expired(now),
    ensures
        start.idle is None ==> done.entries@ == start.entries@,
        done.entries@.len() <= start.entries@.len(),
        done.evictions - start.evictions == start.entries@.len() - done.entries@.len(),
        forall|i: int|
            0 <= i < done.entries@.len() ==> #[trigger] done.entries@[i] == start.entries@[i + (start.entries@.len()
                - done.entries@.len())],
        start.idle matches Some(idle) ==> {
            &&& forall|i: int|
                0 <= i < start.entries@.len() - done.entries@.len() ==> now - (#[trigger] start.entries@[i]).touched
                    >= idle
            &&& done.entries@.len() > 0 ==> now - done.entries@[0].touched < idle
        },
{
    match start.idle {
        None => {
            assert(start.entries@.skip(0) =~= start.entries@);
        },
        Some(idle) => {
            lemma_stale(start.entries@, idle, now);
            let n = stale(start.entries@, idle, now) as int;
            if n < start.entries@.len() {
                assert(done.entries@[0] == start.entries@[n]);
            }
        },
    }
}

/// Where checkpoints lie in the order in which they were touched, no one that is left was idle
/// for the limit, and one that was not idle for the limit is left.
pub proof fn law_live_are_kept<S>(start: PrefixCache<S>, now: u128, done: PrefixCache<S>, idle: u128, i: int)
    requires
        start.idle == Some(idle),
        forall|a: int, b: int|
            0 <= a < b < start.entries@.len() ==> (#[trigger] start.entries@[a]).touched <= (
            #[trigger] start.entries@[b]).touched,
        done.entries@ == start.live(now),
        done.evictions == start.evictions + start.expired(now),
        0 <= i < start.entries@.len(),
    ensures
        now - start.entries@[i].touched < idle <==> start.entries@.len() - done.entries@.len() <= i,
{
    law_idle_are_dropped(start, now, done);
    let gone = start.entries@.len() - done.entries@.len();
    if gone < i {
        assert(start.entries@[gone].touched <= start.entries@[i].touched);
    }
    if gone < start.entries@.len() {
        assert(done.entries@[0] == start.entries@[gone]);
    }
}

/// A checkpoint serves a request exactly where the request begins with its tokens, token by
/// token, and either ends there while the checkpoint is of a whole prompt, or goes on with the
/// token that was looked ahead to, if one was.
pub proof fn law_checkpoint_serves_exactly(tokens: Seq<u32>, following: Option<u32>, complete: bool, request: Seq<u32>)
    ensures
        matching(tokens, following, complete, request) <==> {
            &&& tokens.len() <= request.len()
            &&& forall|i: int| 0 <= i < tokens.len() ==> #[trigger] tokens[i] == request[i]
            &&& tokens.len() == request.len() ==> complete
            &&& tokens.len() < request.len() ==> (following matches Some(next) ==> request[tokens.len() as int] == next)
        },
{
    let head = request.take(tokens.len() as int);
    if tokens.len() <= request.len() {
        if forall|i: int| 0 <= i < tokens.len() ==> #[trigger] tokens[i] == request[i] {
            assert(head =~= tokens);
        }
        if head == tokens {
            assert forall|i: int| 0 <= i < tokens.len() implies #[trigger] tokens[i] == request[i] by {
                assert(head[i] == request[i]);
            }
        }
    }
}

/// A request reuses the longest checkpoint that serves it, and of the lengths equal the latest;
/// that one is touched and goes to the end, and everything else stays as it was, in order.
pub proof fn law_longest_is_reused<S>(live: Seq<Entry<S>>, request: Seq<u32>, i: int, now: u128, after: Seq<Entry<S>>, k: int)
    requires
        longest_match(live, request, i),
        after == moved_to_back(live, i, now),
        0 <= k < live.len(),
    ensures
        0 <= i < live.len(),
        matching(live[i].tokens@, live[i].following, live[i].complete, request),
        matching(live[k].tokens@, live[k].following, live[k].complete, request) ==> live[k].tokens@.len()
            < live[i].tokens@.len() || (live[k].tokens@.len() == live[i].tokens@.len() && k <= i),
        after.len() == live.len(),
        after.last() == (Entry { touched: now, ..live[i] }),
        k < i ==> after[k] == live[k],
        i < k ==> after[k - 1] == live[k],
{
    if k != i && matching(live[k].tokens@, live[k].following, live[k].complete, request) {
        assert(serves(live[k], request));
    }
}

/// Room is made for a checkpoint exactly where it covers tokens and is no larger than the cache.
/// An older one of the same tokens goes without being counted as dropped; of the others the
/// oldest go, each counted, and none goes that could have stayed.
pub proof fn law_room_drops_no_more_than_needed<S>(
    start: PrefixCache<S>,
    ids: Seq<u32>,
    pos: usize,
    bytes: usize,
    stored: bool,
    room: PrefixCache<S>,
) -> (kept: Seq<Entry<S>>)
    requires
        start.wf(),
        start.max_entries > 0,
        start.room_made(ids, pos, bytes, stored, room),
    ensures
        stored <==> bytes <= start.capacity && pos > 0,
        !stored ==> room == start,
        stored ==> {
            let dropped = kept.len() - room.entries@.len();
            &&& forall|e: Entry<S>| #[trigger] kept.contains(e) <==> start.entries@.contains(e) && e.tokens@ != ids.take(
                pos as int,
            )
            &&& 0 <= dropped
            &&& room.entries@ == kept.skip(dropped)
            &&& room.evictions == start.evictions + dropped
            &&& held(room.entries@) + bytes <= start.capacity
            &&& room.entries@.len() < start.max_entries
            &&& dropped > 0 ==> held(kept.skip(dropped - 1)) + bytes > start.capacity || kept.skip(dropped - 1).len()
                >= start.max_entries
        },
{
    if !stored {
        return Seq::empty();
    }
    let covered = ids.take(pos as int);
    let kept = choose|kept: Seq<Entry<S>>| {
        &&& #[trigger] without_tokens(start.entries@, covered, kept)
        &&& room.entries@ == with_room(kept, bytes as nat, start.capacity as nat, start.max_entries as nat)
        &&& room.evictions == start.evictions + kept.len() - room.entries@.len()
    };
    law_room_made(kept, bytes as nat, start.capacity as nat, start.max_entries as nat);
    lemma_room_needed(kept, bytes as nat, start.capacity as nat, start.max_entries as nat);
    let all = start.entries@;
    assert forall|e: Entry<S>| #[trigger] kept.contains(e) <==> all.contains(e) && e.tokens@ != covered by {
        if exists|i: int| 0 <= i < all.len() && (#[trigger] all[i]).tokens@ == covered && kept == all.remove(i) {
            let i = choose|i: int| 0 <= i < all.len() && (#[trigger] all[i]).tokens@ == covered && kept == all.remove(i);
            if kept.contains(e) {
                let m = choose|m: int| 0 <= m < kept.len() && kept[m] == e;
                let x = if m < i { m } else { m + 1 };
                assert(all[x] == e);
                if x < i {
                    assert(all[x].tokens@ != all[i].tokens@);
                } else {
                    assert(all[i].tokens@ != all[x].tokens@);
                }
            }
            if all.contains(e) && e.tokens@ != covered {
                let x = choose|x: int| 0 <= x < all.len() && all[x] == e;
                assert(kept[if x < i { x } else { x - 1 }] == e);
            }
        } else {
            assert(kept == all);
            if all.contains(e) {
                let x = choose|x: int| 0 <= x < all.len() && all[x] == e;
                assert(all[x].tokens@ != covered);
            }
        }
    }
    kept
}

proof fn lemma_room_needed<S>(entries: Seq<Entry<S>>, bytes: nat, capacity: nat, max_entries: nat)
    requires
        bytes <= capacity,
        max_entries > 0,
    ensures
        ({
            let dropped = entries.len() - with_room(entries, bytes, capacity, max_entries).len();
            dropped > 0 ==> held(entries.skip(dropped - 1)) + bytes > capacity || entries.skip(dropped - 1).len()
                >= max_entries
        }),
    decreases entries.len(),
{
    if entries.len() > 0 && (held(entries) + bytes > capacity || entries.len() >= max_entries) {
        lemma_room_needed(entries.skip(1), bytes, capacity, max_entries);
        law_room_made(entries.skip(1), bytes, capacity, max_entries);
        let dropped = entries.len() - with_room(entries, bytes, capacity, max_entries).len();
        if dropped == 1 {
            assert(entries.skip(0) =~= entries);
        } else {
            assert(entries.skip(1).skip(dropped - 2) =~= entries.skip(dropped - 1));
        }
    }
}

/// The bytes held are those of every checkpoint: each adds its own.
pub proof fn law_held_is_the_sum<S>(a: Seq<Entry<S>>, e: Entry<S>)
    ensures
        held(Seq::<Entry<S>>::empty()) == 0,
        held(a.push(e)) == held(a) + e.bytes,
{
    lemma_held_push(a, e);
}

/// What is stored is a checkpoint of the first tokens, with what was given, as the latest one. It
/// looks ahead only where the device drafts: to the prompt's own next token, or to the predicted
/// one where the prompt ends; and it is complete exactly where the prompt ends.
pub proof fn law_stored_as_given<S>(
    room: PrefixCache<S>,
    ids: Seq<u32>,
    pos: usize,
    next: u32,
    drafts: Vec<u32>,
    lookahead: bool,
    state: S,
    bytes: usize,
    now: u128,
    done: PrefixCache<S>,
    i: int,
)
    requires
        pos <= ids.len(),
        room.inserted(ids, pos, next, drafts, lookahead, state, bytes, now, done),
        0 <= i < pos,
    ensures
        done.entries@.len() == room.entries@.len() + 1,
        done.used == room.used + bytes,
        done.evictions == room.evictions,
        ({
            let e = done.entries@.last();
            &&& e.tokens@.len() == pos
            &&& e.tokens@[i] == ids[i]
            &&& e.complete <==> pos == ids.len()
            &&& e.following is Some <==> lookahead
            &&& lookahead && pos < ids.len() ==> e.following == Some(ids[pos as int])
            &&& lookahead && pos == ids.len() ==> e.following == Some(next)
            &&& (e.next, e.drafts, e.state, e.bytes, e.touched) == (next, drafts, state, bytes, now)
        }),
        forall|k: int| 0 <= k < room.entries@.len() ==> #[trigger] done.entries@[k] == room.entries@[k],
{
    assert forall|k: int| 0 <= k < room.entries@.len() implies #[trigger] done.entries@[k] == room.entries@[k] by {
        assert(done.entries@.drop_last()[k] == done.entries@[k]);
    }
}

/// The oldest entry goes first, with its bytes, and is counted; an empty cache stays as it is.
pub proof fn law_oldest_evicted<S>(cache: &mut PrefixCache<S>)
    requires
        call_ensures(PrefixCache::<S>::evict_oldest, (cache,), ()),
        old(cache).wf(),
        old(cache).evictions < u64::MAX,
    ensures
        old(cache).entries@.len() == 0 ==> final(cache).entries@ == old(cache).entries@ && final(cache).evictions == old(
            cache
        ).evictions,
        old(cache).entries@.len() > 0 ==> {
            &&& final(cache).entries@ == old(cache).entries@.drop_first()
            &&& final(cache).used == old(cache).used - old(cache).entries@[0].bytes
            &&& final(cache).evictions == old(cache).evictions + 1
        },
        final(cache).capacity == old(cache).capacity && final(cache).max_entries == old(cache).max_entries,
{
    if old(cache).entries@.len() > 0 {
        assert(old(cache).entries@.skip(1) =~= old(cache).entries@.drop_first());
    }
}

/// A new cache is empty and has its limits; entries expire after the given seconds, and never where
/// none are given.
pub proof fn law_cache_starts<S>(capacity: usize, max_entries: usize, idle_seconds: u64, r: PrefixCache<S>)
    requires
        call_ensures(PrefixCache::<S>::new, (capacity, max_entries, idle_seconds), r),
    ensures
        r.entries@.len() == 0 && r.used == 0 && r.evictions == 0,
        r.capacity == capacity && r.max_entries == max_entries,
        idle_seconds == 0 <==> r.idle is None,
        r.idle matches Some(idle) ==> idle == idle_seconds * 1_000_000_000,
{
}

/// Statistics tell the entries, their bytes and the evictions.
pub proof fn law_cache_stats<S>(cache: PrefixCache<S>, r: (usize, usize, u64))
    requires
        call_ensures(PrefixCache::<S>::stats, (&cache,), r),
    ensures
        r.0 == cache.entries@.len(),
        r.1 == cache.used,
        r.2 == cache.evictions,
{
}

/// A request that is served again finds a checkpoint that begins it, the longest of those that still
/// live and serve it, now the newest of the cache; a request that is not served had none.
pub proof fn law_reused<S>(cache: &mut PrefixCache<S>, ids: &[u32], now: u128, r: bool, k: int)
    requires
        call_ensures(PrefixCache::<S>::reuse, (cache, ids, now), r),
        old(cache).wf(),
        old(cache).evictions + old(cache).entries@.len() <= u64::MAX,
        0 <= k < old(cache).live(now).len(),
    ensures
        r ==> {
            let e = final(cache).entries@.last();
            &&& final(cache).entries@.len() == old(cache).live(now).len()
            &&& e.touched == now
            &&& e.tokens@.len() <= ids@.len() && ids@.take(e.tokens@.len() as int) == e.tokens@
            &&& e.tokens@.len() == ids@.len() ==> e.complete
            &&& e.tokens@.len() < ids@.len() && e.following is Some ==> ids@[e.tokens@.len() as int] == e.following->0
            &&& serves(old(cache).live(now)[k], ids@) ==> old(cache).live(now)[k].tokens@.len() <= e.tokens@.len()
        },
        !r ==> !serves(old(cache).live(now)[k], ids@) && final(cache).entries@ == old(cache).live(now),
{
    let live = old(cache).live(now);
    if r {
        let i = choose|i: int|
            #[trigger] longest_match(live, ids@, i) && final(cache).entries@ == moved_to_back(live, i, now);
        assert(final(cache).entries@.last() == (Entry { touched: now, ..live[i] }));
        assert(serves(live[i], ids@));
    }
}

} // verus!
