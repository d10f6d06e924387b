//! Small, bounded snapshots shared with the control thread. No prompts or logits.

use super::stats::Observation;
use crate::config::{Config, Source};
use crate::qwen4_exp::gpu::activity::{ActivityError, ExpertActivity};
use crate::qwen4_exp::gpu::memory::MemoryStats as DeviceMemory;
use vstd::prelude::*;
use vstd::string::*;

verus! {

/// A configuration and how many came before it.
#[derive(Debug)]
pub struct Versioned {
    pub generation: u64,
    pub config: Config,
}

#[derive(Debug, Clone, Copy, PartialEq, Eq, Structural)]
pub struct SessionStats {
    pub entries: usize,
    pub bytes: usize,
    pub evictions: u64,
}

#[derive(Debug)]
pub struct ActiveRequest {
    pub id: String,
    pub session_id: Option<String>,
    pub phase: &'static str,
    pub reserved_state_bytes: usize,
}

/// The request that is being answered.
#[derive(Debug)]
pub struct Current {
    pub request_id: String,
    pub config_generation: u64,
    pub phase: &'static str,
    pub generated_tokens: u64,
}

#[derive(Debug, Clone, Copy, PartialEq, Eq, Structural)]
pub struct CacheStats {
    pub entries: usize,
    pub bytes: usize,
    pub evictions: u64,
}

#[derive(Debug, Clone, Copy)]
pub struct MemoryStats {
    pub resources: DeviceMemory,
    pub observed_at_uptime_ns: u128,
}

/// What a server tells of itself.
#[derive(Debug)]
pub struct Stats {
    pub ready: bool,
    pub queued_requests: usize,
    pub active_requests: usize,
    pub completed_requests: u64,
    pub failed_requests: u64,
    pub rejected_requests: u64,
    pub generated_tokens: u64,
    pub prompt_tokens: u64,
    pub cached_tokens: u64,
    pub prefill_ns: u128,
    pub decode_ns: u128,
    pub current: Option<Current>,
    pub cache: CacheStats,
    pub memory: MemoryStats,
    pub http_address: Option<String>,
    pub cancelled_requests: u64,
    pub active_state_reserved_bytes: usize,
    /// Contended prefill chunk size the worker is currently pacing toward.
    pub prefill_chunk_tokens: usize,
    pub sessions: SessionStats,
    pub active: Vec<ActiveRequest>,
    pub activity: ExpertActivity,
}

/// Why statistics cannot be shown.
#[derive(Debug, Clone, Copy, PartialEq, Eq, Structural)]
pub enum StateError {
    NotReady,
    Activity(ActivityError),
}

impl StateError {
    pub open spec fn text(self) -> Seq<char> {
        match self {
            StateError::NotReady => "model not ready: still loading"@,
            StateError::Activity(e) => e.text(),
        }
    }

    pub fn message(&self) -> (r: &'static str)
        ensures
            r@ == self.text(),
    {
        match self {
            StateError::NotReady => "model not ready: still loading",
            StateError::Activity(e) => e.message(),
        }
    }
}

impl Stats {
    /// A server that has just started.
    pub fn new(activity: ExpertActivity) -> (r: Stats)
        ensures
            !r.ready,
            r.queued_requests == 0,
            r.active_requests == 0,
            r.completed_requests == 0,
            r.failed_requests == 0,
            r.rejected_requests == 0,
            r.generated_tokens == 0,
            r.prompt_tokens == 0,
            r.cached_tokens == 0,
            r.prefill_ns == 0,
            r.decode_ns == 0,
            r.current is None,
            r.cache == (CacheStats { entries: 0, bytes: 0, evictions: 0 }),
            r.memory == (MemoryStats { resources: DeviceMemory::nothing(), observed_at_uptime_ns: 0 }),
            r.http_address is None,
            r.cancelled_requests == 0,
            r.active_state_reserved_bytes == 0,
            r.prefill_chunk_tokens == 0,
            r.sessions == (SessionStats { entries: 0, bytes: 0, evictions: 0 }),
            r.active@.len() == 0,
            r.activity == activity,
    {
        Stats {
            ready: false,
            queued_requests: 0,
            active_requests: 0,
            completed_requests: 0,
            failed_requests: 0,
            rejected_requests: 0,
            generated_tokens: 0,
            prompt_tokens: 0,
            cached_tokens: 0,
            prefill_ns: 0,
            decode_ns: 0,
            current: None,
            cache: CacheStats { entries: 0, bytes: 0, evictions: 0 },
            memory: MemoryStats { resources: DeviceMemory::default(), observed_at_uptime_ns: 0 },
            http_address: None,
            cancelled_requests: 0,
            active_state_reserved_bytes: 0,
            prefill_chunk_tokens: 0,
            sessions: SessionStats { entries: 0, bytes: 0, evictions: 0 },
            active: Vec::new(),
            activity,
        }
    }

    /// The model is loaded and the server listens.
    pub fn serve(&mut self, address: String)
        ensures
            *final(self) == (Stats { ready: true, http_address: Some(address), ..*old(self) }),
    {
        self.ready = true;
        self.http_address = Some(address);
    }

    /// A request waits.
    pub fn queue(&mut self)
        requires
            old(self).queued_requests < usize::MAX,
        ensures
            *final(self) == (Stats { queued_requests: (old(self).queued_requests + 1) as usize, ..*old(self) }),
    {
        self.queued_requests = self.queued_requests + 1;
    }

    /// A waiting request finds no place.
    pub fn bounce(&mut self)
        requires
            old(self).queued_requests > 0,
            old(self).rejected_requests < u64::MAX,
        ensures
            *final(self) == (Stats {
                queued_requests: (old(self).queued_requests - 1) as usize,
                rejected_requests: (old(self).rejected_requests + 1) as u64,
                ..*old(self)
            }),
    {
        self.queued_requests = self.queued_requests - 1;
        self.rejected_requests = self.rejected_requests + 1;
    }

    /// A connection is turned away.
    pub fn reject(&mut self)
        requires
            old(self).rejected_requests < u64::MAX,
        ensures
            *final(self) == (Stats { rejected_requests: (old(self).rejected_requests + 1) as u64, ..*old(self) }),
    {
        self.rejected_requests = self.rejected_requests + 1;
    }

    /// A waiting request is taken up.
    pub fn begin(&mut self)
        requires
            old(self).queued_requests > 0,
            old(self).active_requests < usize::MAX,
        ensures
            *final(self) == (Stats {
                queued_requests: (old(self).queued_requests - 1) as usize,
                active_requests: (old(self).active_requests + 1) as usize,
                ..*old(self)
            }),
    {
        self.queued_requests = self.queued_requests - 1;
        self.active_requests = self.active_requests + 1;
    }

    /// Tells which request is being answered and how far it is.
    pub fn current(&mut self, request_id: &str, generation: u64, phase: &'static str, tokens: usize)
        ensures
            ({
                let c = final(self).current;
                &&& c matches Some(c) && c.request_id@ == request_id@ && c.config_generation == generation && c.phase
                    == phase && c.generated_tokens == tokens
                &&& *final(self) == (Stats { current: c, ..*old(self) })
            }),
    {
        self.current = Some(
            Current {
                request_id: request_id.to_owned(),
                config_generation: generation,
                phase,
                generated_tokens: tokens as u64,
            },
        );
    }

    /// Counts a token of the answer.
    pub fn token(&mut self)
        requires
            old(self).generated_tokens < u64::MAX,
            old(self).current matches Some(c) ==> c.generated_tokens < u64::MAX,
        ensures
            final(self).generated_tokens == old(self).generated_tokens + 1,
            match old(self).current {
                Some(c) => final(self).current == Some(
                    Current { generated_tokens: (c.generated_tokens + 1) as u64, ..c },
                ),
                None => final(self).current is None,
            },
            *final(self) == (Stats {
                generated_tokens: (old(self).generated_tokens + 1) as u64,
                current: final(self).current,
                ..*old(self)
            }),
    {
        self.generated_tokens = self.generated_tokens + 1;
        let mut current: Option<Current> = None;
        std::mem::swap(&mut current, &mut self.current);
        self.current = match current {
            Some(c) => {
                let mut c = c;
                c.generated_tokens = c.generated_tokens + 1;
                Some(c)
            },
            None => None,
        };
    }

    /// Takes over a complete observation, and hands the activity before it back to be used
    /// again.
    pub fn publish_observation(&mut self, cache: CacheStats, memory: MemoryStats, spare: &mut ExpertActivity)
        ensures
            *final(self) == (Stats { cache, memory, activity: *old(spare), ..*old(self) }),
            *final(spare) == old(self).activity,
    {
        self.cache = cache;
        self.memory = memory;
        std::mem::swap(&mut self.activity, spare);
    }

    /// What stands against showing the activity.
    pub open spec fn fault(self) -> Option<StateError> {
        if !self.ready {
            Some(StateError::NotReady)
        } else {
            match self.activity.fault() {
                Some(e) => Some(StateError::Activity(e)),
                None => None,
            }
        }
    }

    /// When and over what time the activity was observed, once it can be shown.
    pub fn observation(&self) -> (r: Result<Observation, StateError>)
        ensures
            match r {
                Ok(o) => {
                    &&& self.fault() is None
                    &&& o.observed_at_uptime_ns == self.memory.observed_at_uptime_ns
                    &&& o.elapsed_ns == self.activity.elapsed_ns
                    &&& o.gpu_timestamps_available == self.activity.gpu_timestamps_available
                    &&& o.gpu_timing.same_as(self.activity.gpu_timing)
                },
                Err(e) => self.fault() == Some(e),
            },
    {
        if !self.ready {
            return Err(StateError::NotReady);
        }
        match self.activity.validate_dimensions() {
            Ok(()) => {},
            Err(e) => return Err(StateError::Activity(e)),
        }
        Ok(
            Observation {
                observed_at_uptime_ns: self.memory.observed_at_uptime_ns,
                elapsed_ns: self.activity.elapsed_ns,
                gpu_timestamps_available: self.activity.gpu_timestamps_available,
                gpu_timing: self.activity.gpu_timing.copy(),
            },
        )
    }
}

/// Why a configuration is not reloaded.
#[derive(Debug)]
pub enum ReloadError {
    NoFile,
    Restart(Vec<&'static str>),
}

/// Names, with commas between them.
pub open spec fn listed(names: Seq<&'static str>) -> Seq<char>
    decreases names.len(),
{
    if names.len() == 0 {
        Seq::empty()
    } else if names.len() == 1 {
        names[0]@
    } else {
        listed(names.drop_last()) + ", "@ + names.last()@
    }
}

impl ReloadError {
    pub open spec fn text(self) -> Seq<char> {
        match self {
            ReloadError::NoFile => "server was started without --config"@,
            ReloadError::Restart(names) => "restart required for changed sections: "@ + listed(names@),
        }
    }

    pub fn message(&self) -> (r: String)
        ensures
            r@ == self.text(),
    {
        match self {
            ReloadError::NoFile => "server was started without --config".to_owned(),
            ReloadError::Restart(names) => {
                let mut out: String = "restart required for changed sections: ".to_owned();
                let ghost start = out@;
                let mut i: usize = 0;
                assert(out@ =~= start + listed(names@.take(0)));
                while i < names.len()
                    invariant
                        i <= names@.len(),
                        start == "restart required for changed sections: "@,
                        out@ == start + listed(names@.take(i as int)),
                    decreases names@.len() - i,
                {
                    assert(names@.take(i + 1).drop_last() =~= names@.take(i as int));
                    if i > 0 {
                        out.append(", ");
                    }
                    out.append(names[i]);
                    assert(out@ =~= start + listed(names@.take(i + 1)));
                    i = i + 1;
                }
                assert(names@.take(i as int) =~= names@);
                out
            },
        }
    }
}

impl Versioned {
    /// The first configuration.
    pub fn new(config: Config) -> (r: Versioned)
        ensures
            r == (Versioned { generation: 1, config }),
    {
        Versioned { generation: 1, config }
    }

    /// What a reload leaves in force: the new configuration, one generation on, where only
    /// defaults differ, and otherwise the old one.
    pub open spec fn reloaded(self, source: Source, next: Config, after: Versioned, r: Result<u64, ReloadError>) -> bool {
        if source.path is None {
            r matches Err(ReloadError::NoFile) && after == self
        } else if self.config.changed_sections(next).len() > 0 {
            r matches Err(ReloadError::Restart(names)) && names@ == self.config.changed_sections(next) && after == self
        } else if self.config.defaults != next.defaults {
            &&& after == (Versioned { generation: (self.generation + 1) as u64, config: next })
            &&& r matches Ok(g) && g == after.generation
        } else {
            after == self && (r matches Ok(g) && g == self.generation)
        }
    }

    /// Puts a new configuration from the same source in force.
    pub fn reload(&mut self, source: &Source, next: Config) -> (r: Result<u64, ReloadError>)
        requires
            old(self).generation < u64::MAX,
        ensures
            old(self).reloaded(*source, next, *final(self), r),
    {
        if source.path.is_none() {
            return Err(ReloadError::NoFile);
        }
        let changes: Vec<&'static str> = self.config.restart_changes(&next);
        if changes.len() > 0 {
            return Err(ReloadError::Restart(changes));
        }
        if self.config.defaults != next.defaults {
            self.config = next;
            self.generation = self.generation + 1;
        }
        Ok(self.generation)
    }
}

/// A reload changes nothing but defaults: server, limits and experts stay the same ones, and
/// the generation goes on exactly where the defaults changed.
pub proof fn law_reload_changes_only_defaults(
    before: Versioned,
    source: Source,
    next: Config,
    after: Versioned,
    r: Result<u64, ReloadError>,
)
    requires
        before.generation < u64::MAX,
        before.reloaded(source, next, after, r),
    ensures
        after.config == before.config || (before.config.server.same_as(after.config.server)
            && before.config.limits.same_as(after.config.limits) && before.config.experts.same_as(
            after.config.experts,
        )),
        (after.generation == before.generation + 1) == (after.config.defaults != before.config.defaults),
        r is Err ==> after == before,
        r is Ok ==> after.config.defaults == next.defaults,
{
}

/// A request that waited is either taken up or turned away: the count of those waiting is
/// what it was before.
pub proof fn law_queue_balanced(before: Stats, waiting: Stats, taken: Stats, bounced: Stats)
    requires
        before.queued_requests < usize::MAX,
        before.active_requests < usize::MAX,
        before.rejected_requests < u64::MAX,
        waiting == (Stats { queued_requests: (before.queued_requests + 1) as usize, ..before }),
        taken == (Stats {
            queued_requests: (waiting.queued_requests - 1) as usize,
            active_requests: (waiting.active_requests + 1) as usize,
            ..waiting
        }),
        bounced == (Stats {
            queued_requests: (waiting.queued_requests - 1) as usize,
            rejected_requests: (waiting.rejected_requests + 1) as u64,
            ..waiting
        }),
    ensures
        taken.queued_requests == before.queued_requests,
        bounced.queued_requests == before.queued_requests,
        bounced.active_requests == before.active_requests,
{
}

/// A reload is refused without a file, and where server, limits or experts would change. Otherwise
/// the new defaults are in force, under the next generation where they differ.
pub proof fn law_reload(v: &mut Versioned, source: Source, next: Config, r: Result<u64, ReloadError>)
    requires
        call_ensures(Versioned::reload, (v, &source, next), r),
        old(v).generation < u64::MAX,
    ensures
        source.path is None ==> r is Err && r->Err_0 is NoFile,
        r is Err ==> *final(v) == *old(v),
        r is Ok ==> final(v).config.defaults == next.defaults,
        r matches Ok(g) ==> g == final(v).generation,
        r is Ok ==> final(v).config.limits.context_tokens == old(v).config.limits.context_tokens,
        r is Ok ==> final(v).config.server.port == old(v).config.server.port,
        r is Ok ==> final(v).config.experts.resident_bits == old(v).config.experts.resident_bits,
        source.path is Some && old(v).config.limits.context_tokens != next.limits.context_tokens ==> r is Err,
        source.path is Some && old(v).config.server.port != next.server.port ==> r is Err,
        source.path is Some && old(v).config.experts.resident_bits != next.experts.resident_bits ==> r is Err,
        source.path is Some && old(v).config.server.same_as(next.server) && old(v).config.limits.same_as(next.limits)
            && old(v).config.experts.same_as(next.experts) ==> r is Ok,
        r is Ok && old(v).config.defaults == next.defaults ==> final(v).generation == old(v).generation,
        r is Ok && old(v).config.defaults != next.defaults ==> final(v).generation == old(v).generation + 1,
{
    let sections = old(v).config.changed_sections(next);
    let first = crate::config::section("server", !old(v).config.server.same_as(next.server));
    let second = crate::config::section("limits", !old(v).config.limits.same_as(next.limits));
    let third = crate::config::section("experts", !old(v).config.experts.same_as(next.experts));
    assert(sections.len() == first.len() + second.len() + third.len());
}

/// A request that is queued and taken is active and no longer queued; one that is queued and
/// bounced is rejected and neither. Nothing else changes.
pub proof fn law_requests_counted(a: &mut Stats, b: &mut Stats, c: &mut Stats)
    requires
        call_ensures(Stats::queue, (a,), ()),
        *old(b) == *final(a),
        *old(c) == *final(a),
        call_ensures(Stats::begin, (b,), ()),
        call_ensures(Stats::bounce, (c,), ()),
        old(a).queued_requests < usize::MAX,
        old(a).active_requests < usize::MAX,
        old(a).rejected_requests < u64::MAX,
    ensures
        final(a).queued_requests == old(a).queued_requests + 1,
        final(a).active_requests == old(a).active_requests,
        final(a).rejected_requests == old(a).rejected_requests,
        final(b).queued_requests == old(a).queued_requests,
        final(b).active_requests == old(a).active_requests + 1,
        final(b).rejected_requests == old(a).rejected_requests,
        final(c).queued_requests == old(a).queued_requests,
        final(c).active_requests == old(a).active_requests,
        final(c).rejected_requests == old(a).rejected_requests + 1,
        final(b).completed_requests == old(a).completed_requests,
        final(b).generated_tokens == old(a).generated_tokens,
        final(c).failed_requests == old(a).failed_requests,
{
}

/// A request that is turned away at once is counted as rejected and never queued.
pub proof fn law_rejected(a: &mut Stats)
    requires
        call_ensures(Stats::reject, (a,), ()),
        old(a).rejected_requests < u64::MAX,
    ensures
        final(a).rejected_requests == old(a).rejected_requests + 1,
        final(a).queued_requests == old(a).queued_requests,
        final(a).active_requests == old(a).active_requests,
        final(a).failed_requests == old(a).failed_requests,
{
}

/// Each token counts once, in the total and for the request that it belongs to.
pub proof fn law_token_counted(a: &mut Stats)
    requires
        call_ensures(Stats::token, (a,), ()),
        old(a).generated_tokens < u64::MAX,
        old(a).current matches Some(c) ==> c.generated_tokens < u64::MAX,
    ensures
        final(a).generated_tokens == old(a).generated_tokens + 1,
        final(a).current is Some <==> old(a).current is Some,
        old(a).current matches Some(c) ==> final(a).current->0.generated_tokens == c.generated_tokens + 1
            && final(a).current->0.request_id == c.request_id && final(a).current->0.phase == c.phase,
        final(a).prompt_tokens == old(a).prompt_tokens,
{
}

/// What was observed last is what is told, and what was told before is handed back.
pub proof fn law_observation_published(a: &mut Stats, cache: CacheStats, memory: MemoryStats, spare: &mut ExpertActivity)
    requires
        call_ensures(Stats::publish_observation, (a, cache, memory, spare), ()),
    ensures
        final(a).cache == cache,
        final(a).memory == memory,
        final(a).activity == *old(spare),
        *final(spare) == old(a).activity,
        final(a).generated_tokens == old(a).generated_tokens,
        final(a).ready == old(a).ready,
{
}

/// Nothing is observed before the server is ready; what is observed is what was published.
pub proof fn law_observation(a: Stats, r: Result<Observation, StateError>)
    requires
        call_ensures(Stats::observation, (&a,), r),
    ensures
        !a.ready <==> r == Err::<Observation, StateError>(StateError::NotReady),
        r matches Ok(o) ==> o.observed_at_uptime_ns == a.memory.observed_at_uptime_ns && o.elapsed_ns
            == a.activity.elapsed_ns && o.gpu_timestamps_available == a.activity.gpu_timestamps_available,
        a.ready && r is Err ==> r->Err_0 is Activity,
{
}

/// A server starts with the first generation, not ready and with nothing counted; it is ready once
/// it serves an address.
pub proof fn law_starts_empty(config: Config, v: Versioned, activity: ExpertActivity, s: Stats, t: &mut Stats, address: String)
    requires
        call_ensures(Versioned::new, (config,), v),
        call_ensures(Stats::new, (activity,), s),
        *old(t) == s,
        call_ensures(Stats::serve, (t, address), ()),
    ensures
        v.generation == 1 && v.config == config,
        !s.ready && s.queued_requests == 0 && s.active_requests == 0 && s.generated_tokens == 0,
        s.completed_requests == 0 && s.failed_requests == 0 && s.rejected_requests == 0,
        s.activity == activity,
        final(t).ready && final(t).http_address == Some(address) && final(t).queued_requests == 0,
{
}

} // verus!
