//! Bounded interval history. Missing observations never become zero activity.

use crate::control::stats::{Observation, Ratio, Summary};
use crate::qwen4_exp::gpu::activity::layers::PhaseStats;
use vstd::prelude::*;

verus! {

/// The nanoseconds that the history goes back.
pub const HISTORY_NS: u128 = 120_000_000_000;

/// The most samples that are kept.
pub const MAX_SAMPLES: usize = 120;

/// How far the age of a model may drift between observations of the same load.
pub const LOAD_DRIFT_NS: u128 = 100_000_000;

/// What the charts are drawn from.
#[derive(Debug, Clone, Copy)]
pub struct Counters {
    pub time: u128,
    pub elapsed: u128,
    pub bytes: u64,
    pub wait: u128,
    pub stage: u128,
    pub gap: u128,
    pub gpu: bool,
}

/// Bytes per nanosecond, wait per nanosecond, and the share of stages in measured time; none
/// where nothing was measured.
#[derive(Debug, Clone, Copy, PartialEq, Eq, Structural)]
pub struct Values {
    pub reads: Option<Ratio>,
    pub wait: Option<Ratio>,
    pub coverage: Option<Ratio>,
}

#[derive(Debug, Clone, Copy, PartialEq, Eq, Structural)]
pub struct Sample {
    pub time: u128,
    pub values: Values,
}

/// Nothing measured.
pub open spec fn unmeasured() -> Values {
    Values { reads: None, wait: None, coverage: None }
}

/// Whether the sums of a layer's phases can be held.
pub open spec fn phases_fit(p: PhaseStats) -> bool {
    &&& p.prefetch_wait_ns + p.demand_wait_ns <= u128::MAX
    &&& p.resident_ns + p.fetched_stage_ns <= u128::MAX
    &&& p.router_to_resident_ns + p.resident_to_fetched_ns <= u128::MAX
}

/// The difference of two numbers.
pub open spec fn distance(a: int, b: int) -> int {
    if a >= b {
        a - b
    } else {
        b - a
    }
}

impl Counters {
    pub fn from(observation: &Observation, summary: &Summary) -> (r: Counters)
        requires
            phases_fit(summary.streaming.phases),
        ensures
            r.time == observation.observed_at_uptime_ns,
            r.elapsed == observation.elapsed_ns,
            r.bytes == summary.reads.completed_bytes,
            r.wait == summary.streaming.phases.prefetch_wait_ns + summary.streaming.phases.demand_wait_ns,
            r.stage == summary.streaming.phases.resident_ns + summary.streaming.phases.fetched_stage_ns,
            r.gap == summary.streaming.phases.router_to_resident_ns + summary.streaming.phases.resident_to_fetched_ns,
            r.gpu == observation.gpu_timestamps_available,
    {
        let phases: PhaseStats = summary.streaming.phases;
        Counters {
            time: observation.observed_at_uptime_ns,
            elapsed: observation.elapsed_ns,
            bytes: summary.reads.completed_bytes,
            wait: phases.prefetch_wait_ns + phases.demand_wait_ns,
            stage: phases.resident_ns + phases.fetched_stage_ns,
            gap: phases.router_to_resident_ns + phases.resident_to_fetched_ns,
            gpu: observation.gpu_timestamps_available,
        }
    }

    /// Whether counting began anew: something went back, or the model was loaded again in the
    /// same server.
    pub open spec fn restarted(self, previous: Counters) -> bool {
        ||| self.time < previous.time
        ||| self.elapsed < previous.elapsed
        ||| self.bytes < previous.bytes
        ||| self.wait < previous.wait
        ||| self.stage < previous.stage
        ||| self.gap < previous.gap
        ||| distance(self.time - previous.time, self.elapsed - previous.elapsed) > LOAD_DRIFT_NS
    }

    pub fn reset_since(&self, previous: &Counters) -> (r: bool)
        ensures
            r == self.restarted(*previous),
    {
        if self.time < previous.time || self.elapsed < previous.elapsed || self.bytes < previous.bytes || self.wait
            < previous.wait || self.stage < previous.stage || self.gap < previous.gap {
            return true;
        }
        let passed: u128 = self.time - previous.time;
        let aged: u128 = self.elapsed - previous.elapsed;
        if passed >= aged {
            passed - aged > LOAD_DRIFT_NS
        } else {
            aged - passed > LOAD_DRIFT_NS
        }
    }

    /// What happened between two observations, for each nanosecond between them.
    pub open spec fn rates(self, previous: Counters) -> Values {
        let ns = (self.time - previous.time) as u128;
        let stage = self.stage - previous.stage;
        let gap = self.gap - previous.gap;
        Values {
            reads: Some(Ratio { numerator: (self.bytes - previous.bytes) as u128, denominator: ns }),
            wait: Some(Ratio { numerator: (self.wait - previous.wait) as u128, denominator: ns }),
            coverage: if self.gpu && previous.gpu && stage + gap > 0 {
                Some(Ratio { numerator: stage as u128, denominator: (stage + gap) as u128 })
            } else {
                None
            },
        }
    }

    pub fn rates_since(&self, previous: &Counters) -> (r: Values)
        requires
            !self.restarted(*previous),
            self.stage + self.gap <= u128::MAX,
        ensures
            r == self.rates(*previous),
    {
        let ns: u128 = self.time - previous.time;
        let stage: u128 = self.stage - previous.stage;
        let gap: u128 = self.gap - previous.gap;
        Values {
            reads: Some(Ratio { numerator: (self.bytes - previous.bytes) as u128, denominator: ns }),
            wait: Some(Ratio { numerator: self.wait - previous.wait, denominator: ns }),
            coverage: if self.gpu && previous.gpu && stage + gap > 0 {
                Some(Ratio { numerator: stage, denominator: stage + gap })
            } else {
                None
            },
        }
    }
}

/// The last samples: no more than are kept, and none older than the history goes back.
pub open spec fn trimmed(samples: Seq<Sample>) -> Seq<Sample>
    decreases samples.len(),
{
    if samples.len() > 0 && (samples.len() > MAX_SAMPLES || samples.last().time - samples[0].time > HISTORY_NS) {
        trimmed(samples.skip(1))
    } else {
        samples
    }
}

/// The samples and what they were last measured from.
#[derive(Debug)]
pub struct History {
    pub samples: Vec<Sample>,
    pub previous: Option<Counters>,
    pub disconnected: bool,
}

impl History {
    pub fn new() -> (r: History)
        ensures
            r.samples@.len() == 0,
            r.previous is None,
            !r.disconnected,
    {
        History { samples: Vec::new(), previous: None, disconnected: false }
    }

    /// Observations are missing from here on.
    pub fn disconnect(&mut self)
        ensures
            *final(self) == (History { disconnected: true, ..*old(self) }),
    {
        self.disconnected = true;
    }

    /// What an observation leaves: the samples and whether observations are missing.
    pub open spec fn after(self, current: Counters) -> (Seq<Sample>, bool) {
        match self.previous {
            None => (trimmed(self.samples@.push(Sample { time: current.time, values: unmeasured() })), self.disconnected),
            Some(previous) => if current.restarted(previous) {
                (seq![Sample { time: current.time, values: unmeasured() }], false)
            } else if current.time == previous.time {
                (self.samples@, self.disconnected)
            } else {
                (
                    trimmed(
                        self.samples@.push(
                            Sample {
                                time: current.time,
                                values: if self.disconnected {
                                    unmeasured()
                                } else {
                                    current.rates(previous)
                                },
                            },
                        ),
                    ),
                    false,
                )
            },
        }
    }

    /// What the next observation is measured from: the server can return the same one more
    /// than once.
    pub open spec fn base_after(self, current: Counters) -> Counters {
        match self.previous {
            Some(previous) => if !current.restarted(previous) && current.time == previous.time {
                previous
            } else {
                current
            },
            None => current,
        }
    }

    /// Takes over an observation; one that cannot be read counts as missing.
    pub fn observe(&mut self, current: Option<Counters>)
        requires
            current matches Some(c) ==> c.stage + c.gap <= u128::MAX,
        ensures
            match current {
                None => *final(self) == (History { disconnected: true, ..*old(self) }),
                Some(c) => {
                    &&& (final(self).samples@, final(self).disconnected) == old(self).after(c)
                    &&& final(self).previous == Some(old(self).base_after(c))
                },
            },
    {
        let current: Counters = match current {
            Some(c) => c,
            None => {
                self.disconnect();
                return ;
            },
        };
        let previous: Counters = match self.previous {
            Some(p) => p,
            None => {
                self.previous = Some(current);
                self.push(current.time, Values { reads: None, wait: None, coverage: None });
                return ;
            },
        };
        if current.reset_since(&previous) {
            self.samples = Vec::new();
            self.previous = Some(current);
            self.disconnected = false;
            self.push(current.time, Values { reads: None, wait: None, coverage: None });
            proof {
                let only = Sample { time: current.time, values: unmeasured() };
                assert(Seq::<Sample>::empty().push(only) =~= seq![only]);
            }
            return ;
        }
        // The server can return the same observation more than once.
        if current.time == previous.time {
            return ;
        }
        let values: Values = if self.disconnected {
            Values { reads: None, wait: None, coverage: None }
        } else {
            current.rates_since(&previous)
        };
        self.previous = Some(current);
        self.disconnected = false;
        self.push(current.time, values);
    }

    fn push(&mut self, time: u128, values: Values)
        ensures
            final(self).samples@ == trimmed(old(self).samples@.push(Sample { time, values })),
            final(self).previous == old(self).previous,
            final(self).disconnected == old(self).disconnected,
    {
        self.samples.push(Sample { time, values });
        let ghost wanted = trimmed(self.samples@);
        while self.samples.len() > MAX_SAMPLES || (self.samples[0].time < time && time - self.samples[0].time > HISTORY_NS)
            invariant
                self.samples@.len() > 0,
                self.samples@.last() == (Sample { time, values }),
                trimmed(self.samples@) == wanted,
                self.previous == old(self).previous,
                self.disconnected == old(self).disconnected,
            decreases self.samples@.len(),
        {
            let ghost before = self.samples@;
            self.samples.remove(0);
            assert(self.samples@ =~= before.skip(1));
        }
    }
}

/// The history is bounded: however long it is kept, it has no more samples than may be kept,
/// and none older than it goes back.
pub proof fn law_history_bounded(samples: Seq<Sample>)
    ensures
        trimmed(samples).len() <= MAX_SAMPLES,
        trimmed(samples).len() > 0 ==> trimmed(samples).last().time - trimmed(samples)[0].time <= HISTORY_NS,
        samples.len() > 0 ==> trimmed(samples).len() > 0 && trimmed(samples).last() == samples.last(),
    decreases samples.len(),
{
    if samples.len() > 0 && (samples.len() > MAX_SAMPLES || samples.last().time - samples[0].time > HISTORY_NS) {
        if samples.len() > 1 {
            assert(samples.skip(1).last() == samples.last());
        }
        law_history_bounded(samples.skip(1));
    }
}

/// Missing observations never become zero activity: what follows a gap, a first observation
/// or a restart is a sample without values.
pub proof fn law_gaps_are_unmeasured(history: History, current: Counters)
    requires
        history.disconnected || history.previous is None || current.restarted(history.previous->0),
        history.previous matches Some(p) ==> p.time != current.time || current.restarted(p),
    ensures
        history.after(current).0.len() > 0,
        history.after(current).0.last().values == unmeasured(),
        history.after(current).0.last().time == current.time,
{
    law_history_bounded(history.samples@.push(Sample { time: current.time, values: unmeasured() }));
}

/// After a gap the first observation has no values, and the second one is measured from the
/// first: what was missed is counted in neither.
pub proof fn law_gap_then_measured(history: History, first: Counters, between: History, second: Counters)
    requires
        history.disconnected,
        history.previous matches Some(p) && !first.restarted(p) && p.time != first.time,
        (between.samples@, between.disconnected) == history.after(first),
        between.previous == Some(history.base_after(first)),
        !second.restarted(first),
        second.time != first.time,
    ensures
        !between.disconnected,
        between.samples@.last().values == unmeasured(),
        between.samples@.last().time == first.time,
        between.after(second).0.len() > 0,
        between.after(second).0.last() == (Sample { time: second.time, values: second.rates(first) }),
        !between.after(second).1,
{
    law_gaps_are_unmeasured(history, first);
    law_history_bounded(between.samples@.push(Sample { time: second.time, values: second.rates(first) }));
}

/// What is kept of the samples are the last: at most 120 of them, none older than two minutes, and none
/// dropped that could have stayed.
pub proof fn law_samples_trimmed(samples: Seq<Sample>) -> (dropped: int)
    ensures
        0 <= dropped <= samples.len(),
        trimmed(samples) == samples.skip(dropped),
        samples.len() - dropped <= 120,
        dropped < samples.len() ==> samples.last().time - samples[dropped].time <= 120_000_000_000,
        dropped > 0 ==> samples.len() - (dropped - 1) > 120 || samples.last().time - samples[dropped - 1].time
            > 120_000_000_000,
    decreases samples.len(),
{
    if samples.len() > 0 && (samples.len() > 120 || samples.last().time - samples[0].time > 120_000_000_000) {
        let rest = samples.skip(1);
        let d = law_samples_trimmed(rest);
        assert(rest.skip(d) =~= samples.skip(d + 1));
        if rest.len() > 0 {
            assert(rest.last() == samples.last());
        }
        d + 1
    } else {
        assert(samples.skip(0) =~= samples);
        0
    }
}

/// Counters have started anew exactly where one of them went back, or where the clock and the running
/// time went apart by more than a tenth of a second.
pub proof fn law_reset_detected(now: Counters, before: Counters, r: bool)
    requires
        call_ensures(Counters::reset_since, (&now, &before), r),
    ensures
        !r <==> {
            &&& now.time >= before.time && now.elapsed >= before.elapsed && now.bytes >= before.bytes
            &&& now.wait >= before.wait && now.stage >= before.stage && now.gap >= before.gap
            &&& (now.time - before.time) - (now.elapsed - before.elapsed) <= 100_000_000
            &&& (now.elapsed - before.elapsed) - (now.time - before.time) <= 100_000_000
        },
{
}

/// Rates are what was counted between two observations over the time between them; of the device, the
/// stages over stages and gaps, where both were timed.
pub proof fn law_rates(now: Counters, before: Counters, r: Values)
    requires
        call_ensures(Counters::rates_since, (&now, &before), r),
        !now.restarted(before),
        now.stage + now.gap <= u128::MAX,
    ensures
        r.reads matches Some(x) && x.numerator == now.bytes - before.bytes && x.denominator == now.time - before.time,
        r.wait matches Some(x) && x.numerator == now.wait - before.wait && x.denominator == now.time - before.time,
        r.coverage is Some <==> now.gpu && before.gpu && (now.stage > before.stage || now.gap > before.gap),
        r.coverage matches Some(x) ==> x.numerator == now.stage - before.stage && x.denominator == (now.stage - before.stage) + (
        now.gap - before.gap),
{
}

/// An observation adds a sample of its own time, unmeasured behind a gap and measured against the one
/// before otherwise; the same moment adds none, a new start leaves its own alone, and a failed one only
/// marks the gap.
pub proof fn law_observed(h: &mut History, current: Option<Counters>)
    requires
        call_ensures(History::observe, (h, current), ()),
    ensures
        current is None ==> final(h).disconnected && final(h).samples@ == old(h).samples@ && final(h).previous == old(h).previous,
        current matches Some(c) ==> match old(h).previous {
            None => final(h).samples@.len() > 0 ==> final(h).samples@.last().time == c.time && final(
                h
            ).samples@.last().values.reads is None,
            Some(p) => {
                &&& c.restarted(p) ==> final(h).samples@.len() == 1 && final(h).samples@[0].time == c.time && final(
                    h
                ).samples@[0].values.reads is None && !final(h).disconnected
                &&& !c.restarted(p) && c.time == p.time ==> final(h).samples@ == old(h).samples@ && final(h).previous
                    == Some(p)
                &&& !c.restarted(p) && c.time != p.time ==> {
                    &&& !final(h).disconnected
                    &&& final(h).previous == Some(c)
                    &&& final(h).samples@.len() > 0 ==> final(h).samples@.last().time == c.time
                    &&& final(h).samples@.len() > 0 && old(h).disconnected ==> final(h).samples@.last().values.reads is None
                    &&& final(h).samples@.len() > 0 && !old(h).disconnected ==> (final(
                        h
                    ).samples@.last().values.reads matches Some(x) && x.numerator == c.bytes - p.bytes && x.denominator
                        == c.time - p.time)
                }
            },
        },
{
    if current is Some {
        let c = current->0;
        let a = old(h).samples@.push(Sample { time: c.time, values: unmeasured() });
        let d = law_samples_trimmed(a);
        if d < a.len() {
            assert(a.skip(d).last() == a.last());
        }
        if old(h).previous is Some {
            let p = old(h).previous->0;
            let b = old(h).samples@.push(Sample { time: c.time, values: c.rates(p) });
            let e = law_samples_trimmed(b);
            if e < b.len() {
                assert(b.skip(e).last() == b.last());
            }
        }
    }
}

} // verus!
