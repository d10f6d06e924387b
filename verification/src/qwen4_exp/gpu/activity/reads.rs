//! Bounded read counters. Readers publish once per completed record.

use vstd::prelude::*;

verus! {

/// Reads that were asked for and reads that came back.
#[derive(Debug, Clone, Copy)]
pub struct ReadStats {
    pub requested_reads: u64,
    pub requested_bytes: u64,
    pub completed_reads: u64,
    pub failed_reads: u64,
    pub completed_bytes: u64,
    pub read_ns: u128,
    pub max_read_ns: u128,
}

impl ReadStats {
    /// Nothing counted.
    pub open spec fn nothing() -> ReadStats {
        ReadStats {
            requested_reads: 0,
            requested_bytes: 0,
            completed_reads: 0,
            failed_reads: 0,
            completed_bytes: 0,
            read_ns: 0,
            max_read_ns: 0,
        }
    }
}

impl Default for ReadStats {
    fn default() -> (r: ReadStats)
        ensures
            r == ReadStats::nothing(),
    {
        ReadStats {
            requested_reads: 0,
            requested_bytes: 0,
            completed_reads: 0,
            failed_reads: 0,
            completed_bytes: 0,
            read_ns: 0,
            max_read_ns: 0,
        }
    }
}

impl ReadStats {
    /// Whether the sums can be held.
    pub open spec fn addable(self, other: ReadStats) -> bool {
        &&& self.requested_reads + other.requested_reads <= u64::MAX
        &&& self.requested_bytes + other.requested_bytes <= u64::MAX
        &&& self.completed_reads + other.completed_reads <= u64::MAX
        &&& self.failed_reads + other.failed_reads <= u64::MAX
        &&& self.completed_bytes + other.completed_bytes <= u64::MAX
        &&& self.read_ns + other.read_ns <= u128::MAX
    }

    /// The sums.
    pub open spec fn plus(self, other: ReadStats) -> ReadStats {
        ReadStats {
            requested_reads: (self.requested_reads + other.requested_reads) as u64,
            requested_bytes: (self.requested_bytes + other.requested_bytes) as u64,
            completed_reads: (self.completed_reads + other.completed_reads) as u64,
            failed_reads: (self.failed_reads + other.failed_reads) as u64,
            completed_bytes: (self.completed_bytes + other.completed_bytes) as u64,
            read_ns: (self.read_ns + other.read_ns) as u128,
            max_read_ns: if self.max_read_ns >= other.max_read_ns {
                self.max_read_ns
            } else {
                other.max_read_ns
            },
        }
    }

    pub fn add(&mut self, other: ReadStats)
        requires
            old(self).addable(other),
        ensures
            *final(self) == old(self).plus(other),
    {
        self.requested_reads = self.requested_reads + other.requested_reads;
        self.requested_bytes = self.requested_bytes + other.requested_bytes;
        self.completed_reads = self.completed_reads + other.completed_reads;
        self.failed_reads = self.failed_reads + other.failed_reads;
        self.completed_bytes = self.completed_bytes + other.completed_bytes;
        self.read_ns = self.read_ns + other.read_ns;
        if self.max_read_ns < other.max_read_ns {
            self.max_read_ns = other.max_read_ns;
        }
    }
}

/// What a read is for.
#[derive(Debug, Clone, Copy, PartialEq, Eq, Structural)]
pub enum ReadSource {
    Prefill,
    Demand,
    Prefetch,
}

/// Reads by what they are for.
#[derive(Debug, Clone, Copy)]
pub struct ReadSources {
    pub prefill: ReadStats,
    pub demand: ReadStats,
    pub prefetch: ReadStats,
}

impl ReadSources {
    /// Nothing counted.
    pub open spec fn nothing() -> ReadSources {
        ReadSources {
            prefill: ReadStats::nothing(),
            demand: ReadStats::nothing(),
            prefetch: ReadStats::nothing(),
        }
    }
}

impl Default for ReadSources {
    fn default() -> (r: ReadSources)
        ensures
            r == ReadSources::nothing(),
    {
        ReadSources {
            prefill: ReadStats::default(),
            demand: ReadStats::default(),
            prefetch: ReadStats::default(),
        }
    }
}

impl ReadSources {
    /// Whether the sums can be held.
    pub open spec fn addable(self, other: ReadSources) -> bool {
        &&& self.prefill.addable(other.prefill)
        &&& self.demand.addable(other.demand)
        &&& self.prefetch.addable(other.prefetch)
    }

    /// The sums.
    pub open spec fn plus(self, other: ReadSources) -> ReadSources {
        ReadSources {
            prefill: self.prefill.plus(other.prefill),
            demand: self.demand.plus(other.demand),
            prefetch: self.prefetch.plus(other.prefetch),
        }
    }

    pub fn add(&mut self, other: ReadSources)
        requires
            old(self).addable(other),
        ensures
            *final(self) == old(self).plus(other),
    {
        self.prefill.add(other.prefill);
        self.demand.add(other.demand);
        self.prefetch.add(other.prefetch);
    }
}

impl ReadSources {
    /// The counters of one source.
    pub open spec fn of(self, source: ReadSource) -> ReadStats {
        match source {
            ReadSource::Prefill => self.prefill,
            ReadSource::Demand => self.demand,
            ReadSource::Prefetch => self.prefetch,
        }
    }

    /// The counters with those of one source replaced.
    pub open spec fn with(self, source: ReadSource, stats: ReadStats) -> ReadSources {
        match source {
            ReadSource::Prefill => ReadSources { prefill: stats, ..self },
            ReadSource::Demand => ReadSources { demand: stats, ..self },
            ReadSource::Prefetch => ReadSources { prefetch: stats, ..self },
        }
    }

    fn source(&self, source: ReadSource) -> (r: ReadStats)
        ensures
            r == self.of(source),
    {
        match source {
            ReadSource::Prefill => self.prefill,
            ReadSource::Demand => self.demand,
            ReadSource::Prefetch => self.prefetch,
        }
    }

    fn set_source(&mut self, source: ReadSource, stats: ReadStats)
        ensures
            *final(self) == old(self).with(source, stats),
    {
        match source {
            ReadSource::Prefill => self.prefill = stats,
            ReadSource::Demand => self.demand = stats,
            ReadSource::Prefetch => self.prefetch = stats,
        }
    }

    /// Whether the sources' sums can be held.
    pub open spec fn totals_fit(self) -> bool {
        self.prefill.addable(self.demand) && self.prefill.plus(self.demand).addable(self.prefetch)
    }

    /// All sources together.
    pub open spec fn sum(self) -> ReadStats {
        self.prefill.plus(self.demand).plus(self.prefetch)
    }

    pub fn total(self) -> (r: ReadStats)
        requires
            self.totals_fit(),
        ensures
            r == self.sum(),
    {
        let mut total: ReadStats = self.prefill;
        total.add(self.demand);
        total.add(self.prefetch);
        total
    }
}

/// A read that was asked for.
#[derive(Debug)]
pub struct ReadTicket {
    pub layer: usize,
    pub kind: u8,
    pub source: ReadSource,
    pub bytes: usize,
    pub finished: bool,
}

impl ReadTicket {
    pub fn done(&self) -> (r: bool)
        ensures
            r == self.finished,
    {
        self.finished
    }
}

/// The read counters of every layer, by precision and by what the reads are for.
#[derive(Debug)]
pub struct ReadTracker {
    pub layers: Vec<[ReadSources; 3]>,
}

impl ReadStats {
    /// The counters with one more read asked for.
    pub open spec fn asked(self, bytes: usize) -> ReadStats {
        ReadStats {
            requested_reads: (self.requested_reads + 1) as u64,
            requested_bytes: (self.requested_bytes + bytes) as u64,
            ..self
        }
    }

    /// The counters with one more read back: a short one failed.
    pub open spec fn returned(self, wanted: usize, bytes: usize, ns: u128) -> ReadStats {
        ReadStats {
            completed_reads: if bytes == wanted {
                (self.completed_reads + 1) as u64
            } else {
                self.completed_reads
            },
            failed_reads: if bytes != wanted {
                (self.failed_reads + 1) as u64
            } else {
                self.failed_reads
            },
            completed_bytes: (self.completed_bytes + bytes) as u64,
            read_ns: (self.read_ns + ns) as u128,
            max_read_ns: if self.max_read_ns >= ns {
                self.max_read_ns
            } else {
                ns
            },
            ..self
        }
    }

    /// Whether one more read can be counted as asked for.
    pub open spec fn can_ask(self, bytes: usize) -> bool {
        self.requested_reads < u64::MAX && self.requested_bytes + bytes <= u64::MAX
    }

    /// Whether one more read can be counted as back.
    pub open spec fn can_return(self, bytes: usize, ns: u128) -> bool {
        &&& self.completed_reads < u64::MAX
        &&& self.failed_reads < u64::MAX
        &&& self.completed_bytes + bytes <= u64::MAX
        &&& self.read_ns + ns <= u128::MAX
    }

    /// Reads that were asked for and are not back.
    pub open spec fn outstanding(self) -> int {
        self.requested_reads - self.completed_reads - self.failed_reads
    }
}

impl ReadTracker {
    /// The counters of one place.
    pub open spec fn at(self, layer: int, kind: int, source: ReadSource) -> ReadStats {
        self.layers@[layer]@[kind].of(source)
    }

    /// The counters with those of one place replaced.
    pub open spec fn placed(self, layer: int, kind: int, source: ReadSource, stats: ReadStats, after: ReadTracker) -> bool {
        &&& after.layers@.len() == self.layers@.len()
        &&& forall|l: int| 0 <= l < self.layers@.len() && l != layer ==> #[trigger] after.layers@[l] == self.layers@[l]
        &&& after.layers@[layer]@ == self.layers@[layer]@.update(
            kind,
            self.layers@[layer]@[kind].with(source, stats),
        )
    }

    pub fn new(layers: usize) -> (r: ReadTracker)
        ensures
            r.layers@.len() == layers,
            forall|l: int, k: int|
                0 <= l < layers && 0 <= k < 3 ==> #[trigger] r.layers@[l]@[k] == ReadSources::nothing(),
    {
        let mut all: Vec<[ReadSources; 3]> = Vec::new();
        let mut i: usize = 0;
        while i < layers
            invariant
                i <= layers,
                all@.len() == i,
                forall|l: int, k: int| 0 <= l < i && 0 <= k < 3 ==> #[trigger] all@[l]@[k] == ReadSources::nothing(),
            decreases layers - i,
        {
            let none = ReadSources::default();
            all.push([none, none, none]);
            i = i + 1;
        }
        ReadTracker { layers: all }
    }

    fn store(&mut self, layer: usize, kind: usize, source: ReadSource, stats: ReadStats)
        requires
            layer < old(self).layers@.len(),
            kind < 3,
        ensures
            old(self).placed(layer as int, kind as int, source, stats, *final(self)),
    {
        let mut row: [ReadSources; 3] = self.layers[layer];
        let mut cell: ReadSources = row[kind];
        cell.set_source(source, stats);
        row[kind] = cell;
        self.layers.set(layer, row);
    }

    /// Counts a read as asked for.
    pub fn ticket(&mut self, layer: usize, kind: u8, source: ReadSource, bytes: usize) -> (r: ReadTicket)
        requires
            layer < old(self).layers@.len(),
            kind < 3,
            old(self).at(layer as int, kind as int, source).can_ask(bytes),
        ensures
            r == (ReadTicket { layer, kind, source, bytes, finished: false }),
            old(self).placed(
                layer as int,
                kind as int,
                source,
                old(self).at(layer as int, kind as int, source).asked(bytes),
                *final(self),
            ),
    {
        let row: [ReadSources; 3] = self.layers[layer];
        let cell: ReadSources = row[kind as usize];
        let mut stats: ReadStats = cell.source(source);
        stats.requested_reads = stats.requested_reads + 1;
        stats.requested_bytes = stats.requested_bytes + bytes as u64;
        self.store(layer, kind as usize, source, stats);
        ReadTicket { layer, kind, source, bytes, finished: false }
    }

    /// Counts a read as back, with the bytes that it brought and the time that it took.
    pub fn finish(&mut self, ticket: &mut ReadTicket, bytes: usize, ns: u128)
        requires
            old(ticket).layer < old(self).layers@.len(),
            old(ticket).kind < 3,
            old(self).at(old(ticket).layer as int, old(ticket).kind as int, old(ticket).source).can_return(bytes, ns),
        ensures
            *final(ticket) == (ReadTicket { finished: true, ..*old(ticket) }),
            old(self).placed(
                old(ticket).layer as int,
                old(ticket).kind as int,
                old(ticket).source,
                old(self).at(old(ticket).layer as int, old(ticket).kind as int, old(ticket).source).returned(
                    old(ticket).bytes,
                    bytes,
                    ns,
                ),
                *final(self),
            ),
    {
        let row: [ReadSources; 3] = self.layers[ticket.layer];
        let cell: ReadSources = row[ticket.kind as usize];
        let mut stats: ReadStats = cell.source(ticket.source);
        if bytes == ticket.bytes {
            stats.completed_reads = stats.completed_reads + 1;
        } else {
            stats.failed_reads = stats.failed_reads + 1;
        }
        stats.completed_bytes = stats.completed_bytes + bytes as u64;
        stats.read_ns = stats.read_ns + ns;
        if stats.max_read_ns < ns {
            stats.max_read_ns = ns;
        }
        self.store(ticket.layer, ticket.kind as usize, ticket.source, stats);
        ticket.finished = true;
    }
}

impl ReadTicket {
    /// Makes the read and counts it as back. `read` makes it, and gives the bytes that it
    /// brought and the time that it took.
    pub fn measure<F: FnOnce() -> (usize, u128)>(&mut self, tracker: &mut ReadTracker, read: F)
        requires
            old(self).layer < old(tracker).layers@.len(),
            old(self).kind < 3,
            read.requires(()),
            forall|back: (usize, u128)| #[trigger]
                read.ensures((), back) ==> old(tracker).at(
                    old(self).layer as int,
                    old(self).kind as int,
                    old(self).source,
                ).can_return(back.0, back.1),
        ensures
            *final(self) == (ReadTicket { finished: true, ..*old(self) }),
            exists|back: (usize, u128)| #[trigger]
                read.ensures((), back) && old(tracker).placed(
                    old(self).layer as int,
                    old(self).kind as int,
                    old(self).source,
                    old(tracker).at(old(self).layer as int, old(self).kind as int, old(self).source).returned(
                        old(self).bytes,
                        back.0,
                        back.1,
                    ),
                    *final(tracker),
                ),
    {
        let back: (usize, u128) = read();
        assert(read.ensures((), back));
        tracker.finish(self, back.0, back.1);
    }
}

/// What a whole measured read changes: of the place that it was asked for, one more read is
/// complete, or failed where it brought another number of bytes than asked for; the bytes are
/// added; the longest read is no shorter; what was asked for stays. Nothing changes anywhere
/// else.
pub proof fn law_measured_read(
    start: ReadTracker,
    layer: int,
    kind: int,
    source: ReadSource,
    wanted: usize,
    bytes: usize,
    ns: u128,
    done: ReadTracker,
    l: int,
    k: int,
    s: ReadSource,
)
    requires
        0 <= layer < start.layers@.len(),
        0 <= kind < 3,
        start.at(layer, kind, source).can_return(bytes, ns),
        start.placed(layer, kind, source, start.at(layer, kind, source).returned(wanted, bytes, ns), done),
        0 <= l < start.layers@.len(),
        0 <= k < 3,
    ensures
        (l, k, s) != (layer, kind, source) ==> done.at(l, k, s) == start.at(l, k, s),
        ({
            let (a, b) = (start.at(layer, kind, source), done.at(layer, kind, source));
            &&& b.completed_reads == a.completed_reads + if bytes == wanted {
                1int
            } else {
                0
            }
            &&& b.failed_reads == a.failed_reads + if bytes == wanted {
                0int
            } else {
                1
            }
            &&& b.completed_bytes == a.completed_bytes + bytes
            &&& b.read_ns == a.read_ns + ns
            &&& b.max_read_ns >= a.max_read_ns
            &&& b.max_read_ns >= ns
            &&& b.requested_reads == a.requested_reads
            &&& b.requested_bytes == a.requested_bytes
        }),
{
    assert(done.layers@[layer]@[kind] == start.layers@[layer]@[kind].with(
        source,
        start.at(layer, kind, source).returned(wanted, bytes, ns),
    ));
    if l != layer {
        assert(done.layers@[l] == start.layers@[l]);
    }
}

/// A read is outstanding from when it is asked for until it is back, whether it failed or
/// not.
pub proof fn law_reads_settle(stats: ReadStats, wanted: usize, bytes: usize, ns: u128)
    requires
        stats.can_ask(wanted),
        stats.asked(wanted).can_return(bytes, ns),
    ensures
        stats.asked(wanted).outstanding() == stats.outstanding() + 1,
        stats.asked(wanted).returned(wanted, bytes, ns).outstanding() == stats.outstanding(),
        stats.asked(wanted).returned(wanted, wanted, ns).failed_reads == stats.failed_reads,
{
}

/// Counters can be added in either order.
pub proof fn law_read_sums_commute(a: ReadStats, b: ReadStats)
    ensures
        a.plus(b) == b.plus(a),
        a.addable(b) == b.addable(a),
{
}

/// Reads are added up each count to its own, and the longest of both is the longest.
pub proof fn law_reads_added(a: &mut ReadStats, b: ReadStats)
    requires
        call_ensures(ReadStats::add, (a, b), ()),
        old(a).addable(b),
    ensures
        final(a).requested_reads == old(a).requested_reads + b.requested_reads,
        final(a).requested_bytes == old(a).requested_bytes + b.requested_bytes,
        final(a).completed_reads == old(a).completed_reads + b.completed_reads,
        final(a).failed_reads == old(a).failed_reads + b.failed_reads,
        final(a).completed_bytes == old(a).completed_bytes + b.completed_bytes,
        final(a).read_ns == old(a).read_ns + b.read_ns,
        final(a).max_read_ns >= old(a).max_read_ns && final(a).max_read_ns >= b.max_read_ns,
        final(a).max_read_ns == old(a).max_read_ns || final(a).max_read_ns == b.max_read_ns,
{
}

/// The total of reads is the sum over what asked for them: prefill, demand and prefetch.
pub proof fn law_reads_total(s: ReadSources, r: ReadStats)
    requires
        call_ensures(ReadSources::total, (s,), r),
        s.totals_fit(),
    ensures
        r.completed_reads == s.prefill.completed_reads + s.demand.completed_reads + s.prefetch.completed_reads,
        r.failed_reads == s.prefill.failed_reads + s.demand.failed_reads + s.prefetch.failed_reads,
        r.completed_bytes == s.prefill.completed_bytes + s.demand.completed_bytes + s.prefetch.completed_bytes,
        r.requested_reads == s.prefill.requested_reads + s.demand.requested_reads + s.prefetch.requested_reads,
        r.requested_bytes == s.prefill.requested_bytes + s.demand.requested_bytes + s.prefetch.requested_bytes,
        r.read_ns == s.prefill.read_ns + s.demand.read_ns + s.prefetch.read_ns,
        r.max_read_ns >= s.prefill.max_read_ns && r.max_read_ns >= s.demand.max_read_ns && r.max_read_ns
            >= s.prefetch.max_read_ns,
{
}

/// A read that is asked for counts once, with its bytes, for its layer, its precision and what asked for
/// it; the others stay.
pub proof fn law_ticket_counted(t: &mut ReadTracker, layer: usize, kind: u8, source: ReadSource, bytes: usize, r: ReadTicket, other: int)
    requires
        call_ensures(ReadTracker::ticket, (t, layer, kind, source, bytes), r),
        layer < old(t).layers@.len(),
        kind < 3,
        old(t).at(layer as int, kind as int, source).can_ask(bytes),
        bytes <= u64::MAX,
        0 <= other < 3,
        other != kind,
    ensures
        r.layer == layer && r.kind == kind && r.source == source && r.bytes == bytes && !r.finished,
        final(t).at(layer as int, kind as int, source).requested_reads == old(t).at(
            layer as int,
            kind as int,
            source,
        ).requested_reads + 1,
        final(t).at(layer as int, kind as int, source).requested_bytes == old(t).at(
            layer as int,
            kind as int,
            source,
        ).requested_bytes + bytes,
        final(t).at(layer as int, kind as int, source).completed_reads == old(t).at(
            layer as int,
            kind as int,
            source,
        ).completed_reads,
        final(t).at(layer as int, other, source) == old(t).at(layer as int, other, source),
{
}

/// A read that came back counts as complete where all its bytes came and as failed otherwise, never as
/// both; its bytes and its time count either way.
pub proof fn law_returned_counted(s: ReadStats, wanted: usize, bytes: usize, ns: u128)
    requires
        s.can_return(bytes, ns),
    ensures
        ({
            let r = s.returned(wanted, bytes, ns);
            &&& bytes == wanted ==> r.completed_reads == s.completed_reads + 1 && r.failed_reads == s.failed_reads
            &&& bytes != wanted ==> r.failed_reads == s.failed_reads + 1 && r.completed_reads == s.completed_reads
            &&& r.completed_bytes == s.completed_bytes + bytes
            &&& r.read_ns == s.read_ns + ns
            &&& r.max_read_ns >= ns && r.max_read_ns >= s.max_read_ns && (r.max_read_ns == ns || r.max_read_ns
                == s.max_read_ns)
            &&& r.requested_reads == s.requested_reads && r.requested_bytes == s.requested_bytes
        }),
{
}

} // verus!
