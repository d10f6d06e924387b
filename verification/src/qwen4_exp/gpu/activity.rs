//! Cumulative routed-expert activity. Verification and draft rows count even when they are
//! later rolled back. Counters of requested reads do not say that the reads came back.

pub mod layers;
pub mod reads;

use super::phases::GpuTiming;
use crate::number::Real32;
use crate::qwen4_exp::manifest::ExpertLayout;
use layers::{LayerStats, PredictionStats, QuantStats};
use reads::{ReadSources, ReadTracker};
use vstd::prelude::*;
use vstd::string::*;

verus! {

/// What happened to one expert of one layer.
#[derive(Debug, Clone, Copy)]
pub struct ExpertCounters {
    pub selected_rows: u64,
    pub cache_hits: u64,
    pub cache_misses: u64,
    pub prefetch_requests: u64,
    pub read_requests: u64,
    pub read_bytes_requested: u64,
}

impl ExpertCounters {
    /// Nothing counted.
    pub open spec fn nothing() -> ExpertCounters {
        ExpertCounters {
            selected_rows: 0,
            cache_hits: 0,
            cache_misses: 0,
            prefetch_requests: 0,
            read_requests: 0,
            read_bytes_requested: 0,
        }
    }

    /// Whether the sums can be held.
    pub open spec fn addable(self, other: ExpertCounters) -> bool {
        &&& self.selected_rows + other.selected_rows <= u64::MAX
        &&& self.cache_hits + other.cache_hits <= u64::MAX
        &&& self.cache_misses + other.cache_misses <= u64::MAX
        &&& self.prefetch_requests + other.prefetch_requests <= u64::MAX
        &&& self.read_requests + other.read_requests <= u64::MAX
        &&& self.read_bytes_requested + other.read_bytes_requested <= u64::MAX
    }

    /// The sums.
    pub open spec fn plus(self, other: ExpertCounters) -> ExpertCounters {
        ExpertCounters {
            selected_rows: (self.selected_rows + other.selected_rows) as u64,
            cache_hits: (self.cache_hits + other.cache_hits) as u64,
            cache_misses: (self.cache_misses + other.cache_misses) as u64,
            prefetch_requests: (self.prefetch_requests + other.prefetch_requests) as u64,
            read_requests: (self.read_requests + other.read_requests) as u64,
            read_bytes_requested: (self.read_bytes_requested + other.read_bytes_requested) as u64,
        }
    }

    pub fn add(&mut self, other: ExpertCounters)
        requires
            old(self).addable(other),
        ensures
            *final(self) == old(self).plus(other),
    {
        self.selected_rows = self.selected_rows + other.selected_rows;
        self.cache_hits = self.cache_hits + other.cache_hits;
        self.cache_misses = self.cache_misses + other.cache_misses;
        self.prefetch_requests = self.prefetch_requests + other.prefetch_requests;
        self.read_requests = self.read_requests + other.read_requests;
        self.read_bytes_requested = self.read_bytes_requested + other.read_bytes_requested;
    }

    /// What one lookup for so many rows counts.
    pub open spec fn of_lookup(rows: usize, resident: bool) -> ExpertCounters {
        ExpertCounters {
            selected_rows: rows as u64,
            cache_hits: if resident {
                1
            } else {
                0
            },
            cache_misses: if resident {
                0
            } else {
                1
            },
            ..ExpertCounters::nothing()
        }
    }

    /// What one read request counts.
    pub open spec fn of_read(bytes: usize) -> ExpertCounters {
        ExpertCounters { read_requests: 1, read_bytes_requested: bytes as u64, ..ExpertCounters::nothing() }
    }

    /// Counts one lookup for so many rows.
    pub fn lookup(&mut self, rows: usize, resident: bool)
        requires
            old(self).addable(ExpertCounters::of_lookup(rows, resident)),
        ensures
            *final(self) == old(self).plus(ExpertCounters::of_lookup(rows, resident)),
    {
        self.selected_rows = self.selected_rows + rows as u64;
        if resident {
            self.cache_hits = self.cache_hits + 1;
        } else {
            self.cache_misses = self.cache_misses + 1;
        }
    }
}

impl Default for ExpertCounters {
    fn default() -> (r: ExpertCounters)
        ensures
            r == ExpertCounters::nothing(),
    {
        ExpertCounters {
            selected_rows: 0,
            cache_hits: 0,
            cache_misses: 0,
            prefetch_requests: 0,
            read_requests: 0,
            read_bytes_requested: 0,
        }
    }
}

/// Why activity cannot be shown.
#[derive(Debug, Clone, Copy, PartialEq, Eq, Structural)]
pub enum ActivityError {
    LayerNames,
    RecordCount,
}

impl ActivityError {
    pub open spec fn text(self) -> Seq<char> {
        match self {
            ActivityError::LayerNames => "expert activity layer names and stats differ in length"@,
            ActivityError::RecordCount => "expert activity record count does not match layer dimensions"@,
        }
    }

    pub fn message(&self) -> (r: &'static str)
        ensures
            r@ == self.text(),
    {
        match self {
            ActivityError::LayerNames => "expert activity layer names and stats differ in length",
            ActivityError::RecordCount => "expert activity record count does not match layer dimensions",
        }
    }
}

/// What happened to the experts of all layers.
#[derive(Debug)]
pub struct ExpertActivity {
    pub layer_prefixes: Vec<String>,
    pub experts_per_layer: usize,
    pub records: Vec<ExpertCounters>,
    pub layers: Vec<LayerStats>,
    pub elapsed_ns: u128,
    pub gpu_timestamps_available: bool,
    pub gpu_timing: GpuTiming,
}

/// What texts hold.
pub open spec fn texts(list: Seq<String>) -> Seq<Seq<char>> {
    list.map_values(|s: String| s@)
}

fn copy_texts(list: &Vec<String>) -> (r: Vec<String>)
    ensures
        texts(r@) == texts(list@),
{
    let mut out: Vec<String> = Vec::new();
    let mut i: usize = 0;
    while i < list.len()
        invariant
            i <= list@.len(),
            out@.len() == i,
            forall|k: int| 0 <= k < i ==> (#[trigger] out@[k])@ == list@[k]@,
        decreases list@.len() - i,
    {
        out.push(list[i].clone());
        i = i + 1;
    }
    assert(texts(out@) =~= texts(list@));
    out
}

/// How often an id occurs.
pub open spec fn count_of(ids: Seq<u32>, id: u32) -> nat
    decreases ids.len(),
{
    if ids.len() == 0 {
        0
    } else {
        count_of(ids.drop_last(), id) + if ids.last() == id {
            1nat
        } else {
            0
        }
    }
}

fn count(ids: &[u32], id: u32) -> (r: usize)
    ensures
        r == count_of(ids@, id),
{
    let mut n: usize = 0;
    let mut i: usize = 0;
    assert(ids@.take(0) =~= Seq::<u32>::empty());
    while i < ids.len()
        invariant
            i <= ids@.len(),
            n == count_of(ids@.take(i as int), id),
            n <= i,
        decreases ids@.len() - i,
    {
        assert(ids@.take(i + 1).drop_last() =~= ids@.take(i as int));
        if ids[i] == id {
            n = n + 1;
        }
        i = i + 1;
    }
    assert(ids@.take(i as int) =~= ids@);
    n
}

fn listed(ids: &[u32], id: u32) -> (r: bool)
    ensures
        r == ids@.contains(id),
{
    let mut i: usize = 0;
    while i < ids.len()
        invariant
            i <= ids@.len(),
            forall|k: int| 0 <= k < i ==> ids@[k] != id,
        decreases ids@.len() - i,
    {
        if ids[i] == id {
            return true;
        }
        i = i + 1;
    }
    false
}

/// Whether additions to records can be held, one behind the other.
pub open spec fn additions_fit(records: Seq<ExpertCounters>, adds: Seq<(int, ExpertCounters)>) -> bool
    decreases adds.len(),
{
    adds.len() == 0 || {
        let (record, counters) = adds.last();
        &&& additions_fit(records, adds.drop_last())
        &&& 0 <= record < records.len()
        &&& added_up(records, adds.drop_last())[record].addable(counters)
    }
}

/// The records after additions to them.
pub open spec fn added_up(records: Seq<ExpertCounters>, adds: Seq<(int, ExpertCounters)>) -> Seq<ExpertCounters>
    decreases adds.len(),
{
    if adds.len() == 0 {
        records
    } else {
        let (record, counters) = adds.last();
        let earlier = added_up(records, adds.drop_last());
        earlier.update(record, earlier[record].plus(counters))
    }
}

proof fn lemma_additions_prefix(records: Seq<ExpertCounters>, adds: Seq<(int, ExpertCounters)>, n: int)
    requires
        additions_fit(records, adds),
        0 <= n <= adds.len(),
    ensures
        additions_fit(records, adds.take(n)),
        added_up(records, adds.take(n)).len() == records.len(),
    decreases adds.len(),
{
    if n == adds.len() {
        assert(adds.take(n) =~= adds);
        if n > 0 {
            lemma_additions_prefix(records, adds.drop_last(), n - 1);
            assert(adds.drop_last().take(n - 1) =~= adds.drop_last());
        }
    } else {
        lemma_additions_prefix(records, adds.drop_last(), n);
        assert(adds.drop_last().take(n) =~= adds.take(n));
    }
}

/// What the routing of a batch adds: each expert's rows, and a hit or a miss.
pub open spec fn routed_adds(ids: Seq<u32>, experts: Seq<u32>, records: Seq<usize>, resident: Seq<bool>) -> Seq<
    (int, ExpertCounters),
> {
    Seq::new(
        experts.len(),
        |i: int|
            (
                records[i] as int,
                ExpertCounters::of_lookup(count_of(ids, experts[i]) as usize, resident[i]),
            ),
    )
}

/// What the reads of a plan add, given the place of each among the needed records and its
/// bytes.
pub open spec fn read_adds(need: Seq<usize>, requests: Seq<(usize, usize)>) -> Seq<(int, ExpertCounters)> {
    requests.map_values(|r: (usize, usize)| (need[r.0 as int] as int, ExpertCounters::of_read(r.1)))
}

impl ExpertActivity {
    /// The first reason why the lists do not belong together.
    pub open spec fn fault(self) -> Option<ActivityError> {
        if self.layer_prefixes@.len() != self.layers@.len() {
            Some(ActivityError::LayerNames)
        } else if self.layers@.len() * self.experts_per_layer != self.records@.len() {
            Some(ActivityError::RecordCount)
        } else {
            None
        }
    }

    pub fn validate_dimensions(&self) -> (r: Result<(), ActivityError>)
        ensures
            r == match self.fault() {
                Some(e) => Err::<(), ActivityError>(e),
                None => Ok(()),
            },
    {
        if self.layer_prefixes.len() != self.layers.len() {
            return Err(ActivityError::LayerNames);
        }
        let records: usize = self.records.len();
        match self.layers.len().checked_mul(self.experts_per_layer) {
            Some(n) => if n == records {
                Ok(())
            } else {
                Err(ActivityError::RecordCount)
            },
            None => Err(ActivityError::RecordCount),
        }
    }

    /// The layer that a record belongs to.
    pub fn layer_for_record(&self, record: usize) -> (r: usize)
        requires
            self.experts_per_layer > 0,
        ensures
            r == record as int / self.experts_per_layer as int,
    {
        record / self.experts_per_layer
    }

    /// No activity yet.
    pub fn new(layout: &ExpertLayout) -> (r: ExpertActivity)
        requires
            layout.layers * layout.experts <= usize::MAX,
        ensures
            texts(r.layer_prefixes@) == texts(layout.layer_prefixes@),
            r.experts_per_layer == layout.experts,
            r.records@ == Seq::new((layout.layers * layout.experts) as nat, |i: int| ExpertCounters::nothing()),
            r.layers@.len() == layout.layers,
            forall|i: int| 0 <= i < layout.layers ==> (#[trigger] r.layers@[i]).empty(),
            r.elapsed_ns == 0,
            !r.gpu_timestamps_available,
            r.gpu_timing is NotInitialized,
            layout.layer_prefixes@.len() == layout.layers ==> r.fault() is None,
    {
        let mut layers: Vec<LayerStats> = Vec::new();
        let mut i: usize = 0;
        while i < layout.layers
            invariant
                i <= layout.layers,
                layers@.len() == i,
                forall|k: int| 0 <= k < i ==> (#[trigger] layers@[k]).empty(),
            decreases layout.layers - i,
        {
            layers.push(LayerStats::default());
            i = i + 1;
        }
        let total: usize = layout.layers * layout.experts;
        let mut records: Vec<ExpertCounters> = Vec::new();
        let mut j: usize = 0;
        while j < total
            invariant
                j <= total,
                records@ == Seq::new(j as nat, |i: int| ExpertCounters::nothing()),
            decreases total - j,
        {
            records.push(ExpertCounters::default());
            j = j + 1;
            assert(records@ =~= Seq::new(j as nat, |i: int| ExpertCounters::nothing()));
        }
        let layer_prefixes = copy_texts(&layout.layer_prefixes);
        assert(texts(layer_prefixes@).len() == layer_prefixes@.len());
        assert(texts(layout.layer_prefixes@).len() == layout.layer_prefixes@.len());
        ExpertActivity {
            layer_prefixes,
            experts_per_layer: layout.experts,
            records,
            layers,
            elapsed_ns: 0,
            gpu_timestamps_available: false,
            gpu_timing: GpuTiming::NotInitialized,
        }
    }

    /// Everything but the records stays.
    pub open spec fn same_but_records(self, other: ExpertActivity) -> bool {
        &&& self.layer_prefixes == other.layer_prefixes
        &&& self.experts_per_layer == other.experts_per_layer
        &&& self.layers == other.layers
        &&& self.elapsed_ns == other.elapsed_ns
        &&& self.gpu_timestamps_available == other.gpu_timestamps_available
        &&& self.gpu_timing == other.gpu_timing
    }

    /// Everything but one layer's counters stays.
    pub open spec fn same_but_layer(self, layer: int, other: ExpertActivity) -> bool {
        &&& self.layer_prefixes == other.layer_prefixes
        &&& self.experts_per_layer == other.experts_per_layer
        &&& self.records == other.records
        &&& self.elapsed_ns == other.elapsed_ns
        &&& self.gpu_timestamps_available == other.gpu_timestamps_available
        &&& self.gpu_timing == other.gpu_timing
        &&& self.layers@.len() == other.layers@.len()
        &&& forall|i: int| 0 <= i < self.layers@.len() && i != layer ==> #[trigger] self.layers@[i] == other.layers@[i]
    }

    /// Counts one lookup of a record.
    pub fn lookup(&mut self, record: usize, rows: usize, resident: bool)
        requires
            record < old(self).records@.len(),
            old(self).records@[record as int].addable(ExpertCounters::of_lookup(rows, resident)),
        ensures
            final(self).same_but_records(*old(self)),
            final(self).records@ == old(self).records@.update(
                record as int,
                old(self).records@[record as int].plus(ExpertCounters::of_lookup(rows, resident)),
            ),
    {
        let mut counters: ExpertCounters = self.records[record];
        counters.lookup(rows, resident);
        self.records.set(record, counters);
    }

    /// Counts one read request of a record.
    pub fn read(&mut self, record: usize, bytes: usize)
        requires
            record < old(self).records@.len(),
            old(self).records@[record as int].addable(ExpertCounters::of_read(bytes)),
        ensures
            final(self).same_but_records(*old(self)),
            final(self).records@ == old(self).records@.update(
                record as int,
                old(self).records@[record as int].plus(ExpertCounters::of_read(bytes)),
            ),
    {
        let mut counters: ExpertCounters = self.records[record];
        counters.read_requests = counters.read_requests + 1;
        counters.read_bytes_requested = counters.read_bytes_requested + bytes as u64;
        self.records.set(record, counters);
    }

    /// Counts the experts that a batch was routed to: `records` and `resident` say of each
    /// expert which record it is and whether it was held.
    pub fn record_routed_experts(&mut self, ids: &[u32], experts: &[u32], records: &[usize], resident: &[bool])
        requires
            records@.len() == experts@.len(),
            resident@.len() == experts@.len(),
            additions_fit(old(self).records@, routed_adds(ids@, experts@, records@, resident@)),
        ensures
            final(self).same_but_records(*old(self)),
            final(self).records@ == added_up(
                old(self).records@,
                routed_adds(ids@, experts@, records@, resident@),
            ),
    {
        let ghost start = self.records@;
        let ghost adds = routed_adds(ids@, experts@, records@, resident@);
        let mut i: usize = 0;
        assert(adds.take(0) =~= Seq::<(int, ExpertCounters)>::empty());
        while i < experts.len()
            invariant
                i <= experts@.len(),
                records@.len() == experts@.len(),
                resident@.len() == experts@.len(),
                start == old(self).records@,
                adds == routed_adds(ids@, experts@, records@, resident@),
                additions_fit(start, adds),
                self.same_but_records(*old(self)),
                self.records@ == added_up(start, adds.take(i as int)),
            decreases experts@.len() - i,
        {
            proof {
                lemma_additions_prefix(start, adds, i + 1);
                lemma_additions_prefix(start, adds, i as int);
                assert(adds.take(i + 1).drop_last() =~= adds.take(i as int));
                assert(adds.take(i + 1).last() == adds[i as int]);
            }
            let rows: usize = count(ids, experts[i]);
            self.lookup(records[i], rows, resident[i]);
            i = i + 1;
        }
        assert(adds.take(i as int) =~= adds);
    }

    /// Counts the reads of a plan, unless experts are not read at all: `requests` gives the
    /// place of each among the needed records and its bytes.
    pub fn record_read_plan(&mut self, need: &[usize], requests: &[(usize, usize)], fake_experts: bool)
        requires
            forall|i: int| 0 <= i < requests@.len() ==> (#[trigger] requests@[i]).0 < need@.len(),
            !fake_experts ==> additions_fit(old(self).records@, read_adds(need@, requests@)),
        ensures
            final(self).same_but_records(*old(self)),
            final(self).records@ == if fake_experts {
                old(self).records@
            } else {
                added_up(old(self).records@, read_adds(need@, requests@))
            },
    {
        if fake_experts {
            return ;
        }
        let ghost start = self.records@;
        let ghost adds = read_adds(need@, requests@);
        let mut i: usize = 0;
        assert(adds.take(0) =~= Seq::<(int, ExpertCounters)>::empty());
        while i < requests.len()
            invariant
                i <= requests@.len(),
                forall|i: int| 0 <= i < requests@.len() ==> (#[trigger] requests@[i]).0 < need@.len(),
                start == old(self).records@,
                adds == read_adds(need@, requests@),
                additions_fit(start, adds),
                self.same_but_records(*old(self)),
                self.records@ == added_up(start, adds.take(i as int)),
            decreases requests@.len() - i,
        {
            proof {
                lemma_additions_prefix(start, adds, i + 1);
                lemma_additions_prefix(start, adds, i as int);
                assert(adds.take(i + 1).drop_last() =~= adds.take(i as int));
                assert(adds.take(i + 1).last() == adds[i as int]);
            }
            let (index, bytes) = requests[i];
            self.read(need[index], bytes);
            i = i + 1;
        }
        assert(adds.take(i as int) =~= adds);
    }
}

/// Whether a routed expert was missing and weak enough to be cut.
pub open spec fn weak_miss(missing: Seq<bool>, weights: Seq<Real32>, kinds: Seq<u8>, cut: Real32, kind: int, i: int) -> bool {
    missing[i] && weights[i].lt(cut) && kinds[i] == kind
}

/// How many of the first routed experts of a precision were missing and weak.
pub open spec fn weak_misses(missing: Seq<bool>, weights: Seq<Real32>, kinds: Seq<u8>, cut: Real32, kind: int, n: int) -> nat
    decreases n,
{
    if n <= 0 {
        0
    } else {
        weak_misses(missing, weights, kinds, cut, kind, n - 1) + if weak_miss(missing, weights, kinds, cut, kind, n - 1) {
            1nat
        } else {
            0
        }
    }
}

/// How many of the first experts have a precision.
pub open spec fn of_kind(kinds: Seq<u8>, kind: int, n: int) -> nat
    decreases n,
{
    if n <= 0 {
        0
    } else {
        of_kind(kinds, kind, n - 1) + if kinds[n - 1] == kind {
            1nat
        } else {
            0
        }
    }
}

/// How many rows chose the first experts of a precision.
pub open spec fn rows_of_kind(ids: Seq<u32>, experts: Seq<u32>, kinds: Seq<u8>, kind: int, n: int) -> nat
    decreases n,
{
    if n <= 0 {
        0
    } else {
        rows_of_kind(ids, experts, kinds, kind, n - 1) + if kinds[n - 1] == kind {
            count_of(ids, experts[n - 1])
        } else {
            0
        }
    }
}

proof fn lemma_weak_misses_bounded(
    missing: Seq<bool>,
    weights: Seq<Real32>,
    kinds: Seq<u8>,
    cut: Real32,
    kind: int,
    n: int,
)
    requires
        0 <= n,
    ensures
        weak_misses(missing, weights, kinds, cut, kind, n) <= n,
    decreases n,
{
    if n > 0 {
        lemma_weak_misses_bounded(missing, weights, kinds, cut, kind, n - 1);
    }
}

proof fn lemma_kind_bounded(kinds: Seq<u8>, kind: int, n: int)
    requires
        0 <= n,
    ensures
        of_kind(kinds, kind, n) <= n,
    decreases n,
{
    if n > 0 {
        lemma_kind_bounded(kinds, kind, n - 1);
    }
}

proof fn lemma_rows_grow(ids: Seq<u32>, experts: Seq<u32>, kinds: Seq<u8>, kind: int, m: int, n: int)
    requires
        0 <= m <= n,
    ensures
        rows_of_kind(ids, experts, kinds, kind, m) <= rows_of_kind(ids, experts, kinds, kind, n),
    decreases n - m,
{
    if m < n {
        lemma_rows_grow(ids, experts, kinds, kind, m, n - 1);
    }
}

/// How many of the first items are in a list, or are not.
pub open spec fn members(items: Seq<u32>, list: Seq<u32>, inside: bool, n: int) -> nat
    decreases n,
{
    if n <= 0 {
        0
    } else {
        members(items, list, inside, n - 1) + if list.contains(items[n - 1]) == inside {
            1nat
        } else {
            0
        }
    }
}

/// Whether the first prefetch of a record has landed; nothing where there is none.
pub open spec fn first_ticket(tickets: Seq<(usize, bool)>, record: int, from: int) -> Option<bool>
    decreases tickets.len() - from,
{
    if from >= tickets.len() {
        None
    } else if tickets[from].0 == record {
        Some(tickets[from].1)
    } else {
        first_ticket(tickets, record, from + 1)
    }
}

/// How many of the first predicted experts were needed while their prefetch was landed, or
/// was still under way.
pub open spec fn prefetched(
    predicted: Seq<u32>,
    selected: Seq<u32>,
    tickets: Seq<(usize, bool)>,
    base: int,
    landed: bool,
    n: int,
) -> nat
    decreases n,
{
    if n <= 0 {
        0
    } else {
        prefetched(predicted, selected, tickets, base, landed, n - 1) + if selected.contains(predicted[n - 1])
            && first_ticket(tickets, base + predicted[n - 1], 0) == Some(landed) {
            1nat
        } else {
            0
        }
    }
}

/// What a layer's routing adds to its predictions' counters.
pub open spec fn prediction_adds(predicted: Seq<u32>, selected: Seq<u32>, tickets: Seq<(usize, bool)>, base: int) -> PredictionStats {
    let n = predicted.len() as int;
    PredictionStats {
        target_batches: 1,
        selected_unpredicted: members(selected, predicted, false, selected.len() as int) as u64,
        predicted_unused: members(predicted, selected, false, n) as u64,
        predicted_selected: members(predicted, selected, true, n) as u64,
        needed_prefetch_ready: prefetched(predicted, selected, tickets, base, true, n) as u64,
        needed_prefetch_late: prefetched(predicted, selected, tickets, base, false, n) as u64,
        ..PredictionStats::nothing()
    }
}

fn find_ticket(tickets: &[(usize, bool)], record: usize) -> (r: Option<bool>)
    ensures
        r == first_ticket(tickets@, record as int, 0),
{
    let mut i: usize = 0;
    while i < tickets.len()
        invariant
            i <= tickets@.len(),
            first_ticket(tickets@, record as int, 0) == first_ticket(tickets@, record as int, i as int),
        decreases tickets@.len() - i,
    {
        if tickets[i].0 == record {
            return Some(tickets[i].1);
        }
        i = i + 1;
    }
    None
}

/// Compares a prediction with what was selected.
pub fn compare_prediction(predicted: &[u32], selected: &[u32], tickets: &[(usize, bool)], base: usize) -> (r: PredictionStats)
    requires
        forall|i: int| 0 <= i < predicted@.len() ==> base + #[trigger] predicted@[i] <= usize::MAX,
    ensures
        r == prediction_adds(predicted@, selected@, tickets@, base as int),
{
    let mut stats = PredictionStats::default();
    stats.target_batches = 1;
    let mut i: usize = 0;
    while i < selected.len()
        invariant
            i <= selected@.len(),
            stats == (PredictionStats {
                target_batches: 1,
                selected_unpredicted: members(selected@, predicted@, false, i as int) as u64,
                ..PredictionStats::nothing()
            }),
            members(selected@, predicted@, false, i as int) <= i,
        decreases selected@.len() - i,
    {
        if !listed(predicted, selected[i]) {
            stats.selected_unpredicted = stats.selected_unpredicted + 1;
        }
        i = i + 1;
    }
    let mut j: usize = 0;
    while j < predicted.len()
        invariant
            j <= predicted@.len(),
            forall|i: int| 0 <= i < predicted@.len() ==> base + #[trigger] predicted@[i] <= usize::MAX,
            stats == (PredictionStats {
                target_batches: 1,
                selected_unpredicted: members(selected@, predicted@, false, selected@.len() as int) as u64,
                predicted_unused: members(predicted@, selected@, false, j as int) as u64,
                predicted_selected: members(predicted@, selected@, true, j as int) as u64,
                needed_prefetch_ready: prefetched(predicted@, selected@, tickets@, base as int, true, j as int) as u64,
                needed_prefetch_late: prefetched(predicted@, selected@, tickets@, base as int, false, j as int) as u64,
                ..PredictionStats::nothing()
            }),
            members(predicted@, selected@, false, j as int) <= j,
            members(predicted@, selected@, true, j as int) <= j,
            prefetched(predicted@, selected@, tickets@, base as int, true, j as int) <= j,
            prefetched(predicted@, selected@, tickets@, base as int, false, j as int) <= j,
        decreases predicted@.len() - j,
    {
        let expert: u32 = predicted[j];
        if !listed(selected, expert) {
            stats.predicted_unused = stats.predicted_unused + 1;
        } else {
            stats.predicted_selected = stats.predicted_selected + 1;
            assert(base + predicted@[j as int] <= usize::MAX);
            match find_ticket(tickets, base + expert as usize) {
                Some(true) => stats.needed_prefetch_ready = stats.needed_prefetch_ready + 1,
                Some(false) => stats.needed_prefetch_late = stats.needed_prefetch_late + 1,
                None => {},
            }
        }
        j = j + 1;
    }
    stats
}

impl ExpertActivity {
    /// Counts the routed experts of a batch that were missing and weak enough to be cut,
    /// unless nothing is ever cut.
    pub fn record_cut_eligible(
        &mut self,
        layer: usize,
        kinds: &[u8],
        missing: &[bool],
        weights: &[Real32],
        cut: &Real32,
        fake_experts: bool,
    )
        requires
            layer < old(self).layers@.len(),
            missing@.len() == kinds@.len(),
            weights@.len() == kinds@.len(),
            forall|i: int| 0 <= i < kinds@.len() ==> (#[trigger] kinds@[i]) < 3,
            forall|k: int|
                0 <= k < 3 ==> (#[trigger] old(self).layers@[layer as int].quant@[k]).eligible_weak_misses
                    + kinds@.len() <= u64::MAX,
        ensures
            final(self).same_but_layer(layer as int, *old(self)),
            final(self).layers@[layer as int].prediction == old(self).layers@[layer as int].prediction,
            final(self).layers@[layer as int].phases == old(self).layers@[layer as int].phases,
            forall|k: int|
                0 <= k < 3 ==> #[trigger] final(self).layers@[layer as int].quant@[k] == (QuantStats {
                    eligible_weak_misses: (old(self).layers@[layer as int].quant@[k].eligible_weak_misses
                        + if !(Real32 { bits: 0 }).lt(*cut) || fake_experts {
                        0
                    } else {
                        weak_misses(missing@, weights@, kinds@, *cut, k, kinds@.len() as int)
                    }) as u64,
                    ..old(self).layers@[layer as int].quant@[k]
                }),
    {
        let zero = Real32 { bits: 0 };
        if !zero.below(cut) || fake_experts {
            return ;
        }
        let ghost start = self.layers@[layer as int];
        let mut stats: LayerStats = self.layers[layer];
        let mut i: usize = 0;
        while i < kinds.len()
            invariant
                i <= kinds@.len(),
                missing@.len() == kinds@.len(),
                weights@.len() == kinds@.len(),
                forall|i: int| 0 <= i < kinds@.len() ==> (#[trigger] kinds@[i]) < 3,
                forall|k: int|
                    0 <= k < 3 ==> (#[trigger] start.quant@[k]).eligible_weak_misses + kinds@.len() <= u64::MAX,
                stats.prediction == start.prediction,
                stats.phases == start.phases,
                forall|k: int|
                    0 <= k < 3 ==> #[trigger] stats.quant@[k] == (QuantStats {
                        eligible_weak_misses: (start.quant@[k].eligible_weak_misses + weak_misses(
                            missing@,
                            weights@,
                            kinds@,
                            *cut,
                            k,
                            i as int,
                        )) as u64,
                        ..start.quant@[k]
                    }),
            decreases kinds@.len() - i,
        {
            if missing[i] && weights[i].below(cut) {
                let kind: usize = kinds[i] as usize;
                let mut q: QuantStats = stats.quant[kind];
                proof {
                    assert(start.quant@[kind as int].eligible_weak_misses + kinds@.len() <= u64::MAX);
                    lemma_weak_misses_bounded(missing@, weights@, kinds@, *cut, kind as int, i as int);
                }
                q.eligible_weak_misses = q.eligible_weak_misses + 1;
                stats.quant[kind] = q;
            }
            i = i + 1;
        }
        self.layers.set(layer, stats);
    }

    /// Counts the experts and rows that a batch selected, by precision.
    pub fn record_quant_selection(&mut self, layer: usize, kinds: &[u8], ids: &[u32], experts: &[u32])
        requires
            layer < old(self).layers@.len(),
            kinds@.len() == experts@.len(),
            forall|i: int| 0 <= i < kinds@.len() ==> (#[trigger] kinds@[i]) < 3,
            forall|k: int|
                0 <= k < 3 ==> {
                    &&& (#[trigger] old(self).layers@[layer as int].quant@[k]).selected_experts + experts@.len()
                        <= u64::MAX
                    &&& old(self).layers@[layer as int].quant@[k].selected_rows + rows_of_kind(
                        ids@,
                        experts@,
                        kinds@,
                        k,
                        experts@.len() as int,
                    ) <= u64::MAX
                },
        ensures
            final(self).same_but_layer(layer as int, *old(self)),
            final(self).layers@[layer as int].prediction == old(self).layers@[layer as int].prediction,
            final(self).layers@[layer as int].phases == old(self).layers@[layer as int].phases,
            forall|k: int|
                0 <= k < 3 ==> #[trigger] final(self).layers@[layer as int].quant@[k] == (QuantStats {
                    selected_experts: (old(self).layers@[layer as int].quant@[k].selected_experts + of_kind(
                        kinds@,
                        k,
                        kinds@.len() as int,
                    )) as u64,
                    selected_rows: (old(self).layers@[layer as int].quant@[k].selected_rows + rows_of_kind(
                        ids@,
                        experts@,
                        kinds@,
                        k,
                        kinds@.len() as int,
                    )) as u64,
                    ..old(self).layers@[layer as int].quant@[k]
                }),
    {
        let ghost start = self.layers@[layer as int];
        let mut stats: LayerStats = self.layers[layer];
        let mut i: usize = 0;
        while i < kinds.len()
            invariant
                i <= kinds@.len(),
                kinds@.len() == experts@.len(),
                forall|i: int| 0 <= i < kinds@.len() ==> (#[trigger] kinds@[i]) < 3,
                forall|k: int|
                    0 <= k < 3 ==> {
                        &&& (#[trigger] start.quant@[k]).selected_experts + experts@.len() <= u64::MAX
                        &&& start.quant@[k].selected_rows + rows_of_kind(
                            ids@,
                            experts@,
                            kinds@,
                            k,
                            experts@.len() as int,
                        ) <= u64::MAX
                    },
                stats.prediction == start.prediction,
                stats.phases == start.phases,
                forall|k: int|
                    0 <= k < 3 ==> #[trigger] stats.quant@[k] == (QuantStats {
                        selected_experts: (start.quant@[k].selected_experts + of_kind(kinds@, k, i as int)) as u64,
                        selected_rows: (start.quant@[k].selected_rows + rows_of_kind(
                            ids@,
                            experts@,
                            kinds@,
                            k,
                            i as int,
                        )) as u64,
                        ..start.quant@[k]
                    }),
            decreases kinds@.len() - i,
        {
            let kind: usize = kinds[i] as usize;
            let rows: usize = count(ids, experts[i]);
            let mut q: QuantStats = stats.quant[kind];
            proof {
                let k = kind as int;
                assert(start.quant@[k].selected_experts + experts@.len() <= u64::MAX);
                lemma_kind_bounded(kinds@, k, i as int);
                lemma_rows_grow(ids@, experts@, kinds@, k, i + 1, experts@.len() as int);
                lemma_rows_grow(ids@, experts@, kinds@, k, i as int, experts@.len() as int);
            }
            q.selected_experts = q.selected_experts + 1;
            q.selected_rows = q.selected_rows + rows as u64;
            stats.quant[kind] = q;
            i = i + 1;
        }
        self.layers.set(layer, stats);
    }

    /// Compares a layer's prediction with what the layer selected. `tickets` are the
    /// prefetches under way, each record with whether it has landed.
    pub fn record_prediction(&mut self, layer: usize, predicted: &[u32], selected: &[u32], tickets: &[(usize, bool)])
        requires
            layer < old(self).layers@.len(),
            layer * old(self).experts_per_layer <= usize::MAX,
            forall|i: int|
                0 <= i < predicted@.len() ==> layer * old(self).experts_per_layer + #[trigger] predicted@[i]
                    <= usize::MAX,
            old(self).layers@[layer as int].prediction.addable(
                prediction_adds(predicted@, selected@, tickets@, layer * old(self).experts_per_layer),
            ),
        ensures
            final(self).same_but_layer(layer as int, *old(self)),
            final(self).layers@[layer as int] == (LayerStats {
                prediction: old(self).layers@[layer as int].prediction.plus(
                    prediction_adds(predicted@, selected@, tickets@, layer * old(self).experts_per_layer),
                ),
                ..old(self).layers@[layer as int]
            }),
    {
        let base: usize = layer * self.experts_per_layer;
        let adds: PredictionStats = compare_prediction(predicted, selected, tickets, base);
        let mut stats: LayerStats = self.layers[layer];
        stats.prediction.add(adds);
        self.layers.set(layer, stats);
    }

    /// A copy for readers, with the reads that the tracker has counted and the time since
    /// counting began.
    pub fn snapshot(&self, tracker: &ReadTracker, elapsed_ns: u128, timestamps: bool) -> (r: ExpertActivity)
        ensures
            texts(r.layer_prefixes@) == texts(self.layer_prefixes@),
            r.experts_per_layer == self.experts_per_layer,
            r.records@ == self.records@,
            r.elapsed_ns == elapsed_ns,
            r.gpu_timestamps_available == timestamps,
            r.gpu_timing.same_as(self.gpu_timing),
            r.layers@.len() == self.layers@.len(),
            forall|l: int|
                0 <= l < self.layers@.len() ==> {
                    &&& (#[trigger] r.layers@[l]).prediction == self.layers@[l].prediction
                    &&& r.layers@[l].phases == self.layers@[l].phases
                    &&& forall|k: int|
                        0 <= k < 3 ==> #[trigger] r.layers@[l].quant@[k] == if l < tracker.layers@.len() {
                            QuantStats { reads: tracker.layers@[l]@[k], ..self.layers@[l].quant@[k] }
                        } else {
                            self.layers@[l].quant@[k]
                        }
                },
    {
        let mut records: Vec<ExpertCounters> = Vec::new();
        let mut i: usize = 0;
        while i < self.records.len()
            invariant
                i <= self.records@.len(),
                records@ == self.records@.take(i as int),
            decreases self.records@.len() - i,
        {
            records.push(self.records[i]);
            i = i + 1;
            assert(records@ =~= self.records@.take(i as int));
        }
        assert(self.records@.take(i as int) =~= self.records@);
        let mut layers: Vec<LayerStats> = Vec::new();
        let mut l: usize = 0;
        while l < self.layers.len()
            invariant
                l <= self.layers@.len(),
                layers@.len() == l,
                forall|m: int|
                    0 <= m < l ==> {
                        &&& (#[trigger] layers@[m]).prediction == self.layers@[m].prediction
                        &&& layers@[m].phases == self.layers@[m].phases
                        &&& forall|k: int|
                            0 <= k < 3 ==> #[trigger] layers@[m].quant@[k] == if m < tracker.layers@.len() {
                                QuantStats { reads: tracker.layers@[m]@[k], ..self.layers@[m].quant@[k] }
                            } else {
                                self.layers@[m].quant@[k]
                            }
                    },
            decreases self.layers@.len() - l,
        {
            let mut stats: LayerStats = self.layers[l];
            let ghost own = stats;
            if l < tracker.layers.len() {
                let reads: [ReadSources; 3] = tracker.layers[l];
                let mut k: usize = 0;
                while k < 3
                    invariant
                        k <= 3,
                        stats.prediction == own.prediction,
                        stats.phases == own.phases,
                        forall|j: int|
                            0 <= j < k ==> #[trigger] stats.quant@[j] == (QuantStats { reads: reads@[j], ..own.quant@[j] }),
                        forall|j: int| k <= j < 3 ==> #[trigger] stats.quant@[j] == own.quant@[j],
                    decreases 3 - k,
                {
                    let mut q: QuantStats = stats.quant[k];
                    q.reads = reads[k];
                    stats.quant[k] = q;
                    k = k + 1;
                }
            }
            layers.push(stats);
            l = l + 1;
        }
        ExpertActivity {
            layer_prefixes: copy_texts(&self.layer_prefixes),
            experts_per_layer: self.experts_per_layer,
            records,
            layers,
            elapsed_ns,
            gpu_timestamps_available: timestamps,
            gpu_timing: self.gpu_timing.copy(),
        }
    }
}

/// Of a prediction, every expert was either used or not, and each that was used while a
/// prefetch of it was known was either ready or late.
pub proof fn law_predictions_partition(
    predicted: Seq<u32>,
    selected: Seq<u32>,
    tickets: Seq<(usize, bool)>,
    base: int,
    n: int,
)
    requires
        0 <= n <= predicted.len(),
    ensures
        members(predicted, selected, true, n) + members(predicted, selected, false, n) == n,
        prefetched(predicted, selected, tickets, base, true, n) + prefetched(
            predicted,
            selected,
            tickets,
            base,
            false,
            n,
        ) <= members(predicted, selected, true, n),
    decreases n,
{
    if n > 0 {
        law_predictions_partition(predicted, selected, tickets, base, n - 1);
    }
}

/// One lookup is a hit or a miss.
pub proof fn law_lookup_hits_or_misses(rows: usize, resident: bool)
    ensures
        ExpertCounters::of_lookup(rows, resident).cache_hits + ExpertCounters::of_lookup(rows, resident).cache_misses == 1,
{
}

/// A lookup adds its rows and one hit, or one miss, to its own record and to nothing else.
pub proof fn law_lookup_counted(a: &mut ExpertActivity, record: usize, rows: usize, resident: bool, other: int)
    requires
        call_ensures(ExpertActivity::lookup, (a, record, rows, resident), ()),
        record < old(a).records@.len(),
        old(a).records@[record as int].addable(ExpertCounters::of_lookup(rows, resident)),
        0 <= other < old(a).records@.len(),
        other != record,
        rows <= u64::MAX,
    ensures
        ({
            let before = old(a).records@[record as int];
            let after = final(a).records@[record as int];
            &&& after.selected_rows == before.selected_rows + rows
            &&& after.cache_hits == before.cache_hits + (if resident {
                1int
            } else {
                0
            })
            &&& after.cache_misses == before.cache_misses + (if resident {
                0int
            } else {
                1
            })
            &&& after.prefetch_requests == before.prefetch_requests && after.read_requests == before.read_requests
                && after.read_bytes_requested == before.read_bytes_requested
            &&& final(a).records@[other] == old(a).records@[other]
            &&& final(a).layers == old(a).layers
        }),
{
}

/// A read adds one request and its bytes to its own record and to nothing else.
pub proof fn law_read_counted(a: &mut ExpertActivity, record: usize, bytes: usize, other: int)
    requires
        call_ensures(ExpertActivity::read, (a, record, bytes), ()),
        record < old(a).records@.len(),
        old(a).records@[record as int].addable(ExpertCounters::of_read(bytes)),
        0 <= other < old(a).records@.len(),
        other != record,
        bytes <= u64::MAX,
    ensures
        ({
            let before = old(a).records@[record as int];
            let after = final(a).records@[record as int];
            &&& after.read_requests == before.read_requests + 1
            &&& after.read_bytes_requested == before.read_bytes_requested + bytes
            &&& after.selected_rows == before.selected_rows && after.cache_hits == before.cache_hits && after.cache_misses
                == before.cache_misses && after.prefetch_requests == before.prefetch_requests
            &&& final(a).records@[other] == old(a).records@[other]
        }),
{
}

/// Counters are added each to its own.
pub proof fn law_counters_added(a: &mut ExpertCounters, b: ExpertCounters)
    requires
        call_ensures(ExpertCounters::add, (a, b), ()),
        old(a).addable(b),
    ensures
        final(a).selected_rows == old(a).selected_rows + b.selected_rows,
        final(a).cache_hits == old(a).cache_hits + b.cache_hits,
        final(a).cache_misses == old(a).cache_misses + b.cache_misses,
        final(a).prefetch_requests == old(a).prefetch_requests + b.prefetch_requests,
        final(a).read_requests == old(a).read_requests + b.read_requests,
        final(a).read_bytes_requested == old(a).read_bytes_requested + b.read_bytes_requested,
{
}

/// Dimensions are right exactly where every layer has a name and every expert of every layer a record.
pub proof fn law_dimensions(a: ExpertActivity, r: Result<(), ActivityError>)
    requires
        call_ensures(ExpertActivity::validate_dimensions, (&a,), r),
    ensures
        r is Ok <==> a.layer_prefixes@.len() == a.layers@.len() && a.records@.len() == a.layers@.len() * a.experts_per_layer,
        r == Err::<(), ActivityError>(ActivityError::LayerNames) <==> a.layer_prefixes@.len() != a.layers@.len(),
{
}

/// A record lies in the layer whose experts' records it is among.
pub proof fn law_layer_for_record(a: ExpertActivity, record: usize, r: usize)
    requires
        call_ensures(ExpertActivity::layer_for_record, (&a, record), r),
        a.experts_per_layer > 0,
    ensures
        r * a.experts_per_layer <= record < (r + 1) * a.experts_per_layer,
{
    let n = a.experts_per_layer as int;
    let q = record as int / n;
    assert(q * n <= record < (q + 1) * n) by (nonlinear_arith)
        requires
            n > 0,
            q == record as int / n,
    ;
}

/// One prediction more: an expert that the block selected counts as predicted and selected, any other
/// as unused; and one that the block selected without it counts as unpredicted.
pub proof fn law_prediction_compared(
    predicted: &[u32],
    selected: &[u32],
    tickets: &[(usize, bool)],
    base: usize,
    r: PredictionStats,
    more: &[u32],
    expert: u32,
    s: PredictionStats,
)
    requires
        call_ensures(compare_prediction, (predicted, selected, tickets, base), r),
        call_ensures(compare_prediction, (more, selected, tickets, base), s),
        more@ == predicted@.push(expert),
        more@.len() < u64::MAX,
    ensures
        r.target_batches == 1 && s.target_batches == 1,
        selected@.contains(expert) ==> s.predicted_selected == r.predicted_selected + 1 && s.predicted_unused
            == r.predicted_unused,
        !selected@.contains(expert) ==> s.predicted_unused == r.predicted_unused + 1 && s.predicted_selected
            == r.predicted_selected,
        r.predicted_selected + r.predicted_unused == predicted@.len(),
{
    let n = predicted@.len() as int;
    assert(more@[n] == expert);
    lemma_members_prefix(predicted@, more@, selected@, n);
    lemma_members_split(predicted@, selected@, n);
    lemma_members_split(more@, selected@, n + 1);
}

proof fn lemma_members_prefix(a: Seq<u32>, b: Seq<u32>, list: Seq<u32>, n: int)
    requires
        n <= a.len(),
        n <= b.len(),
        forall|i: int| 0 <= i < n ==> #[trigger] a[i] == b[i],
    ensures
        members(a, list, true, n) == members(b, list, true, n),
        members(a, list, false, n) == members(b, list, false, n),
    decreases n,
{
    if n > 0 {
        lemma_members_prefix(a, b, list, n - 1);
        assert(a[n - 1] == b[n - 1]);
    }
}

proof fn lemma_members_split(items: Seq<u32>, list: Seq<u32>, n: int)
    requires
        0 <= n <= items.len(),
    ensures
        members(items, list, true, n) + members(items, list, false, n) == n,
    decreases n,
{
    if n > 0 {
        lemma_members_split(items, list, n - 1);
    }
}

/// How often an identifier is listed: once more where it is listed once more.
pub proof fn law_counted_once_each(ids: Seq<u32>, id: u32, next: u32)
    ensures
        count_of(ids.push(next), id) == count_of(ids, id) + (if next == id {
            1int
        } else {
            0
        }),
        count_of(Seq::empty(), id) == 0,
{
    assert(ids.push(next).drop_last() =~= ids);
}

/// An expert's miss is weak exactly where it misses, its weight is below the cut and it has the
/// precision asked for; each counts once.
pub proof fn law_weak_misses(missing: Seq<bool>, weights: Seq<Real32>, kinds: Seq<u8>, cut: Real32, kind: int, n: int)
    requires
        n >= 0,
    ensures
        weak_misses(missing, weights, kinds, cut, kind, n + 1) == weak_misses(missing, weights, kinds, cut, kind, n) + (
        if missing[n] && !weights[n].nan() && !cut.nan() && weights[n].key() < cut.key() && kinds[n] == kind {
            1int
        } else {
            0
        }),
        weak_misses(missing, weights, kinds, cut, kind, 0) == 0,
{
}

} // verus!
