//! Paged views of copied expert counters.

use super::stats::{ratio, Expert, Layer, Page, Rates, Ratio, Summary};
use crate::qwen4_exp::gpu::activity::layers::{LayerStats, PhaseStats, PredictionStats, QuantStats};
use crate::qwen4_exp::gpu::activity::reads::ReadStats;
use crate::qwen4_exp::gpu::activity::{ExpertActivity, ExpertCounters};
use vstd::prelude::*;
use vstd::string::*;

verus! {

/// The bytes of entries that a page may hold: framing and observation take the rest of a
/// frame.
pub const PAGE_BYTES: usize = 61440;

/// Why a page cannot be had.
#[derive(Debug, Clone, Copy, PartialEq, Eq, Structural)]
pub enum PageError {
    Limit,
    Offset,
    EntryTooLarge,
    UnknownLayer,
}

impl PageError {
    pub open spec fn text(self) -> Seq<char> {
        match self {
            PageError::Limit => "limit must be between 1 and 128"@,
            PageError::Offset => "offset exceeds available entries"@,
            PageError::EntryTooLarge => "one statistics entry exceeds the control frame"@,
            PageError::UnknownLayer => "unknown expert layer"@,
        }
    }

    pub fn message(&self) -> (r: &'static str)
        ensures
            r@ == self.text(),
    {
        match self {
            PageError::Limit => "limit must be between 1 and 128",
            PageError::Offset => "offset exceeds available entries",
            PageError::EntryTooLarge => "one statistics entry exceeds the control frame",
            PageError::UnknownLayer => "unknown expert layer",
        }
    }
}

/// Where a page that begins at an offset ends at most.
pub open spec fn range_end(total: int, offset: int, limit: int) -> int {
    if offset + limit < total {
        offset + limit
    } else {
        total
    }
}

/// The entries that a page may hold.
pub fn range(total: usize, offset: usize, limit: usize) -> (r: Result<(usize, usize), PageError>)
    ensures
        match r {
            Ok((start, end)) => {
                &&& 1 <= limit <= 128
                &&& offset <= total
                &&& start == offset
                &&& end == range_end(total as int, offset as int, limit as int)
            },
            Err(PageError::Limit) => !(1 <= limit <= 128),
            Err(e) => e is Offset && 1 <= limit <= 128 && offset > total,
        },
{
    if limit < 1 || limit > 128 {
        return Err(PageError::Limit);
    }
    if offset > total {
        return Err(PageError::Offset);
    }
    let end: usize = if limit < total - offset {
        offset + limit
    } else {
        total
    };
    Ok((offset, end))
}

/// The bytes of the first entries, each with its comma.
pub open spec fn bytes_of(sizes: Seq<usize>, n: int) -> int
    decreases n,
{
    if n <= 0 {
        0
    } else {
        bytes_of(sizes, n - 1) + sizes[n - 1] + 1
    }
}

/// Whether a page takes the first entries: they fit, and one more would not.
pub open spec fn fits(sizes: Seq<usize>, n: int) -> bool {
    &&& 0 <= n <= sizes.len()
    &&& bytes_of(sizes, n) <= PAGE_BYTES
    &&& n < sizes.len() ==> bytes_of(sizes, n + 1) > PAGE_BYTES
}

/// What a page of entries is: as many of the first as fit, or an error where not even one does.
pub open spec fn paged<T>(total: usize, start: usize, data: Seq<T>, sizes: Seq<usize>, r: Result<Page<T>, PageError>) -> bool {
    match r {
        Ok(p) => {
            &&& fits(sizes, p.data@.len() as int)
            &&& data.len() > 0 ==> p.data@.len() > 0
            &&& p.data@ == data.take(p.data@.len() as int)
            &&& p.offset == start
            &&& p.total == total
            &&& p.next_offset == if start + p.data@.len() < total {
                Some((start + p.data@.len()) as usize)
            } else {
                None
            }
        },
        Err(e) => e is EntryTooLarge && data.len() > 0 && fits(sizes, 0),
    }
}

/// A page of the entries from `start` on, given the bytes of each as it will be written.
pub fn page<T>(total: usize, start: usize, data: Vec<T>, sizes: &[usize]) -> (r: Result<Page<T>, PageError>)
    requires
        start + data@.len() <= total,
        sizes@.len() == data@.len(),
    ensures
        paged(total, start, data@, sizes@, r),
{
    let mut n: usize = 0;
    let mut bytes: usize = 0;
    while n < sizes.len() && sizes[n] < PAGE_BYTES - bytes
        invariant
            n <= sizes@.len(),
            bytes <= PAGE_BYTES,
            bytes == bytes_of(sizes@, n as int),
        decreases sizes@.len() - n,
    {
        bytes = bytes + sizes[n] + 1;
        n = n + 1;
    }
    if data.len() > 0 && n == 0 {
        return Err(PageError::EntryTooLarge);
    }
    let mut bounded: Vec<T> = data;
    bounded.truncate(n);
    assert(bounded@ =~= data@.take(n as int));
    let end: usize = start + n;
    Ok(
        Page {
            offset: start,
            next_offset: if end < total {
                Some(end)
            } else {
                None
            },
            total,
            data: bounded,
        },
    )
}

/// Whether a page shows entries of a list: those from its offset on, as many as it holds,
/// and where the next page begins.
pub open spec fn shows<T>(p: Page<T>, entries: Seq<T>) -> bool {
    &&& p.total == entries.len()
    &&& p.offset + p.data@.len() <= entries.len()
    &&& p.data@ == entries.subrange(p.offset as int, p.offset + p.data@.len())
    &&& p.offset < entries.len() ==> p.data@.len() > 0
    &&& p.next_offset == if p.offset + p.data@.len() < entries.len() {
        Some((p.offset + p.data@.len()) as usize)
    } else {
        None
    }
}

/// What pages hold, one behind the other.
pub open spec fn all_data<T>(pages: Seq<Page<T>>) -> Seq<T>
    decreases pages.len(),
{
    if pages.len() == 0 {
        Seq::empty()
    } else {
        all_data(pages.drop_last()) + pages.last().data@
    }
}

/// Pages read from the first one on, each where the one before it says, show the list from
/// its beginning, each entry once and in order; the last one shows the list's end.
pub proof fn law_pages_cover<T>(entries: Seq<T>, pages: Seq<Page<T>>)
    requires
        pages.len() > 0,
        entries.len() <= usize::MAX,
        pages[0].offset == 0,
        forall|i: int| 0 <= i < pages.len() ==> shows(#[trigger] pages[i], entries),
        forall|i: int|
            0 <= i < pages.len() - 1 ==> (#[trigger] pages[i]).next_offset == Some(pages[i + 1].offset),
    ensures
        all_data(pages) == entries.take(pages.last().offset + pages.last().data@.len()),
        pages.last().next_offset is None ==> all_data(pages) == entries,
    decreases pages.len(),
{
    let last = pages.last();
    assert(shows(pages[pages.len() - 1], entries));
    if pages.len() == 1 {
        assert(all_data(pages.drop_last()) =~= Seq::<T>::empty());
        assert(all_data(pages) =~= entries.take(last.data@.len() as int));
    } else {
        let shorter = pages.drop_last();
        assert forall|i: int| 0 <= i < shorter.len() implies shows(#[trigger] shorter[i], entries) by {
            assert(shows(pages[i], entries));
        }
        assert forall|i: int| 0 <= i < shorter.len() - 1 implies (#[trigger] shorter[i]).next_offset == Some(
            shorter[i + 1].offset,
        ) by {
            assert(pages[i].next_offset == Some(pages[i + 1].offset));
        }
        law_pages_cover(entries, shorter);
        let previous = pages[pages.len() - 2];
        assert(previous.next_offset == Some(pages[pages.len() - 1].offset));
        assert(shows(previous, entries));
        assert(all_data(pages) =~= entries.take(last.offset + last.data@.len()));
    }
    if last.next_offset is None {
        assert(entries.take(entries.len() as int) =~= entries);
    }
}

/// A layer's experts together.
pub open spec fn layer_sum(records: Seq<ExpertCounters>, start: int, n: int) -> ExpertCounters
    decreases n,
{
    if n <= 0 {
        ExpertCounters::nothing()
    } else {
        layer_sum(records, start, n - 1).plus(records[start + n - 1])
    }
}

/// Whether the sums over a layer's first experts can be held.
pub open spec fn layer_sum_fits(records: Seq<ExpertCounters>, start: int, n: int) -> bool
    decreases n,
{
    n <= 0 || (layer_sum_fits(records, start, n - 1) && layer_sum(records, start, n - 1).addable(
        records[start + n - 1],
    ))
}

proof fn lemma_layer_sum_prefix(records: Seq<ExpertCounters>, start: int, m: int, n: int)
    requires
        layer_sum_fits(records, start, n),
        0 <= m <= n,
    ensures
        layer_sum_fits(records, start, m),
    decreases n - m,
{
    if m < n {
        lemma_layer_sum_prefix(records, start, m, n - 1);
    }
}

/// Whether an entry shows a layer.
pub open spec fn shows_layer(activity: ExpertActivity, layer: int, entry: Layer) -> bool {
    &&& entry.layer == layer
    &&& entry.name@ == activity.layer_prefixes@[layer]@
    &&& entry.experts == activity.experts_per_layer
    &&& entry.counters == layer_sum(
        activity.records@,
        layer * activity.experts_per_layer,
        activity.experts_per_layer as int,
    )
    &&& entry.streaming == activity.layers@[layer]
}

/// Whether every layer's sums can be held.
pub open spec fn layers_fit(activity: ExpertActivity) -> bool {
    forall|layer: int|
        0 <= layer < activity.layers@.len() ==> #[trigger] layer_sum_fits(
            activity.records@,
            layer * activity.experts_per_layer,
            activity.experts_per_layer as int,
        )
}

/// Where a layer's records end.
proof fn lemma_layer_in_records(activity: ExpertActivity, layer: int)
    requires
        activity.fault() is None,
        0 <= layer < activity.layers@.len(),
    ensures
        0 <= layer * activity.experts_per_layer,
        layer * activity.experts_per_layer + activity.experts_per_layer <= activity.records@.len(),
{
    let e = activity.experts_per_layer as int;
    let n = activity.layers@.len() as int;
    assert(0 <= layer * e && layer * e + e <= n * e) by (nonlinear_arith)
        requires
            0 <= layer < n,
            e >= 0,
    ;
}

fn layer_entry(activity: &ExpertActivity, layer: usize) -> (r: Layer)
    requires
        activity.fault() is None,
        layer < activity.layers@.len(),
        layers_fit(*activity),
    ensures
        shows_layer(*activity, layer as int, r),
{
    proof {
        lemma_layer_in_records(*activity, layer as int);
    }
    let experts: usize = activity.experts_per_layer;
    let records: usize = activity.records.len();
    let start: usize = layer * experts;
    let mut counters = ExpertCounters::default();
    let mut i: usize = 0;
    assert(layer_sum_fits(activity.records@, layer * activity.experts_per_layer, experts as int));
    while i < experts
        invariant
            i <= experts,
            experts == activity.experts_per_layer,
            start + experts <= activity.records@.len(),
            activity.records@.len() == records,
            layer_sum_fits(activity.records@, start as int, experts as int),
            counters == layer_sum(activity.records@, start as int, i as int),
        decreases experts - i,
    {
        proof {
            lemma_layer_sum_prefix(activity.records@, start as int, i + 1, experts as int);
        }
        counters.add(activity.records[start + i]);
        i = i + 1;
    }
    Layer {
        layer,
        name: activity.layer_prefixes[layer].clone(),
        experts,
        counters,
        streaming: activity.layers[layer],
    }
}

/// What the layers from an offset on are, at most so many.
pub open spec fn listed(activity: ExpertActivity, offset: usize, limit: usize, r: Result<Vec<Layer>, PageError>) -> bool {
    let total = activity.layers@.len() as int;
    match r {
        Ok(data) => {
            &&& 1 <= limit <= 128
            &&& offset <= total
            &&& data@.len() == range_end(total, offset as int, limit as int) - offset
            &&& forall|i: int| 0 <= i < data@.len() ==> shows_layer(activity, offset + i, #[trigger] data@[i])
        },
        Err(PageError::Limit) => !(1 <= limit <= 128),
        Err(e) => e is Offset && 1 <= limit <= 128 && offset > total,
    }
}

/// The layers from an offset on, before they are bounded by their bytes.
pub fn layers(activity: &ExpertActivity, offset: usize, limit: usize) -> (r: Result<Vec<Layer>, PageError>)
    requires
        activity.fault() is None,
        layers_fit(*activity),
    ensures
        listed(*activity, offset, limit, r),
{
    let (start, end) = match range(activity.layers.len(), offset, limit) {
        Ok(r) => r,
        Err(e) => return Err(e),
    };
    let mut data: Vec<Layer> = Vec::new();
    let mut layer: usize = start;
    while layer < end
        invariant
            start <= layer <= end <= activity.layers@.len(),
            activity.fault() is None,
            layers_fit(*activity),
            data@.len() == layer - start,
            forall|i: int| 0 <= i < data@.len() ==> shows_layer(*activity, start + i, #[trigger] data@[i]),
        decreases end - layer,
    {
        data.push(layer_entry(activity, layer));
        layer = layer + 1;
    }
    Ok(data)
}

/// Whether a page is one of the layers from its offset on.
pub open spec fn layer_page(activity: ExpertActivity, limit: usize, p: Page<Layer>) -> bool {
    exists|data: Vec<Layer>, sizes: Seq<usize>| {
        &&& sizes.len() == data@.len()
        &&& #[trigger] listed(activity, p.offset, limit, Ok(data))
        &&& #[trigger] paged(activity.layers@.len() as usize, p.offset, data@, sizes, Ok(p))
    }
}

proof fn lemma_layer_page(activity: ExpertActivity, limit: usize, p: Page<Layer>)
    requires
        layer_page(activity, limit, p),
        activity.layers@.len() <= usize::MAX,
    ensures
        p.offset + p.data@.len() <= activity.layers@.len(),
        p.next_offset == if p.offset + p.data@.len() < activity.layers@.len() {
            Some((p.offset + p.data@.len()) as usize)
        } else {
            None
        },
        forall|i: int| 0 <= i < p.data@.len() ==> shows_layer(activity, p.offset + i, #[trigger] p.data@[i]),
{
    let (data, sizes) = choose|data: Vec<Layer>, sizes: Seq<usize>| {
        &&& sizes.len() == data@.len()
        &&& #[trigger] listed(activity, p.offset, limit, Ok(data))
        &&& #[trigger] paged(activity.layers@.len() as usize, p.offset, data@, sizes, Ok(p))
    };
    assert forall|i: int| 0 <= i < p.data@.len() implies shows_layer(activity, p.offset + i, #[trigger] p.data@[i]) by {
        assert(p.data@[i] == data@[i]);
    }
}

/// Layers read page after page, each from where the one before it says, list every layer from
/// the first on, once and in order, each under its name and with the sums of its records; where
/// no page follows, all layers are listed.
pub proof fn law_layer_pages_cover(activity: ExpertActivity, limit: usize, pages: Seq<Page<Layer>>)
    requires
        pages.len() > 0,
        activity.layers@.len() <= usize::MAX,
        pages[0].offset == 0,
        forall|i: int| 0 <= i < pages.len() ==> layer_page(activity, limit, #[trigger] pages[i]),
        forall|i: int|
            0 <= i < pages.len() - 1 ==> (#[trigger] pages[i]).next_offset == Some(pages[i + 1].offset),
    ensures
        all_data(pages).len() == pages.last().offset + pages.last().data@.len(),
        forall|k: int| 0 <= k < all_data(pages).len() ==> shows_layer(activity, k, #[trigger] all_data(pages)[k]),
        pages.last().next_offset is None ==> all_data(pages).len() == activity.layers@.len(),
    decreases pages.len(),
{
    let n = pages.len() - 1;
    let last = pages[n];
    let shorter = pages.drop_last();
    let before = all_data(shorter);
    lemma_layer_page(activity, limit, last);
    if n > 0 {
        assert forall|i: int| 0 <= i < shorter.len() implies layer_page(activity, limit, #[trigger] shorter[i]) by {
            assert(shorter[i] == pages[i]);
        }
        assert forall|i: int| 0 <= i < shorter.len() - 1 implies (#[trigger] shorter[i]).next_offset == Some(
            shorter[i + 1].offset,
        ) by {
            assert(pages[i].next_offset == Some(pages[i + 1].offset));
        }
        law_layer_pages_cover(activity, limit, shorter);
        assert(pages[n - 1].next_offset == Some(pages[n - 1 + 1].offset));
        lemma_layer_page(activity, limit, pages[n - 1]);
    } else {
        assert(before =~= Seq::<Layer>::empty());
    }
    assert forall|k: int| 0 <= k < all_data(pages).len() implies shows_layer(
        activity,
        k,
        #[trigger] all_data(pages)[k],
    ) by {
        if k < before.len() {
            assert(all_data(pages)[k] == before[k]);
        } else {
            let i = k - before.len();
            assert(all_data(pages)[k] == last.data@[i]);
            assert(shows_layer(activity, last.offset + i, last.data@[i]));
        }
    }
}

/// The experts of a layer from an offset on, before they are bounded by their bytes.
pub fn experts(activity: &ExpertActivity, layer: usize, offset: usize, limit: usize) -> (r: Result<Vec<Expert>, PageError>)
    requires
        activity.fault() is None,
    ensures
        ({
            let total = activity.experts_per_layer as int;
            match r {
                Ok(data) => {
                    &&& layer < activity.layers@.len()
                    &&& 1 <= limit <= 128
                    &&& offset <= total
                    &&& data@ == Seq::new(
                        (range_end(total, offset as int, limit as int) - offset) as nat,
                        |i: int|
                            Expert {
                                layer,
                                expert: (offset + i) as usize,
                                counters: activity.records@[layer * activity.experts_per_layer + offset + i],
                            },
                    )
                },
                Err(PageError::UnknownLayer) => layer >= activity.layers@.len(),
                Err(PageError::Limit) => layer < activity.layers@.len() && !(1 <= limit <= 128),
                Err(e) => e is Offset && layer < activity.layers@.len() && 1 <= limit <= 128 && offset > total,
            }
        }),
{
    if layer >= activity.layers.len() {
        return Err(PageError::UnknownLayer);
    }
    let total: usize = activity.experts_per_layer;
    let (start, end) = match range(total, offset, limit) {
        Ok(r) => r,
        Err(e) => return Err(e),
    };
    proof {
        lemma_layer_in_records(*activity, layer as int);
    }
    let records: usize = activity.records.len();
    let base: usize = layer * total;
    let mut data: Vec<Expert> = Vec::new();
    let mut expert: usize = start;
    let ghost wanted = |i: int|
        Expert {
            layer,
            expert: (offset + i) as usize,
            counters: activity.records@[layer * activity.experts_per_layer + offset + i],
        };
    while expert < end
        invariant
            start == offset,
            start <= expert <= end <= total,
            total == activity.experts_per_layer,
            base == layer * activity.experts_per_layer,
            base + total <= activity.records@.len(),
            activity.records@.len() == records,
            wanted == (|i: int|
                Expert {
                    layer,
                    expert: (offset + i) as usize,
                    counters: activity.records@[layer * activity.experts_per_layer + offset + i],
                }),
            data@ == Seq::new((expert - start) as nat, wanted),
        decreases end - expert,
    {
        data.push(Expert { layer, expert, counters: activity.records[base + expert] });
        expert = expert + 1;
        assert(data@ =~= Seq::new((expert - start) as nat, wanted));
    }
    Ok(data)
}

/// The predictions of the first layers together.
pub open spec fn predictions(layers: Seq<LayerStats>, n: int) -> PredictionStats
    decreases n,
{
    if n <= 0 {
        PredictionStats::nothing()
    } else {
        predictions(layers, n - 1).plus(layers[n - 1].prediction)
    }
}

/// The phases of the first layers together.
pub open spec fn phases(layers: Seq<LayerStats>, n: int) -> PhaseStats
    decreases n,
{
    if n <= 0 {
        PhaseStats::nothing()
    } else {
        phases(layers, n - 1).plus(layers[n - 1].phases)
    }
}

/// One precision's work in the first layers together.
pub open spec fn quants(layers: Seq<LayerStats>, k: int, n: int) -> QuantStats
    decreases n,
{
    if n <= 0 {
        QuantStats::nothing((4 - k) as u8)
    } else {
        quants(layers, k, n - 1).plus(layers[n - 1].quant@[k])
    }
}

/// Whether one more layer can be added to the first ones.
pub open spec fn layer_adds(layers: Seq<LayerStats>, n: int) -> bool {
    &&& predictions(layers, n).addable(layers[n].prediction)
    &&& phases(layers, n).addable(layers[n].phases)
    &&& forall|k: int| 0 <= k < 3 ==> #[trigger] quants(layers, k, n).addable(layers[n].quant@[k])
}

/// All reads of the layers together.
pub open spec fn total_reads(layers: Seq<LayerStats>) -> ReadStats {
    let n = layers.len() as int;
    quants(layers, 0, n).reads.sum().plus(quants(layers, 1, n).reads.sum()).plus(quants(layers, 2, n).reads.sum())
}

/// Whether all sums of a summary can be held.
pub open spec fn summable(layers: Seq<LayerStats>) -> bool {
    let n = layers.len() as int;
    &&& forall|i: int| 0 <= i < n ==> #[trigger] layer_adds(layers, i)
    &&& forall|k: int| 0 <= k < 3 ==> #[trigger] quants(layers, k, n).reads.totals_fit()
    &&& quants(layers, 0, n).reads.sum().addable(quants(layers, 1, n).reads.sum())
    &&& quants(layers, 0, n).reads.sum().plus(quants(layers, 1, n).reads.sum()).addable(
        quants(layers, 2, n).reads.sum(),
    )
    &&& gaps(phases(layers, n)) + stages(phases(layers, n)) <= u128::MAX
}

/// A share of a whole, where there is one.
pub open spec fn share(part: int, whole: int) -> Option<Ratio> {
    if whole > 0 {
        Some(Ratio { numerator: part as u128, denominator: whole as u128 })
    } else {
        None
    }
}

/// The time between stages.
pub open spec fn gaps(p: PhaseStats) -> int {
    p.router_to_resident_ns + p.resident_to_fetched_ns
}

/// The time of stages.
pub open spec fn stages(p: PhaseStats) -> int {
    p.resident_ns + p.fetched_stage_ns
}

/// All layers together.
pub fn summary(activity: &ExpertActivity) -> (r: Summary)
    requires
        summable(activity.layers@),
    ensures
        ({
            let layers = activity.layers@;
            let n = layers.len() as int;
            let p = phases(layers, n);
            &&& r.streaming.prediction == predictions(layers, n)
            &&& r.streaming.phases == p
            &&& r.streaming.quant@ == seq![quants(layers, 0, n), quants(layers, 1, n), quants(layers, 2, n)]
            &&& r.reads == total_reads(layers)
            &&& r.rates.bytes_per_ns == share(r.reads.completed_bytes as int, activity.elapsed_ns as int)
            &&& r.rates.reads_per_ns == share(r.reads.completed_reads as int, activity.elapsed_ns as int)
            &&& r.rates.gpu_handoff_gap_fraction == share(gaps(p), gaps(p) + stages(p))
            &&& r.rates.gpu_stage_fraction == share(stages(p), gaps(p) + stages(p))
        }),
{
    let ghost layers = activity.layers@;
    let mut total = LayerStats::default();
    let mut i: usize = 0;
    while i < activity.layers.len()
        invariant
            i <= layers.len(),
            layers == activity.layers@,
            summable(layers),
            total.prediction == predictions(layers, i as int),
            total.phases == phases(layers, i as int),
            total.quant@[0] == quants(layers, 0, i as int),
            total.quant@[1] == quants(layers, 1, i as int),
            total.quant@[2] == quants(layers, 2, i as int),
        decreases layers.len() - i,
    {
        proof {
            assert(layer_adds(layers, i as int));
            assert(quants(layers, 0, i as int).addable(layers[i as int].quant@[0]));
            assert(quants(layers, 1, i as int).addable(layers[i as int].quant@[1]));
            assert(quants(layers, 2, i as int).addable(layers[i as int].quant@[2]));
        }
        let ghost before = total;
        total.add(&activity.layers[i]);
        proof {
            assert(total.quant@[0] == before.quant@[0].plus(layers[i as int].quant@[0]));
            assert(total.quant@[1] == before.quant@[1].plus(layers[i as int].quant@[1]));
            assert(total.quant@[2] == before.quant@[2].plus(layers[i as int].quant@[2]));
        }
        i = i + 1;
    }
    assert(total.quant@ =~= seq![
        quants(layers, 0, i as int),
        quants(layers, 1, i as int),
        quants(layers, 2, i as int),
    ]);
    assert(total.reads_fit()) by {
        assert(quants(layers, 0, i as int).reads.totals_fit());
        assert(quants(layers, 1, i as int).reads.totals_fit());
        assert(quants(layers, 2, i as int).reads.totals_fit());
    }
    let reads: ReadStats = total.reads();
    let gap: u128 = total.phases.router_to_resident_ns + total.phases.resident_to_fetched_ns;
    let stage: u128 = total.phases.resident_ns + total.phases.fetched_stage_ns;
    Summary {
        streaming: total,
        reads,
        rates: Rates {
            bytes_per_ns: ratio(reads.completed_bytes as u128, activity.elapsed_ns),
            reads_per_ns: ratio(reads.completed_reads as u128, activity.elapsed_ns),
            gpu_handoff_gap_fraction: ratio(gap, gap + stage),
            gpu_stage_fraction: ratio(stage, gap + stage),
        },
    }
}

/// A page has one to 128 entries at most, and starts at the end at the latest; it goes from its offset
/// as far as its limit, or to the end.
pub proof fn law_range(total: usize, offset: usize, limit: usize, r: Result<(usize, usize), PageError>)
    requires
        call_ensures(range, (total, offset, limit), r),
    ensures
        r is Ok <==> 1 <= limit <= 128 && offset <= total,
        limit == 0 || limit > 128 ==> r == Err::<(usize, usize), PageError>(PageError::Limit),
        1 <= limit <= 128 && offset > total ==> r == Err::<(usize, usize), PageError>(PageError::Offset),
        r matches Ok((start, end)) ==> {
            &&& start == offset && start <= end <= total && end - start <= limit
            &&& end == total || end - start == limit
        },
{
}

/// A page holds its first entries, in order, as many as fit 61440 bytes with a byte between them; one
/// more would not fit. It is refused exactly where the first alone does not. The next page starts
/// behind it, where there is more.
pub proof fn law_page<T>(total: usize, start: usize, data: Vec<T>, sizes: &[usize], r: Result<Page<T>, PageError>)
    requires
        call_ensures(page::<T>, (total, start, data, sizes), r),
        start + data@.len() <= total,
        sizes@.len() == data@.len(),
    ensures
        r is Err <==> data@.len() > 0 && sizes@[0] + 1 > 61440,
        r matches Err(e) ==> e is EntryTooLarge,
        r matches Ok(p) ==> {
            let n = p.data@.len() as int;
            &&& n <= data@.len() && p.data@ == data@.take(n)
            &&& p.offset == start && p.total == total
            &&& bytes_of(sizes@, n) <= 61440
            &&& n < data@.len() ==> bytes_of(sizes@, n) + sizes@[n] + 1 > 61440
            &&& start + n < total ==> p.next_offset == Some((start + n) as usize)
            &&& start + n == total ==> p.next_offset is None
        },
{
    reveal_with_fuel(bytes_of, 2);
    if r is Ok && data@.len() > 0 {
        lemma_bytes_grow(sizes@, 1, r->Ok_0.data@.len() as int);
    }
}

proof fn lemma_bytes_grow(sizes: Seq<usize>, m: int, n: int)
    requires
        0 <= m <= n,
    ensures
        bytes_of(sizes, m) <= bytes_of(sizes, n),
    decreases n,
{
    if m < n {
        lemma_bytes_grow(sizes, m, n - 1);
    }
}

/// An expert's entry tells its layer, its number and its own record's counters.
pub proof fn law_experts_listed(
    activity: ExpertActivity,
    layer: usize,
    offset: usize,
    limit: usize,
    r: Result<Vec<Expert>, PageError>,
    i: int,
)
    requires
        call_ensures(experts, (&activity, layer, offset, limit), r),
        activity.fault() is None,
        r matches Ok(data) ==> 0 <= i < data@.len(),
    ensures
        layer >= activity.layers@.len() <==> r matches Err(PageError::UnknownLayer),
        r matches Ok(data) ==> {
            let e = data@[i];
            &&& e.layer == layer
            &&& e.expert == offset + i
            &&& e.counters == activity.records@[layer * activity.experts_per_layer + offset + i]
            &&& data@.len() <= limit && offset + data@.len() <= activity.experts_per_layer
            &&& data@.len() == limit || offset + data@.len() == activity.experts_per_layer
        },
{
}

/// A layer's entry tells its number and name, and each counter's sum over its own experts.
pub proof fn law_layers_listed(activity: ExpertActivity, offset: usize, limit: usize, r: Result<Vec<Layer>, PageError>, i: int)
    requires
        call_ensures(layers, (&activity, offset, limit), r),
        activity.fault() is None,
        layers_fit(activity),
        r matches Ok(data) ==> 0 <= i < data@.len(),
    ensures
        r matches Ok(data) ==> {
            let e = data@[i];
            let first = (offset + i) * activity.experts_per_layer;
            &&& e.layer == offset + i
            &&& e.name@ == activity.layer_prefixes@[offset + i]@
            &&& e.streaming == activity.layers@[offset + i]
            &&& e.counters.cache_hits == hits_from(activity.records@, first, activity.experts_per_layer as int)
            &&& e.counters.cache_misses == misses_from(activity.records@, first, activity.experts_per_layer as int)
        },
{
    if r is Ok {
        let data = r->Ok_0;
        assert(shows_layer(activity, offset + i, data@[i]));
        assert(layer_sum_fits(
            activity.records@,
            (offset + i) * activity.experts_per_layer,
            activity.experts_per_layer as int,
        ));
        lemma_sum_parts(activity.records@, (offset + i) * activity.experts_per_layer, activity.experts_per_layer as int);
    }
}

/// The cache hits of so many records from one on.
pub open spec fn hits_from(records: Seq<ExpertCounters>, first: int, n: int) -> int
    decreases n,
{
    if n <= 0 {
        0
    } else {
        hits_from(records, first, n - 1) + records[first + n - 1].cache_hits
    }
}

/// The cache misses of so many records from one on.
pub open spec fn misses_from(records: Seq<ExpertCounters>, first: int, n: int) -> int
    decreases n,
{
    if n <= 0 {
        0
    } else {
        misses_from(records, first, n - 1) + records[first + n - 1].cache_misses
    }
}

proof fn lemma_sum_parts(records: Seq<ExpertCounters>, first: int, n: int)
    requires
        layer_sum_fits(records, first, n),
    ensures
        layer_sum(records, first, n).cache_hits == hits_from(records, first, n),
        layer_sum(records, first, n).cache_misses == misses_from(records, first, n),
    decreases n,
{
    if n > 0 {
        lemma_sum_parts(records, first, n - 1);
    }
}

/// A summary's rates are what was read over the time that passed, and the gaps between the stages and
/// the stages themselves over both together; there is none where there is nothing to divide by.
pub proof fn law_summary_rates(activity: ExpertActivity, r: Summary)
    requires
        call_ensures(summary, (&activity,), r),
        summable(activity.layers@),
    ensures
        ({
            let p = r.streaming.phases;
            let gap = p.router_to_resident_ns + p.resident_to_fetched_ns;
            let stage = p.resident_ns + p.fetched_stage_ns;
            &&& activity.elapsed_ns == 0 ==> r.rates.bytes_per_ns is None && r.rates.reads_per_ns is None
            &&& activity.elapsed_ns > 0 ==> r.rates.bytes_per_ns is Some && r.rates.bytes_per_ns->0.numerator
                == r.reads.completed_bytes && r.rates.bytes_per_ns->0.denominator == activity.elapsed_ns
            &&& activity.elapsed_ns > 0 ==> r.rates.reads_per_ns is Some && r.rates.reads_per_ns->0.numerator
                == r.reads.completed_reads && r.rates.reads_per_ns->0.denominator == activity.elapsed_ns
            &&& gap + stage == 0 ==> r.rates.gpu_handoff_gap_fraction is None && r.rates.gpu_stage_fraction is None
            &&& gap + stage > 0 ==> r.rates.gpu_handoff_gap_fraction is Some && r.rates.gpu_handoff_gap_fraction->0.numerator
                == gap && r.rates.gpu_handoff_gap_fraction->0.denominator == gap + stage
            &&& gap + stage > 0 ==> r.rates.gpu_stage_fraction is Some && r.rates.gpu_stage_fraction->0.numerator == stage
                && r.rates.gpu_stage_fraction->0.denominator == gap + stage
        }),
{
    let p = phases(activity.layers@, activity.layers@.len() as int);
    assert(gaps(p) + stages(p) <= u128::MAX);
}

} // verus!
