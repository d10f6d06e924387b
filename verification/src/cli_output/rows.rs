//! The values of a report, as names and texts.

use super::report;
use crate::control::stats::{Expert, Layer, Observation, Rates, Ratio};
use crate::qwen4_exp::gpu::activity::layers::{PhaseStats, PredictionStats, QuantStats};
use crate::qwen4_exp::gpu::activity::reads::ReadStats;
use crate::qwen4_exp::gpu::phases::GpuTiming;
use crate::qwen4_exp::gpu::prefill::stats::PrefillStats;
use crate::text;
use crate::text::{chars_of, decimal, fixed, from_chars};
use vstd::prelude::*;
use vstd::string::*;

verus! {

/// What names and values hold.
pub open spec fn pairs(list: Seq<(String, String)>) -> Seq<(Seq<char>, Seq<char>)> {
    report::pairs(list)
}

/// Whether a time is short enough to be written out.
pub open spec fn writable(ns: u128) -> bool {
    ns * 1000 <= u128::MAX
}

/// Nanoseconds as seconds.
pub open spec fn seconds_text(ns: u128) -> Seq<char> {
    text::fixed_text(ns as nat, 1_000_000_000, 3)
}

fn seconds(ns: u128) -> (r: String)
    requires
        writable(ns),
    ensures
        r@ == seconds_text(ns),
{
    fixed(ns, 1_000_000_000, true)
}

/// A rate times a factor, or that there is none.
pub open spec fn rate_text(rate: Option<Ratio>, factor: nat) -> Seq<char> {
    match rate {
        Some(r) => text::fixed_text(r.numerator as nat * factor, r.denominator as nat, 3),
        None => "n/a"@,
    }
}

/// Whether a rate can be written out.
pub open spec fn writable_rate(rate: Option<Ratio>, factor: nat) -> bool {
    match rate {
        Some(r) => r.denominator > 0 && r.numerator as nat * factor * 1000 <= u128::MAX,
        None => true,
    }
}

fn rate(given: Option<Ratio>, factor: u128) -> (r: String)
    requires
        writable_rate(given, factor as nat),
    ensures
        r@ == rate_text(given, factor as nat),
{
    match given {
        Some(x) => fixed(x.numerator * factor, x.denominator, true),
        None => "n/a".to_owned(),
    }
}

/// A character that cannot make a table's cell or a terminal's command.
pub open spec fn plain(c: char) -> char {
    if c == '|' || c == '\\' || c == '`' || c == '*' || c == '<' || c == '>' || text::is_control(c) {
        ' '
    } else {
        c
    }
}

/// A text from outside, as a report shows it.
pub open spec fn plain_text(value: Seq<char>) -> Seq<char> {
    value.map_values(|c: char| plain(c))
}

/// Keeps names from outside from making table cells or terminal commands.
pub fn plain_cell(value: &str) -> (r: String)
    ensures
        r@ == plain_text(value@),
{
    let chars = chars_of(value);
    let mut out: Vec<char> = Vec::new();
    let mut i: usize = 0;
    while i < chars.len()
        invariant
            i <= chars@.len(),
            out@ =~= plain_text(chars@.take(i as int)),
        decreases chars@.len() - i,
    {
        let c: char = chars[i];
        let bad: bool = c == '|' || c == '\\' || c == '`' || c == '*' || c == '<' || c == '>' || c <= '\u{1f}' || (
        '\u{7f}' <= c && c <= '\u{9f}');
        out.push(
            if bad {
                ' '
            } else {
                c
            },
        );
        i = i + 1;
    }
    assert(chars@.take(i as int) =~= chars@);
    from_chars(out.as_slice())
}

/// What shows of whether the device's passes are timed.
pub open spec fn timing_text(timing: GpuTiming) -> Seq<char> {
    match timing {
        GpuTiming::NotInitialized => "not initialized"@,
        GpuTiming::Available => "available"@,
        GpuTiming::Unsupported => "unsupported"@,
        GpuTiming::Disabled { reason } => "disabled: "@ + plain_text(reason@),
        GpuTiming::Failed { error } => "failed: "@ + plain_text(error@),
    }
}

pub fn timing_status(timing: &GpuTiming) -> (r: String)
    ensures
        r@ == timing_text(*timing),
{
    match timing {
        GpuTiming::NotInitialized => "not initialized".to_owned(),
        GpuTiming::Available => "available".to_owned(),
        GpuTiming::Unsupported => "unsupported".to_owned(),
        GpuTiming::Disabled { reason } => {
            let mut out: String = "disabled: ".to_owned();
            out.append(plain_cell(reason.as_str()).as_str());
            out
        },
        GpuTiming::Failed { error } => {
            let mut out: String = "failed: ".to_owned();
            out.append(plain_cell(error.as_str()).as_str());
            out
        },
    }
}

/// A flag.
pub open spec fn flag_text(b: bool) -> Seq<char> {
    if b {
        "true"@
    } else {
        "false"@
    }
}

fn flag(b: bool) -> (r: String)
    ensures
        r@ == flag_text(b),
{
    if b {
        "true".to_owned()
    } else {
        "false".to_owned()
    }
}

/// What shows of an observation.
pub open spec fn observation_fields_shown(v: Observation) -> Seq<(Seq<char>, Seq<char>)> {
    seq![
        ("Observed at uptime (s)"@, seconds_text(v.observed_at_uptime_ns)),
        ("Time since engine load (s)"@, seconds_text(v.elapsed_ns)),
        ("GPU timestamps available"@, flag_text(v.gpu_timestamps_available)),
        ("GPU timing"@, timing_text(v.gpu_timing)),
    ]
}

pub fn observation_fields(v: &Observation) -> (r: Vec<(String, String)>)
    requires
        writable(v.observed_at_uptime_ns),
        writable(v.elapsed_ns),
    ensures
        pairs(r@) == observation_fields_shown(*v),
{
    let mut out: Vec<(String, String)> = Vec::new();
    out.push(("Observed at uptime (s)".to_owned(), seconds(v.observed_at_uptime_ns)));
    out.push(("Time since engine load (s)".to_owned(), seconds(v.elapsed_ns)));
    out.push(("GPU timestamps available".to_owned(), flag(v.gpu_timestamps_available)));
    out.push(("GPU timing".to_owned(), timing_status(&v.gpu_timing)));
    assert(pairs(out@) =~= observation_fields_shown(*v));
    out
}

/// What shows of rates, per second and in percent.
pub open spec fn rates_fields_shown(v: Rates) -> Seq<(Seq<char>, Seq<char>)> {
    seq![
        ("Read bytes/s"@, rate_text(v.bytes_per_ns, 1_000_000_000)),
        ("Reads/s"@, rate_text(v.reads_per_ns, 1_000_000_000)),
        ("GPU handoff gaps (%)"@, rate_text(v.gpu_handoff_gap_fraction, 100)),
        ("GPU stage coverage (%)"@, rate_text(v.gpu_stage_fraction, 100)),
    ]
}

pub fn rates_fields(v: &Rates) -> (r: Vec<(String, String)>)
    requires
        writable_rate(v.bytes_per_ns, 1_000_000_000),
        writable_rate(v.reads_per_ns, 1_000_000_000),
        writable_rate(v.gpu_handoff_gap_fraction, 100),
        writable_rate(v.gpu_stage_fraction, 100),
    ensures
        pairs(r@) == rates_fields_shown(*v),
{
    let mut out: Vec<(String, String)> = Vec::new();
    out.push(("Read bytes/s".to_owned(), rate(v.bytes_per_ns, 1_000_000_000)));
    out.push(("Reads/s".to_owned(), rate(v.reads_per_ns, 1_000_000_000)));
    out.push(("GPU handoff gaps (%)".to_owned(), rate(v.gpu_handoff_gap_fraction, 100)));
    out.push(("GPU stage coverage (%)".to_owned(), rate(v.gpu_stage_fraction, 100)));
    assert(pairs(out@) =~= rates_fields_shown(*v));
    out
}

/// What shows of reads.
pub open spec fn reads_fields_shown(v: ReadStats) -> Seq<(Seq<char>, Seq<char>)> {
    seq![
        ("Completed reads"@, text::decimal_of(v.completed_reads as nat)),
        ("Failed reads"@, text::decimal_of(v.failed_reads as nat)),
        ("Transferred bytes"@, text::decimal_of(v.completed_bytes as nat)),
        ("Summed worker read time (s)"@, seconds_text(v.read_ns)),
        ("Longest read (s)"@, seconds_text(v.max_read_ns)),
    ]
}

pub fn reads_fields(v: &ReadStats) -> (r: Vec<(String, String)>)
    requires
        writable(v.read_ns),
        writable(v.max_read_ns),
    ensures
        pairs(r@) == reads_fields_shown(*v),
{
    let mut out: Vec<(String, String)> = Vec::new();
    out.push(("Completed reads".to_owned(), decimal(v.completed_reads as u64)));
    out.push(("Failed reads".to_owned(), decimal(v.failed_reads as u64)));
    out.push(("Transferred bytes".to_owned(), decimal(v.completed_bytes as u64)));
    out.push(("Summed worker read time (s)".to_owned(), seconds(v.read_ns)));
    out.push(("Longest read (s)".to_owned(), seconds(v.max_read_ns)));
    assert(pairs(out@) =~= reads_fields_shown(*v));
    out
}

/// What shows of the processor's phases.
pub open spec fn cpu_fields_shown(v: PhaseStats) -> Seq<(Seq<char>, Seq<char>)> {
    seq![
        ("Service windows"@, text::decimal_of(v.service_windows as nat)),
        ("Service wall time (s)"@, seconds_text(v.service_wall_ns)),
        ("Service thread CPU time (s)"@, seconds_text(v.service_cpu_ns)),
        ("Prefetch wait (s)"@, seconds_text(v.prefetch_wait_ns)),
        ("Demand wait (s)"@, seconds_text(v.demand_wait_ns)),
    ]
}

pub fn cpu_fields(v: &PhaseStats) -> (r: Vec<(String, String)>)
    requires
        writable(v.service_wall_ns),
        writable(v.service_cpu_ns),
        writable(v.prefetch_wait_ns),
        writable(v.demand_wait_ns),
    ensures
        pairs(r@) == cpu_fields_shown(*v),
{
    let mut out: Vec<(String, String)> = Vec::new();
    out.push(("Service windows".to_owned(), decimal(v.service_windows as u64)));
    out.push(("Service wall time (s)".to_owned(), seconds(v.service_wall_ns)));
    out.push(("Service thread CPU time (s)".to_owned(), seconds(v.service_cpu_ns)));
    out.push(("Prefetch wait (s)".to_owned(), seconds(v.prefetch_wait_ns)));
    out.push(("Demand wait (s)".to_owned(), seconds(v.demand_wait_ns)));
    assert(pairs(out@) =~= cpu_fields_shown(*v));
    out
}

/// What shows of the device's phases.
pub open spec fn gpu_fields_shown(v: PhaseStats) -> Seq<(Seq<char>, Seq<char>)> {
    seq![
        ("Valid windows"@, text::decimal_of(v.gpu_windows as nat)),
        ("Invalid windows"@, text::decimal_of(v.invalid_gpu_windows as nat)),
        ("Router to resident gap (s)"@, seconds_text(v.router_to_resident_ns)),
        ("Resident stage (s)"@, seconds_text(v.resident_ns)),
        ("Resident to fetched gap (s)"@, seconds_text(v.resident_to_fetched_ns)),
        ("Fetched stage (s)"@, seconds_text(v.fetched_stage_ns)),
    ]
}

pub fn gpu_fields(v: &PhaseStats) -> (r: Vec<(String, String)>)
    requires
        writable(v.router_to_resident_ns),
        writable(v.resident_ns),
        writable(v.resident_to_fetched_ns),
        writable(v.fetched_stage_ns),
    ensures
        pairs(r@) == gpu_fields_shown(*v),
{
    let mut out: Vec<(String, String)> = Vec::new();
    out.push(("Valid windows".to_owned(), decimal(v.gpu_windows as u64)));
    out.push(("Invalid windows".to_owned(), decimal(v.invalid_gpu_windows as u64)));
    out.push(("Router to resident gap (s)".to_owned(), seconds(v.router_to_resident_ns)));
    out.push(("Resident stage (s)".to_owned(), seconds(v.resident_ns)));
    out.push(("Resident to fetched gap (s)".to_owned(), seconds(v.resident_to_fetched_ns)));
    out.push(("Fetched stage (s)".to_owned(), seconds(v.fetched_stage_ns)));
    assert(pairs(out@) =~= gpu_fields_shown(*v));
    out
}

/// What shows of predictions.
pub open spec fn prediction_fields_shown(v: PredictionStats) -> Seq<(Seq<char>, Seq<char>)> {
    seq![
        ("Target batches"@, text::decimal_of(v.target_batches as nat)),
        ("Predicted and selected"@, text::decimal_of(v.predicted_selected as nat)),
        ("Predicted but unused"@, text::decimal_of(v.predicted_unused as nat)),
        ("Selected without prediction"@, text::decimal_of(v.selected_unpredicted as nat)),
        ("Needed prefetches ready"@, text::decimal_of(v.needed_prefetch_ready as nat)),
        ("Needed prefetches late"@, text::decimal_of(v.needed_prefetch_late as nat)),
    ]
}

pub fn prediction_fields(v: &PredictionStats) -> (r: Vec<(String, String)>)
    ensures
        pairs(r@) == prediction_fields_shown(*v),
{
    let mut out: Vec<(String, String)> = Vec::new();
    out.push(("Target batches".to_owned(), decimal(v.target_batches as u64)));
    out.push(("Predicted and selected".to_owned(), decimal(v.predicted_selected as u64)));
    out.push(("Predicted but unused".to_owned(), decimal(v.predicted_unused as u64)));
    out.push(("Selected without prediction".to_owned(), decimal(v.selected_unpredicted as u64)));
    out.push(("Needed prefetches ready".to_owned(), decimal(v.needed_prefetch_ready as u64)));
    out.push(("Needed prefetches late".to_owned(), decimal(v.needed_prefetch_late as u64)));
    assert(pairs(out@) =~= prediction_fields_shown(*v));
    out
}

/// What shows of prefill chunks.
pub open spec fn prefill_fields_shown(v: PrefillStats) -> Seq<(Seq<char>, Seq<char>)> {
    seq![
        ("chunks"@, text::decimal_of(v.chunks as nat)),
        ("tokens"@, text::decimal_of(v.tokens as nat)),
        ("Smallest chunk (tokens)"@, text::decimal_of(v.min_chunk_tokens as nat)),
        ("Largest chunk (tokens)"@, text::decimal_of(v.max_chunk_tokens as nat)),
        ("Chunk time (s)"@, seconds_text(v.ns)),
        ("Ring reuse wait (s)"@, seconds_text(v.ring_wait_ns)),
    ]
}

pub fn prefill_fields(v: &PrefillStats) -> (r: Vec<(String, String)>)
    requires
        writable(v.ns),
        writable(v.ring_wait_ns),
    ensures
        pairs(r@) == prefill_fields_shown(*v),
{
    let mut out: Vec<(String, String)> = Vec::new();
    out.push(("chunks".to_owned(), decimal(v.chunks as u64)));
    out.push(("tokens".to_owned(), decimal(v.tokens as u64)));
    out.push(("Smallest chunk (tokens)".to_owned(), decimal(v.min_chunk_tokens as u64)));
    out.push(("Largest chunk (tokens)".to_owned(), decimal(v.max_chunk_tokens as u64)));
    out.push(("Chunk time (s)".to_owned(), seconds(v.ns)));
    out.push(("Ring reuse wait (s)".to_owned(), seconds(v.ring_wait_ns)));
    assert(pairs(out@) =~= prefill_fields_shown(*v));
    out
}

/// What shows of a layer.
pub open spec fn layer_fields_shown(v: Layer) -> Seq<(Seq<char>, Seq<char>)> {
    seq![
        ("Layer"@, text::decimal_of(v.layer as nat)),
        ("Name"@, plain_text(v.name@)),
        ("Rows"@, text::decimal_of(v.counters.selected_rows as nat)),
        ("Hits"@, text::decimal_of(v.counters.cache_hits as nat)),
        ("Misses"@, text::decimal_of(v.counters.cache_misses as nat)),
        ("Prefetch"@, text::decimal_of(v.counters.prefetch_requests as nat)),
        ("Reads"@, text::decimal_of(v.counters.read_requests as nat)),
        ("Requested bytes"@, text::decimal_of(v.counters.read_bytes_requested as nat)),
    ]
}

pub fn layer_fields(v: &Layer) -> (r: Vec<(String, String)>)
    ensures
        pairs(r@) == layer_fields_shown(*v),
{
    let mut out: Vec<(String, String)> = Vec::new();
    out.push(("Layer".to_owned(), decimal(v.layer as u64)));
    out.push(("Name".to_owned(), plain_cell(v.name.as_str())));
    out.push(("Rows".to_owned(), decimal(v.counters.selected_rows as u64)));
    out.push(("Hits".to_owned(), decimal(v.counters.cache_hits as u64)));
    out.push(("Misses".to_owned(), decimal(v.counters.cache_misses as u64)));
    out.push(("Prefetch".to_owned(), decimal(v.counters.prefetch_requests as u64)));
    out.push(("Reads".to_owned(), decimal(v.counters.read_requests as u64)));
    out.push(("Requested bytes".to_owned(), decimal(v.counters.read_bytes_requested as u64)));
    assert(pairs(out@) =~= layer_fields_shown(*v));
    out
}

/// What shows of an expert.
pub open spec fn expert_fields_shown(v: Expert) -> Seq<(Seq<char>, Seq<char>)> {
    seq![
        ("Layer"@, text::decimal_of(v.layer as nat)),
        ("Expert"@, text::decimal_of(v.expert as nat)),
        ("Rows"@, text::decimal_of(v.counters.selected_rows as nat)),
        ("Hits"@, text::decimal_of(v.counters.cache_hits as nat)),
        ("Misses"@, text::decimal_of(v.counters.cache_misses as nat)),
        ("Prefetch"@, text::decimal_of(v.counters.prefetch_requests as nat)),
        ("Reads"@, text::decimal_of(v.counters.read_requests as nat)),
        ("Requested bytes"@, text::decimal_of(v.counters.read_bytes_requested as nat)),
    ]
}

pub fn expert_fields(v: &Expert) -> (r: Vec<(String, String)>)
    ensures
        pairs(r@) == expert_fields_shown(*v),
{
    let mut out: Vec<(String, String)> = Vec::new();
    out.push(("Layer".to_owned(), decimal(v.layer as u64)));
    out.push(("Expert".to_owned(), decimal(v.expert as u64)));
    out.push(("Rows".to_owned(), decimal(v.counters.selected_rows as u64)));
    out.push(("Hits".to_owned(), decimal(v.counters.cache_hits as u64)));
    out.push(("Misses".to_owned(), decimal(v.counters.cache_misses as u64)));
    out.push(("Prefetch".to_owned(), decimal(v.counters.prefetch_requests as u64)));
    out.push(("Reads".to_owned(), decimal(v.counters.read_requests as u64)));
    out.push(("Requested bytes".to_owned(), decimal(v.counters.read_bytes_requested as u64)));
    assert(pairs(out@) =~= expert_fields_shown(*v));
    out
}

/// What shows of a precision.
pub open spec fn quant_fields_shown(v: QuantStats) -> Seq<(Seq<char>, Seq<char>)> {
    seq![
        ("Bits"@, text::decimal_of(v.bits as nat)),
        ("Selections"@, text::decimal_of(v.selected_experts as nat)),
        ("Cut"@, text::decimal_of(v.cut_experts as nat)),
        ("Eligible for cut"@, text::decimal_of(v.eligible_weak_misses as nat)),
    ]
}

pub fn quant_fields(v: &QuantStats) -> (r: Vec<(String, String)>)
    ensures
        pairs(r@) == quant_fields_shown(*v),
{
    let mut out: Vec<(String, String)> = Vec::new();
    out.push(("Bits".to_owned(), decimal(v.bits as u64)));
    out.push(("Selections".to_owned(), decimal(v.selected_experts as u64)));
    out.push(("Cut".to_owned(), decimal(v.cut_experts as u64)));
    out.push(("Eligible for cut".to_owned(), decimal(v.eligible_weak_misses as u64)));
    assert(pairs(out@) =~= quant_fields_shown(*v));
    out
}

/// The names of fields.
pub open spec fn names(fields: Seq<(Seq<char>, Seq<char>)>) -> Seq<Seq<char>> {
    fields.map_values(|p: (Seq<char>, Seq<char>)| p.0)
}

/// The values of fields.
pub open spec fn values(fields: Seq<(Seq<char>, Seq<char>)>) -> Seq<Seq<char>> {
    fields.map_values(|p: (Seq<char>, Seq<char>)| p.1)
}

/// The records of a table whose rows are fields with the same names: the names, then the
/// values of each row. A table without rows has its names too.
pub open spec fn tabulated(header: Seq<Seq<char>>, rows: Seq<Seq<(Seq<char>, Seq<char>)>>) -> Seq<Seq<Seq<char>>> {
    seq![header] + rows.map_values(|f: Seq<(Seq<char>, Seq<char>)>| values(f))
}

fn column(fields: &Vec<(String, String)>, names_wanted: bool) -> (r: Vec<String>)
    ensures
        report::texts(r@) == if names_wanted {
            names(pairs(fields@))
        } else {
            values(pairs(fields@))
        },
{
    let mut out: Vec<String> = Vec::new();
    let mut i: usize = 0;
    while i < fields.len()
        invariant
            i <= fields@.len(),
            out@.len() == i,
            forall|k: int|
                0 <= k < i ==> (#[trigger] out@[k])@ == if names_wanted {
                    fields@[k].0@
                } else {
                    fields@[k].1@
                },
        decreases fields@.len() - i,
    {
        out.push(
            if names_wanted {
                fields[i].0.clone()
            } else {
                fields[i].1.clone()
            },
        );
        i = i + 1;
    }
    assert(report::texts(out@) =~= if names_wanted {
        names(pairs(fields@))
    } else {
        values(pairs(fields@))
    });
    out
}

/// The precisions of a layer as a table.
pub open spec fn quant_records(quant: Seq<QuantStats>) -> Seq<Seq<Seq<char>>> {
    tabulated(
        seq!["Bits"@, "Selections"@, "Cut"@, "Eligible for cut"@],
        quant.map_values(|q: QuantStats| quant_fields_shown(q)),
    )
}

fn header(labels: &[&'static str]) -> (r: Vec<String>)
    ensures
        report::texts(r@) == labels@.map_values(|s: &'static str| s@),
{
    let mut out: Vec<String> = Vec::new();
    let mut i: usize = 0;
    while i < labels.len()
        invariant
            i <= labels@.len(),
            out@.len() == i,
            forall|k: int| 0 <= k < i ==> (#[trigger] out@[k])@ == labels@[k]@,
        decreases labels@.len() - i,
    {
        out.push(labels[i].to_owned());
        i = i + 1;
    }
    assert(report::texts(out@) =~= labels@.map_values(|s: &'static str| s@));
    out
}

pub fn quant_table(quant: &[QuantStats]) -> (r: Vec<Vec<String>>)
    ensures
        report::records(r@) == quant_records(quant@),
{
    let mut out: Vec<Vec<String>> = Vec::new();
    let labels: [&'static str; 4] = ["Bits", "Selections", "Cut", "Eligible for cut"];
    let first = header(labels.as_slice());
    assert(report::texts(first@) =~= seq!["Bits"@, "Selections"@, "Cut"@, "Eligible for cut"@]);
    out.push(first);
    let mut i: usize = 0;
    assert(report::records(out@) =~= quant_records(quant@.take(0)));
    while i < quant.len()
        invariant
            i <= quant@.len(),
            report::records(out@) == quant_records(quant@.take(i as int)),
        decreases quant@.len() - i,
    {
        let ghost before = out@;
        let fields = quant_fields(&quant[i]);
        let row = column(&fields, false);
        out.push(row);
        assert(report::records(out@) =~= report::records(before).push(values(quant_fields_shown(quant@[i as int]))));
        assert(quant_records(quant@.take(i + 1)) =~= quant_records(quant@.take(i as int)).push(
            values(quant_fields_shown(quant@[i as int])),
        ));
        i = i + 1;
    }
    assert(quant@.take(i as int) =~= quant@);
    out
}

/// Layers as a table.
pub open spec fn layers_records(list: Seq<Layer>) -> Seq<Seq<Seq<char>>> {
    tabulated(
        seq!["Layer"@, "Name"@, "Rows"@, "Hits"@, "Misses"@, "Prefetch"@, "Reads"@, "Requested bytes"@],
        list.map_values(|x: Layer| layer_fields_shown(x)),
    )
}

pub fn layers_table(list: &Vec<Layer>) -> (r: Vec<Vec<String>>)
    ensures
        report::records(r@) == layers_records(list@),
{
    let mut out: Vec<Vec<String>> = Vec::new();
    let labels: [&'static str; 8] = ["Layer", "Name", "Rows", "Hits", "Misses", "Prefetch", "Reads", "Requested bytes"];
    let first = header(labels.as_slice());
    assert(report::texts(first@) =~= seq!["Layer"@, "Name"@, "Rows"@, "Hits"@, "Misses"@, "Prefetch"@, "Reads"@, "Requested bytes"@]);
    out.push(first);
    let mut i: usize = 0;
    assert(report::records(out@) =~= layers_records(list@.take(0)));
    while i < list.len()
        invariant
            i <= list@.len(),
            report::records(out@) == layers_records(list@.take(i as int)),
        decreases list@.len() - i,
    {
        let ghost before = out@;
        let fields = layer_fields(&list[i]);
        let row = column(&fields, false);
        out.push(row);
        assert(report::records(out@) =~= report::records(before).push(values(layer_fields_shown(list@[i as int]))));
        assert(layers_records(list@.take(i + 1)) =~= layers_records(list@.take(i as int)).push(
            values(layer_fields_shown(list@[i as int])),
        ));
        i = i + 1;
    }
    assert(list@.take(i as int) =~= list@);
    out
}

/// Experts as a table.
pub open spec fn experts_records(list: Seq<Expert>) -> Seq<Seq<Seq<char>>> {
    tabulated(
        seq!["Layer"@, "Expert"@, "Rows"@, "Hits"@, "Misses"@, "Prefetch"@, "Reads"@, "Requested bytes"@],
        list.map_values(|x: Expert| expert_fields_shown(x)),
    )
}

pub fn experts_table(list: &Vec<Expert>) -> (r: Vec<Vec<String>>)
    ensures
        report::records(r@) == experts_records(list@),
{
    let mut out: Vec<Vec<String>> = Vec::new();
    let labels: [&'static str; 8] = ["Layer", "Expert", "Rows", "Hits", "Misses", "Prefetch", "Reads", "Requested bytes"];
    let first = header(labels.as_slice());
    assert(report::texts(first@) =~= seq!["Layer"@, "Expert"@, "Rows"@, "Hits"@, "Misses"@, "Prefetch"@, "Reads"@, "Requested bytes"@]);
    out.push(first);
    let mut i: usize = 0;
    assert(report::records(out@) =~= experts_records(list@.take(0)));
    while i < list.len()
        invariant
            i <= list@.len(),
            report::records(out@) == experts_records(list@.take(i as int)),
        decreases list@.len() - i,
    {
        let ghost before = out@;
        let fields = expert_fields(&list[i]);
        let row = column(&fields, false);
        out.push(row);
        assert(report::records(out@) =~= report::records(before).push(values(expert_fields_shown(list@[i as int]))));
        assert(experts_records(list@.take(i + 1)) =~= experts_records(list@.take(i as int)).push(
            values(expert_fields_shown(list@[i as int])),
        ));
        i = i + 1;
    }
    assert(list@.take(i as int) =~= list@);
    out
}

/// A cell keeps every character but those that would be markup or control, which become blanks.
pub proof fn law_plain_cell(value: &str, r: String, i: int)
    requires
        call_ensures(plain_cell, (value,), r),
        0 <= i < value@.len(),
    ensures
        r@.len() == value@.len(),
        r@[i] == ' ' || r@[i] == value@[i],
        r@[i] != '|' && r@[i] != '\\' && r@[i] != '`' && r@[i] != '*' && r@[i] != '<' && r@[i] != '>',
        !text::is_control(r@[i]),
        r@[i] != value@[i] ==> value@[i] == '|' || value@[i] == '\\' || value@[i] == '`' || value@[i] == '*' || value@[i] == '<'
            || value@[i] == '>' || text::is_control(value@[i]),
{
}

} // verus!
