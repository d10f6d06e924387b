//! Reports of the shared statistics responses.

use super::report;
use super::report::{Report, Section};
use super::rows;
use super::rows::{
    cpu_fields, expert_fields, experts_table, gpu_fields, layer_fields, layers_table, observation_fields,
    prediction_fields, prefill_fields, quant_table, rates_fields, reads_fields,
};
use crate::control::stats::{Expert, Layer, Observation, Page, Summary};
use crate::qwen4_exp::gpu::activity::layers::{LayerStats, PhaseStats};
use crate::qwen4_exp::gpu::activity::reads::ReadStats;
use crate::qwen4_exp::gpu::activity::ExpertCounters;
use crate::qwen4_exp::gpu::prefill::stats::PrefillStats;
use crate::text;
use crate::text::decimal;
use vstd::prelude::*;
use vstd::string::*;

verus! {

/// Whether the times of reads can be written out.
pub open spec fn writable_reads(v: ReadStats) -> bool {
    rows::writable(v.read_ns) && rows::writable(v.max_read_ns)
}

/// Whether the times of phases can be written out.
pub open spec fn writable_phases(v: PhaseStats) -> bool {
    &&& rows::writable(v.service_wall_ns)
    &&& rows::writable(v.service_cpu_ns)
    &&& rows::writable(v.prefetch_wait_ns)
    &&& rows::writable(v.demand_wait_ns)
    &&& rows::writable(v.router_to_resident_ns)
    &&& rows::writable(v.resident_ns)
    &&& rows::writable(v.resident_to_fetched_ns)
    &&& rows::writable(v.fetched_stage_ns)
}

/// Whether the times of an observation can be written out.
pub open spec fn writable_observation(v: Observation) -> bool {
    rows::writable(v.observed_at_uptime_ns) && rows::writable(v.elapsed_ns)
}

/// Whether a summary can be written out.
pub open spec fn writable_summary(v: Summary) -> bool {
    &&& rows::writable_rate(v.rates.bytes_per_ns, 1_000_000_000)
    &&& rows::writable_rate(v.rates.reads_per_ns, 1_000_000_000)
    &&& rows::writable_rate(v.rates.gpu_handoff_gap_fraction, 100)
    &&& rows::writable_rate(v.rates.gpu_stage_fraction, 100)
    &&& writable_reads(v.reads)
    &&& writable_phases(v.streaming.phases)
}

/// Whether a report shows all layers together.
pub open spec fn shows_summary(s: Seq<Section>, observation: Observation, summary: Summary, prefill: PrefillStats) -> bool {
    &&& s.len() == 8
    &&& report::is_fields(s[0], "Observation"@, rows::observation_fields_shown(observation))
    &&& report::is_fields(s[1], "Rates since engine load"@, rows::rates_fields_shown(summary.rates))
    &&& report::is_fields(s[2], "Prefill chunks"@, rows::prefill_fields_shown(prefill))
    &&& report::is_fields(s[3], "Expert reads"@, rows::reads_fields_shown(summary.reads))
    &&& report::is_fields(s[4], "CPU phases"@, rows::cpu_fields_shown(summary.streaming.phases))
    &&& report::is_fields(s[5], "GPU phases"@, rows::gpu_fields_shown(summary.streaming.phases))
    &&& report::is_fields(s[6], "Prediction"@, rows::prediction_fields_shown(summary.streaming.prediction))
    &&& report::is_table(s[7], "Expert precision"@, rows::quant_records(summary.streaming.quant@))
}

/// The report of all layers together.
pub fn summary_report(observation: &Observation, summary: &Summary, prefill: &PrefillStats) -> (r: Report)
    requires
        writable_observation(*observation),
        writable_summary(*summary),
        rows::writable(prefill.ns),
        rows::writable(prefill.ring_wait_ns),
    ensures
        shows_summary(r.sections@, *observation, *summary, *prefill),
{
    let mut r = Report::new();
    r.fields("Observation", observation_fields(observation));
    let ghost s0 = r.sections@;
    r.fields("Rates since engine load", rates_fields(&summary.rates));
    let ghost s1 = r.sections@;
    r.fields("Prefill chunks", prefill_fields(prefill));
    let ghost s2 = r.sections@;
    r.fields("Expert reads", reads_fields(&summary.reads));
    let ghost s3 = r.sections@;
    r.fields("CPU phases", cpu_fields(&summary.streaming.phases));
    let ghost s4 = r.sections@;
    r.fields("GPU phases", gpu_fields(&summary.streaming.phases));
    let ghost s5 = r.sections@;
    r.fields("Prediction", prediction_fields(&summary.streaming.prediction));
    let ghost s6 = r.sections@;
    r.table("Expert precision", quant_table(summary.streaming.quant.as_slice()));
    proof {
        let s7 = r.sections@;
        assert(s7.drop_last() == s6 && s6.drop_last() == s5 && s5.drop_last() == s4 && s4.drop_last() == s3
            && s3.drop_last() == s2 && s2.drop_last() == s1 && s1.drop_last() == s0);
        assert(s7[6] == s6[6] && s7[5] == s6[5] && s6[5] == s5[5]);
        assert(s7[4] == s6[4] && s6[4] == s5[4] && s5[4] == s4[4]);
        assert(s7[3] == s6[3] && s6[3] == s5[3] && s5[3] == s4[3] && s4[3] == s3[3]);
        assert(s7[2] == s6[2] && s6[2] == s5[2] && s5[2] == s4[2] && s4[2] == s3[2] && s3[2] == s2[2]);
        assert(s7[1] == s6[1] && s6[1] == s5[1] && s5[1] == s4[1] && s4[1] == s3[1] && s3[1] == s2[1] && s2[1] == s1[1]);
        assert(s7[0] == s6[0] && s6[0] == s5[0] && s5[0] == s4[0] && s4[0] == s3[0] && s3[0] == s2[0] && s2[0] == s1[0]
            && s1[0] == s0[0]);
    }
    r
}

/// What a page says of itself.
pub open spec fn page_note(entries: nat, offset: nat, total: nat) -> Seq<char> {
    text::decimal_of(entries) + " entries; offset "@ + text::decimal_of(offset) + "; total "@ + text::decimal_of(total)
        + "."@
}

/// Where a page says the next one begins.
pub open spec fn next_note(offset: nat) -> Seq<char> {
    "Next page: --offset "@ + text::decimal_of(offset) + "."@
}

fn add_notes(r: &mut Report, entries: usize, offset: usize, total: usize, next: Option<usize>)
    ensures
        ({
            let before = old(r).sections@;
            let after = final(r).sections@;
            &&& after.take(before.len() as int) == before
            &&& after[before.len() as int] matches Section::Note(n) && n@ == page_note(
                entries as nat,
                offset as nat,
                total as nat,
            )
            &&& match next {
                Some(o) => after.len() == before.len() + 2 && (after[before.len() as int + 1] matches Section::Note(n) && n@
                    == next_note(o as nat)),
                None => after.len() == before.len() + 1,
            }
        }),
{
    let ghost before = r.sections@;
    let mut note: String = decimal(entries as u64);
    note.append(" entries; offset ");
    note.append(decimal(offset as u64).as_str());
    note.append("; total ");
    note.append(decimal(total as u64).as_str());
    note.append(".");
    r.note(note);
    assert(r.sections@.take(before.len() as int) =~= before);
    if let Some(o) = next {
        let mut more: String = "Next page: --offset ".to_owned();
        more.append(decimal(o as u64).as_str());
        more.append(".");
        r.note(more);
        assert(r.sections@.take(before.len() as int) =~= before);
    }
}

/// Whether a report shows a page: the observation, the table, and the notes.
pub open spec fn shows_page(
    sections: Seq<Section>,
    observation: Observation,
    title: Seq<char>,
    records: Seq<Seq<Seq<char>>>,
    entries: nat,
    offset: nat,
    total: nat,
    next: Option<usize>,
) -> bool {
    &&& sections.len() == if next is Some {
        4
    } else {
        3int
    }
    &&& report::is_fields(sections[0], "Observation"@, rows::observation_fields_shown(observation))
    &&& report::is_table(sections[1], title, records)
    &&& sections[2] matches Section::Note(n) && n@ == page_note(entries, offset, total)
    &&& next matches Some(o) ==> (sections[3] matches Section::Note(n) && n@ == next_note(o as nat))
}

/// The report of a page of layers.
pub fn layers_report(observation: &Observation, page: &Page<Layer>) -> (r: Report)
    requires
        writable_observation(*observation),
    ensures
        shows_page(
            r.sections@,
            *observation,
            "Layers"@,
            rows::layers_records(page.data@),
            page.data@.len(),
            page.offset as nat,
            page.total as nat,
            page.next_offset,
        ),
{
    let mut r = Report::new();
    r.fields("Observation", observation_fields(observation));
    let ghost s0 = r.sections@;
    r.table("Layers", layers_table(&page.data));
    let ghost s1 = r.sections@;
    add_notes(&mut r, page.data.len(), page.offset, page.total, page.next_offset);
    proof {
        let s = r.sections@;
        assert(s1.drop_last() == s0 && s1[0] == s0[0]);
        assert(s.take(2) == s1);
        assert(s[0] == s1[0] && s[1] == s1[1]) by {
            assert(s.take(2)[0] == s[0] && s.take(2)[1] == s[1]);
        }
    }
    r
}

/// The report of a page of experts.
pub fn experts_report(observation: &Observation, page: &Page<Expert>) -> (r: Report)
    requires
        writable_observation(*observation),
    ensures
        shows_page(
            r.sections@,
            *observation,
            "Experts"@,
            rows::experts_records(page.data@),
            page.data@.len(),
            page.offset as nat,
            page.total as nat,
            page.next_offset,
        ),
{
    let mut r = Report::new();
    r.fields("Observation", observation_fields(observation));
    let ghost s0 = r.sections@;
    r.table("Experts", experts_table(&page.data));
    let ghost s1 = r.sections@;
    add_notes(&mut r, page.data.len(), page.offset, page.total, page.next_offset);
    proof {
        let s = r.sections@;
        assert(s1.drop_last() == s0 && s1[0] == s0[0]);
        assert(s.take(2) == s1);
        assert(s[0] == s1[0] && s[1] == s1[1]) by {
            assert(s.take(2)[0] == s[0] && s.take(2)[1] == s[1]);
        }
    }
    r
}

/// Whether a layer's statistics can be written out.
pub open spec fn writable_layer(layer: Layer) -> bool {
    &&& layer.streaming.reads_fit()
    &&& writable_reads(layer.streaming.all_reads())
    &&& writable_phases(layer.streaming.phases)
}

/// Whether a report shows one layer.
pub open spec fn shows_layer(s: Seq<Section>, layer: Layer) -> bool {
    let stats = layer.streaming;
    &&& s.len() == 6
    &&& report::is_fields(s[0], "Layer"@, rows::layer_fields_shown(layer))
    &&& report::is_fields(s[1], "Prediction"@, rows::prediction_fields_shown(stats.prediction))
    &&& report::is_table(s[2], "Expert precision"@, rows::quant_records(stats.quant@))
    &&& report::is_fields(s[3], "Expert reads"@, rows::reads_fields_shown(stats.all_reads()))
    &&& report::is_fields(s[4], "CPU phases"@, rows::cpu_fields_shown(stats.phases))
    &&& report::is_fields(s[5], "GPU phases"@, rows::gpu_fields_shown(stats.phases))
}

/// The report of one layer of a page; an empty one where there is no such layer.
pub fn layer_detail(page: &Page<Layer>, selected: usize) -> (r: Report)
    requires
        selected < page.data@.len() ==> writable_layer(page.data@[selected as int]),
    ensures
        if selected < page.data@.len() {
            shows_layer(r.sections@, page.data@[selected as int])
        } else {
            r.sections@.len() == 0
        },
{
    let mut r = Report::new();
    if selected >= page.data.len() {
        return r;
    }
    let layer: &Layer = &page.data[selected];
    let stats: &LayerStats = &layer.streaming;
    r.fields("Layer", layer_fields(layer));
    let ghost s0 = r.sections@;
    r.fields("Prediction", prediction_fields(&stats.prediction));
    let ghost s1 = r.sections@;
    r.table("Expert precision", quant_table(stats.quant.as_slice()));
    let ghost s2 = r.sections@;
    r.fields("Expert reads", reads_fields(&stats.reads()));
    let ghost s3 = r.sections@;
    r.fields("CPU phases", cpu_fields(&stats.phases));
    let ghost s4 = r.sections@;
    r.fields("GPU phases", gpu_fields(&stats.phases));
    proof {
        let s5 = r.sections@;
        assert(s5.drop_last() == s4 && s4.drop_last() == s3 && s3.drop_last() == s2 && s2.drop_last() == s1
            && s1.drop_last() == s0);
        assert(s5[4] == s4[4]);
        assert(s5[3] == s4[3] && s4[3] == s3[3]);
        assert(s5[2] == s4[2] && s4[2] == s3[2] && s3[2] == s2[2]);
        assert(s5[1] == s4[1] && s4[1] == s3[1] && s3[1] == s2[1] && s2[1] == s1[1]);
        assert(s5[0] == s4[0] && s4[0] == s3[0] && s3[0] == s2[0] && s2[0] == s1[0] && s1[0] == s0[0]);
    }
    r
}

/// Whether a report shows one expert.
pub open spec fn shows_expert(s: Seq<Section>, expert: Expert) -> bool {
    s.len() == 1 && report::is_fields(s[0], "Expert"@, rows::expert_fields_shown(expert))
}

/// The report of one expert of a page; an empty one where there is no such expert.
pub fn expert_detail(page: &Page<Expert>, selected: usize) -> (r: Report)
    ensures
        if selected < page.data@.len() {
            shows_expert(r.sections@, page.data@[selected as int])
        } else {
            r.sections@.len() == 0
        },
{
    let mut r = Report::new();
    if selected < page.data.len() {
        r.fields("Expert", expert_fields(&page.data[selected]));
    }
    r
}

/// A statistics response, as a client shows it.
#[derive(Debug)]
pub enum StatsView {
    Summary(Observation, Summary, PrefillStats),
    Layers(Observation, Page<Layer>),
    Experts(Observation, Page<Expert>),
}

impl StatsView {
    /// Whether the report can be written out.
    pub open spec fn writable(self) -> bool {
        match self {
            StatsView::Summary(observation, summary, prefill) => {
                &&& writable_observation(observation)
                &&& writable_summary(summary)
                &&& rows::writable(prefill.ns)
                &&& rows::writable(prefill.ring_wait_ns)
            },
            StatsView::Layers(observation, _) => writable_observation(observation),
            StatsView::Experts(observation, _) => writable_observation(observation),
        }
    }

    /// Whether a report shows the response.
    pub open spec fn shown(self, sections: Seq<Section>) -> bool {
        match self {
            StatsView::Summary(observation, summary, prefill) => shows_summary(sections, observation, summary, prefill),
            StatsView::Layers(observation, page) => shows_page(
                sections,
                observation,
                "Layers"@,
                rows::layers_records(page.data@),
                page.data@.len(),
                page.offset as nat,
                page.total as nat,
                page.next_offset,
            ),
            StatsView::Experts(observation, page) => shows_page(
                sections,
                observation,
                "Experts"@,
                rows::experts_records(page.data@),
                page.data@.len(),
                page.offset as nat,
                page.total as nat,
                page.next_offset,
            ),
        }
    }

    /// The report of the response.
    pub fn report(&self) -> (r: Report)
        requires
            self.writable(),
        ensures
            self.shown(r.sections@),
    {
        match self {
            StatsView::Summary(observation, summary, prefill) => summary_report(observation, summary, prefill),
            StatsView::Layers(observation, page) => layers_report(observation, page),
            StatsView::Experts(observation, page) => experts_report(observation, page),
        }
    }

    /// The report of one entry. A summary has no entries: it shows as a whole.
    pub fn detail_report(&self, selected: usize) -> (r: Report)
        requires
            match *self {
                StatsView::Summary(..) => self.writable(),
                StatsView::Layers(_, page) => selected < page.data@.len() ==> writable_layer(
                    page.data@[selected as int],
                ),
                StatsView::Experts(..) => true,
            },
        ensures
            match *self {
                StatsView::Summary(..) => self.shown(r.sections@),
                StatsView::Layers(_, page) => if selected < page.data@.len() {
                    shows_layer(r.sections@, page.data@[selected as int])
                } else {
                    r.sections@.len() == 0
                },
                StatsView::Experts(_, page) => if selected < page.data@.len() {
                    shows_expert(r.sections@, page.data@[selected as int])
                } else {
                    r.sections@.len() == 0
                },
            },
    {
        match self {
            StatsView::Summary(..) => self.report(),
            StatsView::Layers(_, page) => layer_detail(page, selected),
            StatsView::Experts(_, page) => expert_detail(page, selected),
        }
    }

    /// Where the next page begins, where there is one.
    pub open spec fn following(self) -> Option<usize> {
        match self {
            StatsView::Summary(..) => None,
            StatsView::Layers(_, page) => page.next_offset,
            StatsView::Experts(_, page) => page.next_offset,
        }
    }

    pub fn next_offset(&self) -> (r: Option<usize>)
        ensures
            r == self.following(),
    {
        match self {
            StatsView::Summary(..) => None,
            StatsView::Layers(_, page) => page.next_offset,
            StatsView::Experts(_, page) => page.next_offset,
        }
    }

    /// The entries: what each is called by, and its counters.
    pub open spec fn entries(self) -> Seq<(usize, ExpertCounters)> {
        match self {
            StatsView::Summary(..) => Seq::empty(),
            StatsView::Layers(_, page) => page.data@.map_values(|l: Layer| (l.layer, l.counters)),
            StatsView::Experts(_, page) => page.data@.map_values(|e: Expert| (e.expert, e.counters)),
        }
    }

    /// What the entries are called by.
    pub open spec fn ids(self) -> Seq<usize> {
        self.entries().map_values(|e: (usize, ExpertCounters)| e.0)
    }

    /// How many entries there are.
    pub fn len(&self) -> (r: usize)
        ensures
            r == self.entries().len(),
    {
        match self {
            StatsView::Summary(..) => 0,
            StatsView::Layers(_, page) => page.data.len(),
            StatsView::Experts(_, page) => page.data.len(),
        }
    }

    /// An entry, where there is one.
    pub fn row(&self, index: usize) -> (r: Option<(usize, ExpertCounters)>)
        ensures
            r == if index < self.entries().len() {
                Some(self.entries()[index as int])
            } else {
                None
            },
    {
        match self {
            StatsView::Summary(..) => None,
            StatsView::Layers(_, page) => if index < page.data.len() {
                Some((page.data[index].layer, page.data[index].counters))
            } else {
                None
            },
            StatsView::Experts(_, page) => if index < page.data.len() {
                Some((page.data[index].expert, page.data[index].counters))
            } else {
                None
            },
        }
    }
}

} // verus!
