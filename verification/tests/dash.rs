use cherenkov::cli_output::dash::history::{Counters, History, HISTORY_NS, MAX_SAMPLES};
use cherenkov::cli_output::dash::plots::{caption, factor, label, segments, Series};
use cherenkov::cli_output::dash::rows::{cells, largest, megabytes, title};
use cherenkov::cli_output::dash::state::{
    divide, expert_query, help_area, layer_query, Division, Key, Pane, Scroll, Snapshot, State, Tab, PAGE_SIZE,
    REFRESH_NS,
};
use cherenkov::cli_output::report::Section;
use cherenkov::cli_output::stats::StatsView;
use cherenkov::control::stats::{ratio, Expert, Layer, Observation, Page};
use cherenkov::qwen4_exp::gpu::activity::layers::LayerStats;
use cherenkov::qwen4_exp::gpu::activity::ExpertCounters;
use cherenkov::qwen4_exp::gpu::phases::GpuTiming;

const SECOND: u128 = 1_000_000_000;

fn counters(time: u128, bytes: u64) -> Counters {
    Counters { time, elapsed: time, bytes, wait: 0, stage: time / 2, gap: time / 4, gpu: true }
}

fn observation() -> Observation {
    Observation {
        observed_at_uptime_ns: 0,
        elapsed_ns: 0,
        gpu_timestamps_available: false,
        gpu_timing: GpuTiming::NotInitialized,
    }
}

fn layers(ids: Vec<usize>, next_offset: Option<usize>) -> StatsView {
    let data: Vec<Layer> = ids
        .into_iter()
        .map(|layer| Layer {
            layer,
            name: format!("layers.{layer}"),
            experts: 2,
            counters: ExpertCounters::default(),
            streaming: LayerStats::default(),
        })
        .collect();
    StatsView::Layers(observation(), Page { offset: 0, next_offset, total: 9, data })
}

fn experts(bytes: &[u64]) -> StatsView {
    let data: Vec<Expert> = bytes
        .iter()
        .enumerate()
        .map(|(i, bytes)| Expert {
            layer: 1,
            expert: i + 10,
            counters: ExpertCounters { read_bytes_requested: *bytes, ..ExpertCounters::default() },
        })
        .collect();
    StatsView::Experts(observation(), Page { offset: 8, next_offset: None, total: 8 + bytes.len(), data })
}

fn snapshot(rows: Vec<usize>, next_offset: Option<usize>) -> Snapshot {
    Snapshot { rows: layers(rows, next_offset), layer_count: 5, counters: None }
}

fn loaded() -> State {
    let mut s = State::new(0);
    let request = s.ask(0).unwrap();
    s.accept(request, Ok(snapshot(vec![4, 5, 6], Some(8))), 10);
    s
}

fn press(s: &mut State, key: Key) -> bool {
    s.key(key, false, 20).quit
}

#[test]
fn samples_are_rates_between_observations() {
    let mut h = History::new();
    h.observe(Some(counters(4 * SECOND, 100)));
    h.observe(Some(counters(8 * SECOND, 300)));
    let last = h.samples.last().unwrap();
    assert_eq!(last.time, 8 * SECOND);
    assert_eq!(last.values.reads, ratio(200, 4 * SECOND));
    assert_eq!(last.values.coverage, ratio(2 * SECOND, 3 * SECOND));
}

#[test]
fn a_restart_leaves_a_gap() {
    assert!(counters(5, 10).reset_since(&counters(4, 11)));
    assert!(!counters(5, 11).reset_since(&counters(4, 11)));
    let mut late = counters(10 * SECOND, 11);
    late.elapsed = SECOND;
    assert!(late.reset_since(&counters(SECOND, 11)));
    let mut h = History::new();
    for (time, bytes) in [(4, 100), (8, 300), (12, 50), (16, 70)] {
        h.observe(Some(counters(time * SECOND, bytes)));
    }
    let runs = segments(&h, Series::Reads);
    assert!(runs.iter().all(|run| !run.is_empty()));
    assert_eq!(runs.iter().map(Vec::len).sum::<usize>(), h.samples.iter().filter(|s| s.values.reads.is_some()).count());
    assert_eq!(runs.len(), 1);
    assert_eq!(h.samples.first().unwrap().time, 12 * SECOND);
}

#[test]
fn the_history_is_bounded() {
    let mut h = History::new();
    for i in 1..300u64 {
        h.observe(Some(counters(u128::from(i) * 4 * SECOND, i)));
        assert!(h.samples.len() <= MAX_SAMPLES);
        let (first, last) = (h.samples.first(), h.samples.last());
        if let (Some(first), Some(last)) = (first, last) {
            assert!(last.time - first.time <= HISTORY_NS);
        }
    }
    assert!(!h.samples.is_empty());
}

#[test]
fn the_last_point_lies_at_the_end() {
    let mut h = History::new();
    for i in 1..5u64 {
        h.observe(Some(counters(u128::from(i) * 4 * SECOND, i * 10)));
    }
    let runs = segments(&h, Series::Wait);
    let run = runs.last().unwrap();
    assert_eq!(run.last().unwrap().before, 0);
    assert_eq!(run[run.len() - 2].before, 4 * SECOND);
    assert_eq!(run.last().unwrap().value, ratio(0, 4 * SECOND).unwrap());
}

#[test]
fn a_lost_connection_leaves_a_gap() {
    let mut h = History::new();
    h.observe(Some(counters(4 * SECOND, 1)));
    h.observe(Some(counters(8 * SECOND, 2)));
    h.disconnect();
    h.observe(Some(counters(12 * SECOND, 3)));
    assert!(h.samples.last().unwrap().values.reads.is_none());
}

#[test]
fn one_request_is_in_flight() {
    let mut s = State::new(100);
    let request = s.ask(100).unwrap();
    assert_eq!(request.tab, Tab::Summary);
    assert!(s.ask(100).is_none());
    s.accept(request, Ok(snapshot(vec![1], None)), 200);
    assert!(s.ask(200).is_none());
    assert!(s.ask(200 + REFRESH_NS).is_some());
}

#[test]
fn stale_replies_are_dropped() {
    let mut s = State::new(0);
    let request = s.ask(0).unwrap();
    press(&mut s, Key::Char('2'));
    assert_eq!(s.request.generation, request.generation + 1);
    s.accept(request, Ok(snapshot(vec![1], None)), 30);
    assert!(s.snapshot.is_none());
}

#[test]
fn escape_undoes_inspection() {
    let mut s = loaded();
    press(&mut s, Key::Char('2'));
    let request = s.ask(20).unwrap();
    s.accept(request, Ok(snapshot(vec![4, 5, 6], Some(8))), 30);
    press(&mut s, Key::Down);
    assert_eq!(s.selected, Some(1));
    press(&mut s, Key::Enter);
    assert_eq!((s.request.tab, s.request.layer), (Tab::Experts, 5));
    assert!(!press(&mut s, Key::Esc));
    assert_eq!((s.request.tab, s.selected), (Tab::Layers, Some(1)));
    assert!(press(&mut s, Key::Esc));
}

#[test]
fn pages_go_forth_and_back() {
    let mut s = loaded();
    press(&mut s, Key::Char('n'));
    assert_eq!((s.request.offset, s.previous.clone()), (8, vec![0]));
    press(&mut s, Key::Char('p'));
    assert_eq!((s.request.offset, s.previous.len()), (0, 0));
}

#[test]
fn rows_are_selected_within_bounds() {
    let mut s = loaded();
    for _ in 0..5 {
        press(&mut s, Key::Char('j'));
    }
    assert_eq!(s.selected, Some(2));
    press(&mut s, Key::Home);
    assert_eq!(s.selected, Some(0));
    press(&mut s, Key::End);
    assert_eq!(s.selected, Some(2));
    let request = s.request;
    s.accept(request, Ok(snapshot(vec![4], None)), 50);
    assert_eq!(s.selected, Some(0));
}

#[test]
fn help_closes_on_any_key() {
    let mut s = loaded();
    press(&mut s, Key::Char('?'));
    assert!(s.help);
    assert!(!press(&mut s, Key::Esc));
    assert!(!s.help);
    assert!(press(&mut s, Key::Char('q')));
    assert!(s.key(Key::Char('c'), true, 0).quit);
    assert!(!s.key(Key::Char('c'), false, 0).quit);
}

#[test]
fn details_scroll() {
    let mut s = loaded();
    while s.pane != Pane::Detail {
        press(&mut s, Key::Tab);
    }
    assert_eq!(s.key(Key::Down, false, 0).scroll, Scroll::Down);
    assert_eq!(s.key(Key::PageUp, false, 0).scroll, Scroll::PageUp);
    assert_eq!(s.key(Key::Char('2'), false, 0).scroll, Scroll::Reset);
}

#[test]
fn errors_show_in_the_status() {
    let mut s = State::new(0);
    assert_eq!(s.status(0, "/s"), "Connecting...");
    let request = s.ask(0).unwrap();
    s.accept(request, Err("gone\nfor now".to_owned()), 5);
    assert_eq!(s.status(6, "/s"), "Unavailable: gone for now");
    let t = loaded();
    assert_eq!(t.status(10 + 3_000_000_000, "/s"), "updated 3s ago | /s");
}

#[test]
fn queries_follow_the_request() {
    let mut s = loaded();
    assert_eq!(expert_query(&s.request, 5), Ok(None));
    assert_eq!(layer_query(&s.request), (0, PAGE_SIZE));
    s.request.tab = Tab::Experts;
    s.request.layer = 3;
    s.request.offset = 8;
    assert_eq!(expert_query(&s.request, 5), Ok(Some((3, 8, PAGE_SIZE))));
    assert_eq!(
        expert_query(&s.request, 3),
        Err("layer 3 is unavailable; return to Layers".to_owned())
    );
}

#[test]
fn the_body_is_divided() {
    let s = loaded();
    assert_eq!(divide(&s, 1, 30), Division::Nothing);
    assert_eq!(divide(&s, 100, 0), Division::Nothing);
    assert_eq!(divide(&s, 64, 30), Division::Single(s.pane));
    assert_eq!(divide(&s, 65, 12), Division::Split { charts: true });
    assert_eq!(help_area(1, 0, 100, 30), (18, 4, 66, 22));
    assert_eq!(help_area(0, 0, 10, 5), (0, 0, 10, 5));
}

#[test]
fn a_snapshot_gives_its_rows() {
    let s = snapshot(vec![4, 5, 6], Some(8));
    assert_eq!((s.len(), s.next_offset()), (3, Some(8)));
    assert_eq!(s.row(2).map(|(id, _)| id), Some(6));
    assert!(s.row(3).is_none());
    let e = experts(&[7, 9]);
    assert_eq!((e.len(), e.next_offset()), (2, None));
    assert_eq!(e.row(1).map(|(id, c)| (id, c.read_bytes_requested)), Some((11, 9)));
}

#[test]
fn a_view_reports_its_entries() {
    let view = layers(vec![4, 5], Some(2));
    let sections = view.report().sections;
    assert_eq!(sections.len(), 4);
    assert!(matches!(&sections[3], Section::Note(n) if n == "Next page: --offset 2."));
    assert_eq!(view.detail_report(1).sections.len(), 6);
    assert!(view.detail_report(2).sections.is_empty());
    assert_eq!(experts(&[1]).report().sections.len(), 3);
    assert_eq!(experts(&[1]).detail_report(0).sections.len(), 1);
    assert!(experts(&[1]).detail_report(1).sections.is_empty());
}

#[test]
fn rows_show_their_counters() {
    let c = ExpertCounters {
        selected_rows: 12,
        cache_hits: 2,
        cache_misses: 1,
        read_bytes_requested: 2_460_000,
        ..ExpertCounters::default()
    };
    assert_eq!(cells(7, &c, false), ["7", "12", "66.7%", "2.5"]);
    assert_eq!(cells(7, &c, true), ["7", "12", "66.7%", ""]);
    assert_eq!(cells(0, &ExpertCounters::default(), false), ["0", "0", "n/a", "0.0"]);
    assert_eq!(megabytes(1_000_000), "1.0");
    assert_eq!(largest(&experts(&[3, 9, 4])), 9);
    assert_eq!(largest(&experts(&[0])), 1);
    assert_eq!(largest(&layers(vec![], None)), 1);
    let mut s = loaded();
    assert_eq!(title(&s.request), " Layers / totals / offset 0 ");
    s.request.tab = Tab::Experts;
    s.request.offset = 16;
    assert_eq!(title(&s.request), " Experts / totals / offset 16 ");
}

#[test]
fn charts_are_captioned() {
    let mut h = History::new();
    assert_eq!(caption(&h, Series::Reads, false), "n/a MB/s");
    h.observe(Some(counters(4 * SECOND, 0)));
    h.observe(Some(counters(8 * SECOND, 10_000_000)));
    assert_eq!(caption(&h, Series::Reads, false), "2.5 MB/s");
    assert_eq!(caption(&h, Series::Coverage, true), "66.7 % (stale)");
    assert_eq!(caption(&h, Series::Wait, false), "0.0 ms/s");
    assert_eq!(label(Series::Wait), "CPU read wait");
    assert_eq!((factor(Series::Reads), factor(Series::Coverage)), (1000, 100));
}

#[test]
fn two_observations_behind_a_gap_are_measured() {
    let mut h = History::new();
    h.observe(Some(counters(4 * SECOND, 100)));
    h.disconnect();
    h.observe(Some(counters(12 * SECOND, 500)));
    assert!(h.samples.last().unwrap().values.reads.is_none());
    h.observe(Some(counters(16 * SECOND, 700)));
    let last = h.samples.last().unwrap();
    assert_eq!((last.time, last.values.reads), (16 * SECOND, ratio(200, 4 * SECOND)));
}

#[test]
fn inspection_is_left_where_it_began() {
    let mut s = loaded();
    press(&mut s, Key::Char('2'));
    let request = s.ask(20).unwrap();
    s.accept(request, Ok(snapshot(vec![4, 5, 6], Some(8))), 30);
    let (before, selected, pages) = (s.request, s.selected, s.previous.clone());
    s.inspect(40);
    assert_eq!((s.request.tab, s.request.layer), (Tab::Experts, 4));
    assert!(!s.escape(50));
    assert_eq!((s.request.tab, s.request.offset, s.request.layer), (before.tab, before.offset, before.layer));
    assert_eq!((s.selected, s.previous.clone()), (selected, pages));
    assert!(s.request.generation > before.generation);
    assert!(s.escape(60));
}
