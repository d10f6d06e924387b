use cherenkov::number::Real32;
use cherenkov::qwen4_exp::gpu::activity::layers::{LayerStats, PhaseStats};
use cherenkov::qwen4_exp::gpu::activity::reads::{ReadSource, ReadStats, ReadTracker};
use cherenkov::qwen4_exp::gpu::activity::{compare_prediction, ActivityError, ExpertActivity};
use cherenkov::qwen4_exp::gpu::model::RecordLayout;
use cherenkov::qwen4_exp::gpu::phases::{
    accumulate_phases, clock_scale, collect_phases, ensure_indices, observation_delay, sample_count, trunk_slots, window,
    ClockSample, CpuPhase, CpuWindow, GpuTiming, MachTimebase, Scale,
};
use cherenkov::qwen4_exp::manifest::ExpertLayout;

fn activity() -> ExpertActivity {
    ExpertActivity::new(&ExpertLayout {
        layers: 2,
        experts: 4,
        inter: 1,
        hidden: 1,
        group: 1,
        record_bytes: 1,
        record_stride: 1,
        layer_prefixes: vec!["a".to_owned(), "b".to_owned()],
        gate_w: 0,
        up_w: 0,
        down_w: 0,
        gate_s: 0,
        gate_b: 0,
        up_s: 0,
        up_b: 0,
        down_s: 0,
        down_b: 0,
    })
}

#[test]
fn new_activity_has_a_record_for_each_expert() {
    let mut a = activity();
    assert_eq!((a.records.len(), a.layers.len(), a.experts_per_layer), (8, 2, 4));
    assert_eq!(a.validate_dimensions(), Ok(()));
    assert_eq!(a.layer_for_record(5), 1);
    a.records.pop();
    assert_eq!(a.validate_dimensions(), Err(ActivityError::RecordCount));
    assert!(!ActivityError::RecordCount.message().is_empty());
}

#[test]
fn lookups_hit_or_miss() {
    let mut a = activity();
    a.lookup(1, 3, true);
    a.lookup(1, 2, false);
    let c = a.records[1];
    assert_eq!((c.selected_rows, c.cache_hits, c.cache_misses), (5, 1, 1));
}

#[test]
fn routed_experts_count_their_rows() {
    let mut a = activity();
    a.record_routed_experts(&[0, 2, 2, 0, 2], &[0, 2], &[4, 6], &[true, false]);
    assert_eq!((a.records[4].selected_rows, a.records[4].cache_hits), (2, 1));
    assert_eq!((a.records[6].selected_rows, a.records[6].cache_misses), (3, 1));
}

#[test]
fn reads_are_counted_unless_faked() {
    let mut a = activity();
    a.record_read_plan(&[7, 3], &[(1, 10), (0, 20), (1, 5)], false);
    assert_eq!((a.records[3].read_requests, a.records[3].read_bytes_requested), (2, 15));
    assert_eq!((a.records[7].read_requests, a.records[7].read_bytes_requested), (1, 20));
    a.record_read_plan(&[7], &[(0, 99)], true);
    assert_eq!(a.records[7].read_bytes_requested, 20);
}

#[test]
fn predictions_are_split_by_what_came() {
    let p = compare_prediction(&[1, 2, 3], &[2, 3, 5], &[(12, true), (11, false)], 10);
    assert_eq!((p.target_batches, p.predicted_selected, p.predicted_unused, p.selected_unpredicted), (1, 2, 1, 1));
    assert_eq!(p.predicted_selected + p.predicted_unused, 3);
    assert_eq!(p.predicted_selected + p.selected_unpredicted, 3);
    assert_eq!((p.needed_prefetch_ready, p.needed_prefetch_late), (1, 0));
    let mut a = activity();
    a.record_prediction(1, &[1], &[1], &[]);
    assert_eq!(a.layers[1].prediction.predicted_selected, 1);
    assert_eq!(a.layers[0].prediction.predicted_selected, 0);
}

#[test]
fn weak_misses_are_eligible_for_a_cut() {
    let mut a = activity();
    let weights = [0.1f32, 0.9, 0.1].map(|w| Real32 { bits: w.to_bits() });
    let cut = Real32 { bits: 0.5f32.to_bits() };
    a.record_cut_eligible(0, &[0, 0, 2], &[true, true, true], &weights, &cut, false);
    assert_eq!(a.layers[0].quant[0].eligible_weak_misses, 1);
    assert_eq!(a.layers[0].quant[2].eligible_weak_misses, 1);
    a.record_cut_eligible(0, &[0], &[true], &weights[..1], &cut, true);
    assert_eq!(a.layers[0].quant[0].eligible_weak_misses, 1);
    a.record_cut_eligible(0, &[0], &[false], &weights[..1], &cut, false);
    assert_eq!(a.layers[0].quant[0].eligible_weak_misses, 1);
}

#[test]
fn precisions_are_counted() {
    let mut a = activity();
    a.record_quant_selection(1, &[0, 2], &[7, 7, 8], &[7, 8]);
    let q = &a.layers[1].quant;
    assert_eq!((q[0].selected_experts, q[0].selected_rows, q[0].bits), (1, 2, 4));
    assert_eq!((q[2].selected_experts, q[2].selected_rows, q[2].bits), (1, 1, 2));
}

#[test]
fn reads_complete_or_fail() {
    let mut t = ReadTracker::new(2);
    let mut ticket = t.ticket(1, 0, ReadSource::Demand, 100);
    assert!(!ticket.done());
    assert_eq!((t.layers[1][0].demand.requested_reads, t.layers[1][0].demand.requested_bytes), (1, 100));
    t.finish(&mut ticket, 100, 7);
    assert!(ticket.done());
    let s = t.layers[1][0].demand;
    assert_eq!((s.completed_reads, s.failed_reads, s.completed_bytes), (1, 0, 100));
    assert_eq!((s.read_ns, s.max_read_ns), (7, 7));
    let mut short = t.ticket(1, 0, ReadSource::Demand, 100);
    t.finish(&mut short, 40, 3);
    let s = t.layers[1][0].demand;
    assert_eq!(s.failed_reads, 1);
    assert_eq!(s.completed_reads + s.failed_reads, s.requested_reads);
}

#[test]
fn read_sums_do_not_depend_on_the_order() {
    let a = ReadStats { requested_reads: 1, requested_bytes: 2, completed_reads: 3, failed_reads: 4, completed_bytes: 5, read_ns: 6, max_read_ns: 7 };
    let b = ReadStats { max_read_ns: 2, ..a };
    let (mut x, mut y) = (a, b);
    x.add(b);
    y.add(a);
    assert_eq!((x.requested_bytes, x.max_read_ns), (4, 7));
    assert_eq!((y.requested_bytes, y.max_read_ns), (4, 7));
}

#[test]
fn an_empty_layer_adds_nothing() {
    let mut a = activity();
    a.record_prediction(0, &[1, 2], &[2], &[]);
    let mut sum = a.layers[0];
    sum.add(&LayerStats::default());
    assert_eq!(sum.prediction.predicted_unused, a.layers[0].prediction.predicted_unused);
    assert_eq!(sum.quant[1].bits, 3);
}

#[test]
fn a_snapshot_takes_the_reads_along() {
    let mut t = ReadTracker::new(2);
    t.ticket(0, 1, ReadSource::Prefetch, 9);
    let s = activity().snapshot(&t, 55, true);
    assert_eq!(s.layers[0].quant[1].reads.prefetch.requested_bytes, 9);
    assert_eq!((s.elapsed_ns, s.gpu_timestamps_available), (55, true));
    assert_eq!(s.layer_prefixes, vec!["a", "b"]);
}

#[test]
fn timing_is_initialized() {
    assert!(matches!(GpuTiming::initialize(true, Ok(true)), GpuTiming::Available));
    assert!(matches!(GpuTiming::initialize(true, Ok(false)), GpuTiming::Unsupported));
    assert!(matches!(GpuTiming::initialize(false, Ok(true)), GpuTiming::Disabled { .. }));
    match GpuTiming::initialize(true, Err("broken".to_owned())) {
        GpuTiming::Failed { error } => assert_eq!(error, "broken"),
        other => panic!("{other:?}"),
    }
}

#[test]
fn sample_indices_stay_inside() {
    assert_eq!(sample_count(3), 13);
    assert!(ensure_indices(13, Some(11), 12).is_ok());
    assert!(ensure_indices(13, None, 13).is_err());
    assert!(ensure_indices(13, Some(13), 12).is_err());
}

#[test]
fn clocks_are_scaled() {
    let t = MachTimebase::new(0, 125, 3).unwrap();
    assert_eq!(t.nanoseconds(24), 1000);
    assert_eq!(t.nanoseconds(1 << 60), ((1u128 << 60) * 125 / 3) as u64);
    assert!(MachTimebase::new(1, 125, 3).is_err());
    assert!(MachTimebase::new(0, 125, 0).is_err());
    let before = ClockSample { cpu_ns: 100, gpu: 10 };
    let after = ClockSample { cpu_ns: 300, gpu: 110 };
    assert_eq!(clock_scale(before, after), Some(Scale { ns: 200, ticks: 100 }));
    assert_eq!(clock_scale(after, before), None);
    let scale = Scale { ns: 200, ticks: 100 };
    assert_eq!(observation_delay(150, 20, before, scale), 30);
    assert_eq!(observation_delay(110, 20, before, scale), 0);
}

#[test]
fn windows_are_counted_once() {
    let before = ClockSample { cpu_ns: 100, gpu: 10 };
    let after = ClockSample { cpu_ns: 300, gpu: 110 };
    let mut cpu = CpuWindow { observed: 0, resident: 0, fetched: 0 };
    cpu.mark(CpuPhase::Observed, 150);
    cpu.mark(CpuPhase::ResidentRelease, 170);
    cpu.mark(CpuPhase::FetchedRelease, 175);
    let stamps = [20, 30, 50, 55, 60];
    let w = window(Some(&stamps), 0, before, after, cpu);
    assert_eq!((w.gpu_windows, w.invalid_gpu_windows), (1, 0));
    assert_eq!((w.cpu_prepare_ns, w.cpu_after_resident_release_ns), (20, 5));
    let p = accumulate_phases(&stamps, Scale { ns: 200, ticks: 100 }).unwrap();
    assert_eq!(
        (p.router_to_resident_ns, p.resident_ns, p.resident_to_fetched_ns, p.fetched_stage_ns),
        (20, 40, 10, 10)
    );
    for bad in [[20, 30, u64::MAX, 55, 60], [0, 30, 50, 55, 60], [20, 30, 25, 55, 60]] {
        let w = window(Some(&bad), 0, before, after, cpu);
        assert_eq!((w.gpu_windows, w.invalid_gpu_windows), (0, 1));
        assert_eq!(w.resident_ns, 0);
        assert!(accumulate_phases(&bad, Scale { ns: 1, ticks: 1 }).is_none());
    }
    assert_eq!(window(None, 0, before, after, cpu).invalid_gpu_windows, 1);
}

#[test]
fn windows_go_to_their_layers() {
    assert_eq!(trunk_slots(&[4, 5, 6], 2, Some(9)), vec![(0, 4), (1, 5), (3, 9)]);
    let mut layers = vec![LayerStats::default(); 2];
    let cpu = [CpuWindow { observed: 0, resident: 0, fetched: 0 }; 1];
    let before = ClockSample { cpu_ns: 0, gpu: 1 };
    let after = ClockSample { cpu_ns: 100, gpu: 101 };
    collect_phases(&mut layers, &[(0, 1)], Some(&[10, 20, 30, 40, 50]), Some(before), after, &cpu);
    assert_eq!(layers[1].phases.resident_ns, 10);
    assert_eq!(layers[0].phases.gpu_windows, 0);
    collect_phases(&mut layers, &[(0, 1)], None, None, after, &cpu);
    assert_eq!(layers[1].phases.gpu_windows, 1);
    assert_eq!(PhaseStats::default().gpu_windows, 0);
}

#[test]
fn a_measured_read_changes_its_own_place() {
    let mut t = ReadTracker::new(2);
    let mut other = t.ticket(0, 2, ReadSource::Prefetch, 5);
    let mut ticket = t.ticket(1, 2, ReadSource::Demand, 100);
    ticket.measure(&mut t, || (100, 9));
    assert!(ticket.done() && !other.done());
    let s = t.layers[1][2].demand;
    assert_eq!((s.requested_reads, s.completed_reads, s.failed_reads), (1, 1, 0));
    assert_eq!((s.completed_bytes, s.read_ns, s.max_read_ns), (100, 9, 9));
    assert_eq!((t.layers[0][2].prefetch.requested_reads, t.layers[0][2].prefetch.completed_reads), (1, 0));
    assert_eq!(t.layers[1][2].prefetch.requested_reads, 0);
    other.measure(&mut t, || (4, 2));
    let s = t.layers[0][2].prefetch;
    assert_eq!((s.completed_reads, s.failed_reads, s.completed_bytes), (0, 1, 4));
}

#[test]
fn records_keep_their_layout() {
    let mut e = ExpertLayout {
        layers: 2,
        experts: 4,
        inter: 1,
        hidden: 1,
        group: 1,
        record_bytes: 90,
        record_stride: 100,
        layer_prefixes: Vec::new(),
        gate_w: 1,
        up_w: 2,
        down_w: 3,
        gate_s: 4,
        gate_b: 5,
        up_s: 6,
        up_b: 7,
        down_s: 8,
        down_b: 9,
    };
    let r = RecordLayout::four_bit(&e);
    assert_eq!((r.gate_w, r.up_w, r.down_w, r.gate_s, r.gate_b), (1, 2, 3, 4, 5));
    assert_eq!((r.up_s, r.up_b, r.down_s, r.down_b, r.bits, r.stride), (6, 7, 8, 9, 4, 100));
    assert_eq!(r.kind(), 0);
    e.record_stride = 128;
    assert_eq!(RecordLayout::four_bit(&e).stride, 128);
}
