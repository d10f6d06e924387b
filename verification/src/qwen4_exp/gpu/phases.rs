//! The windows of a step's passes, from timestamps that the device took and marks that the
//! processor made.

use super::activity::layers::{LayerStats, PhaseStats};
use vstd::prelude::*;
use vstd::string::*;

verus! {

/// Whether the device's passes are timed.
#[derive(Debug)]
pub enum GpuTiming {
    NotInitialized,
    Available,
    Unsupported,
    Disabled { reason: String },
    Failed { error: String },
}

impl GpuTiming {
    /// The state after an attempt to make a timer: there is one, there is none for this
    /// device, or the attempt failed. Nothing is attempted where a layer cap changes the
    /// passes.
    pub fn initialize(enabled: bool, made: Result<bool, String>) -> (r: GpuTiming)
        ensures
            if !enabled {
                r matches GpuTiming::Disabled { reason } && reason@
                    == "diagnostic layer cap changes the compute-pass layout"@
            } else {
                match made {
                    Ok(true) => r is Available,
                    Ok(false) => r is Unsupported,
                    Err(e) => r matches GpuTiming::Failed { error } && error@ == e@,
                }
            },
    {
        if !enabled {
            return GpuTiming::Disabled {
                reason: "diagnostic layer cap changes the compute-pass layout".to_owned(),
            };
        }
        match made {
            Ok(true) => GpuTiming::Available,
            Ok(false) => GpuTiming::Unsupported,
            Err(error) => GpuTiming::Failed { error },
        }
    }

    /// The same state.
    pub open spec fn same_as(self, other: GpuTiming) -> bool {
        match (self, other) {
            (GpuTiming::Disabled { reason: a }, GpuTiming::Disabled { reason: b }) => a@ == b@,
            (GpuTiming::Failed { error: a }, GpuTiming::Failed { error: b }) => a@ == b@,
            _ => self == other,
        }
    }

    pub fn copy(&self) -> (r: GpuTiming)
        ensures
            r.same_as(*self),
    {
        match self {
            GpuTiming::NotInitialized => GpuTiming::NotInitialized,
            GpuTiming::Available => GpuTiming::Available,
            GpuTiming::Unsupported => GpuTiming::Unsupported,
            GpuTiming::Disabled { reason } => GpuTiming::Disabled { reason: reason.clone() },
            GpuTiming::Failed { error } => GpuTiming::Failed { error: error.clone() },
        }
    }
}

impl Default for GpuTiming {
    fn default() -> (r: GpuTiming)
        ensures
            r is NotInitialized,
    {
        GpuTiming::NotInitialized
    }
}

/// The timestamps that so many slots need: four for each, and the one that closes the last.
pub fn sample_count(slots: usize) -> (r: usize)
    requires
        4 * slots + 1 <= usize::MAX,
    ensures
        r == 4 * slots + 1,
{
    4 * slots + 1
}

/// Accepts the places of a pass's timestamps.
pub fn ensure_indices(count: usize, start: Option<usize>, end: usize) -> (r: Result<(), &'static str>)
    ensures
        match r {
            Ok(()) => end < count && (start matches Some(s) ==> s < count),
            Err(e) => e@ == "timestamp index exceeds buffer"@ && !(end < count && (start matches Some(s) ==> s < count)),
        },
{
    let inside: bool = match start {
        Some(s) => s < count,
        None => true,
    };
    if end < count && inside {
        Ok(())
    } else {
        Err("timestamp index exceeds buffer")
    }
}

/// The processor's ticks as nanoseconds: so many for so many ticks.
#[derive(Debug, Clone, Copy)]
pub struct MachTimebase {
    pub numerator: u32,
    pub denominator: u32,
}

impl MachTimebase {
    /// What the system says, where it says something usable.
    pub fn new(status: i32, numerator: u32, denominator: u32) -> (r: Result<MachTimebase, &'static str>)
        ensures
            match r {
                Ok(t) => status == 0 && denominator != 0 && t == (MachTimebase { numerator, denominator }),
                Err(e) => e@ == "Mach timebase unavailable"@ && (status != 0 || denominator == 0),
            },
    {
        if status == 0 && denominator != 0 {
            Ok(MachTimebase { numerator, denominator })
        } else {
            Err("Mach timebase unavailable")
        }
    }

    /// Ticks as nanoseconds; a number that does not fit loses its upper bits.
    pub fn nanoseconds(&self, ticks: u64) -> (r: u64)
        requires
            self.denominator != 0,
        ensures
            r == (ticks * self.numerator) / (self.denominator as int) % 0x1_0000_0000_0000_0000,
    {
        let n: u128 = self.numerator as u128;
        assert(ticks * n <= 0xffff_ffff_ffff_ffff * 0xffff_ffff) by (nonlinear_arith)
            requires
                0 <= ticks <= 0xffff_ffff_ffff_ffff,
                0 <= n <= 0xffff_ffff,
        ;
        // Widened before the product: long uptimes times the numerator do not fit.
        let wide: u128 = ticks as u128 * n / self.denominator as u128;
        (wide % 0x1_0000_0000_0000_0000) as u64
    }
}

/// One moment on both clocks.
#[derive(Debug, Clone, Copy)]
pub struct ClockSample {
    pub cpu_ns: u64,
    pub gpu: u64,
}

/// Nanoseconds per so many ticks of the device.
#[derive(Debug, Clone, Copy, PartialEq, Eq, Structural)]
pub struct Scale {
    pub ns: u64,
    pub ticks: u64,
}

/// What passed on both clocks between two moments; nothing where either stood still or went
/// back.
pub open spec fn scale_between(before: ClockSample, after: ClockSample) -> Option<Scale> {
    if after.cpu_ns > before.cpu_ns && after.gpu > before.gpu {
        Some(Scale { ns: (after.cpu_ns - before.cpu_ns) as u64, ticks: (after.gpu - before.gpu) as u64 })
    } else {
        None
    }
}

pub fn clock_scale(before: ClockSample, after: ClockSample) -> (r: Option<Scale>)
    ensures
        r == scale_between(before, after),
{
    if after.cpu_ns > before.cpu_ns && after.gpu > before.gpu {
        Some(Scale { ns: after.cpu_ns - before.cpu_ns, ticks: after.gpu - before.gpu })
    } else {
        None
    }
}

/// Ticks of the device as nanoseconds.
pub open spec fn scaled(ticks: int, scale: Scale) -> int {
    (ticks * scale.ns) / (scale.ticks as int)
}

fn scale_ticks(ticks: u64, scale: Scale) -> (r: u128)
    requires
        scale.ticks > 0,
    ensures
        r == scaled(ticks as int, scale),
        r <= 0xffff_ffff_ffff_ffff * 0xffff_ffff_ffff_ffff,
{
    let ns: u64 = scale.ns;
    let d: u64 = scale.ticks;
    assert(ticks * ns <= 0xffff_ffff_ffff_ffff * 0xffff_ffff_ffff_ffff) by (nonlinear_arith)
        requires
            0 <= ticks <= 0xffff_ffff_ffff_ffff,
            0 <= ns <= 0xffff_ffff_ffff_ffff,
    ;
    assert(0 <= (ticks * ns) / (d as int) <= ticks * ns) by (nonlinear_arith)
        requires
            0 <= ticks * ns,
            d > 0,
    ;
    ticks as u128 * ns as u128 / d as u128
}

/// How long after the device reached a point the processor saw it, on the processor's clock;
/// nothing where it seems to have seen it before.
pub open spec fn delay(observed_ns: u64, gpu_start: u64, before: ClockSample, scale: Scale) -> int {
    let cpu = observed_ns - before.cpu_ns;
    let gpu = if gpu_start >= before.gpu {
        scaled(gpu_start - before.gpu, scale)
    } else {
        -scaled(before.gpu - gpu_start, scale)
    };
    if cpu > gpu {
        cpu - gpu
    } else {
        0
    }
}

pub fn observation_delay(observed_ns: u64, gpu_start: u64, before: ClockSample, scale: Scale) -> (r: u128)
    requires
        scale.ticks > 0,
    ensures
        r == delay(observed_ns, gpu_start, before, scale),
{
    let ahead: bool = gpu_start >= before.gpu;
    let gpu: u128 = if ahead {
        scale_ticks(gpu_start - before.gpu, scale)
    } else {
        scale_ticks(before.gpu - gpu_start, scale)
    };
    if observed_ns >= before.cpu_ns {
        let cpu: u128 = (observed_ns - before.cpu_ns) as u128;
        if ahead {
            if cpu > gpu {
                cpu - gpu
            } else {
                0
            }
        } else {
            cpu + gpu
        }
    } else {
        let cpu: u128 = (before.cpu_ns - observed_ns) as u128;
        if ahead || gpu <= cpu {
            0
        } else {
            gpu - cpu
        }
    }
}

/// The processor's marks of a window, on its own clock.
#[derive(Debug, Clone, Copy)]
pub struct CpuWindow {
    pub observed: u64,
    pub resident: u64,
    pub fetched: u64,
}

/// What the processor marks.
#[derive(Debug, Clone, Copy, PartialEq, Eq, Structural)]
pub enum CpuPhase {
    Observed,
    ResidentRelease,
    FetchedRelease,
}

impl CpuWindow {
    /// The window with one mark made.
    pub open spec fn marked(self, phase: CpuPhase, now: u64) -> CpuWindow {
        match phase {
            CpuPhase::Observed => CpuWindow { observed: now, ..self },
            CpuPhase::ResidentRelease => CpuWindow { resident: now, ..self },
            CpuPhase::FetchedRelease => CpuWindow { fetched: now, ..self },
        }
    }

    pub fn mark(&mut self, phase: CpuPhase, now: u64)
        ensures
            *final(self) == old(self).marked(phase, now),
    {
        match phase {
            CpuPhase::Observed => self.observed = now,
            CpuPhase::ResidentRelease => self.resident = now,
            CpuPhase::FetchedRelease => self.fetched = now,
        }
    }
}

/// A timestamp that the device took.
pub open spec fn taken(t: u64) -> bool {
    t != 0 && t != u64::MAX
}

/// Five timestamps of one window: taken, and in order.
pub open spec fn in_order(p: Seq<u64>) -> bool {
    &&& p.len() == 5
    &&& forall|i: int| 0 <= i < 5 ==> taken(#[trigger] p[i])
    &&& p[0] <= p[1] <= p[2] <= p[3] <= p[4]
}

/// The five timestamps of a slot, where they lie between two moments.
pub open spec fn points_of(timestamps: Option<Seq<u64>>, slot: int, before: ClockSample, after: ClockSample) -> Option<
    Seq<u64>,
> {
    match timestamps {
        Some(all) => if 4 * slot + 5 <= all.len() && all[4 * slot] >= before.gpu && all[4 * slot + 4] <= after.gpu {
            Some(all.subrange(4 * slot, 4 * slot + 5))
        } else {
            None
        },
        None => None,
    }
}

/// Whether a window can be counted.
pub open spec fn countable(points: Option<Seq<u64>>, scale: Option<Scale>) -> bool {
    points is Some && scale is Some && in_order(points->0)
}

/// The difference of two numbers, and nothing below.
pub open spec fn above(a: int, b: int) -> int {
    if a > b {
        a - b
    } else {
        0
    }
}

/// What a window adds to its layer's phases.
pub open spec fn window_adds(
    points: Option<Seq<u64>>,
    before: ClockSample,
    after: ClockSample,
    cpu: CpuWindow,
) -> PhaseStats {
    let scale = scale_between(before, after);
    let marks = PhaseStats {
        cpu_prepare_ns: above(cpu.resident as int, cpu.observed as int) as u128,
        cpu_after_resident_release_ns: above(cpu.fetched as int, cpu.resident as int) as u128,
        ..PhaseStats::nothing()
    };
    if countable(points, scale) {
        let p = points->0;
        let s = scale->0;
        PhaseStats {
            gpu_windows: 1,
            router_to_resident_ns: scaled(p[1] - p[0], s) as u128,
            resident_ns: scaled(p[2] - p[1], s) as u128,
            resident_to_fetched_ns: scaled(p[3] - p[2], s) as u128,
            fetched_stage_ns: scaled(p[4] - p[3], s) as u128,
            cpu_observation_delay_ns: delay(cpu.observed, p[0], before, s) as u128,
            ..marks
        }
    } else {
        PhaseStats { invalid_gpu_windows: 1, ..marks }
    }
}

fn are_in_order(p: &[u64]) -> (r: bool)
    requires
        p@.len() == 5,
    ensures
        r == in_order(p@),
{
    let mut i: usize = 0;
    while i < 5
        invariant
            i <= 5,
            p@.len() == 5,
            forall|k: int| 0 <= k < i ==> taken(#[trigger] p@[k]),
        decreases 5 - i,
    {
        if p[i] == 0 || p[i] == u64::MAX {
            assert(!taken(p@[i as int]));
            return false;
        }
        i = i + 1;
    }
    p[0] <= p[1] && p[1] <= p[2] && p[2] <= p[3] && p[3] <= p[4]
}

/// The nanoseconds of a window's four stages; nothing where its timestamps are missing or out
/// of order.
pub fn accumulate_phases(p: &[u64], scale: Scale) -> (r: Option<PhaseStats>)
    requires
        p@.len() == 5,
        scale.ticks > 0,
    ensures
        match r {
            Some(s) => in_order(p@) && s == (PhaseStats {
                gpu_windows: 1,
                router_to_resident_ns: scaled(p@[1] - p@[0], scale) as u128,
                resident_ns: scaled(p@[2] - p@[1], scale) as u128,
                resident_to_fetched_ns: scaled(p@[3] - p@[2], scale) as u128,
                fetched_stage_ns: scaled(p@[4] - p@[3], scale) as u128,
                ..PhaseStats::nothing()
            }),
            None => !in_order(p@),
        },
{
    if !are_in_order(p) {
        return None;
    }
    let mut stats = PhaseStats::default();
    stats.gpu_windows = 1;
    stats.router_to_resident_ns = scale_ticks(p[1] - p[0], scale);
    stats.resident_ns = scale_ticks(p[2] - p[1], scale);
    stats.resident_to_fetched_ns = scale_ticks(p[3] - p[2], scale);
    stats.fetched_stage_ns = scale_ticks(p[4] - p[3], scale);
    Some(stats)
}

/// What a slot's window adds to its layer's phases.
pub fn window(timestamps: Option<&[u64]>, slot: usize, before: ClockSample, after: ClockSample, cpu: CpuWindow) -> (r:
    PhaseStats)
    requires
        4 * slot + 5 <= usize::MAX,
    ensures
        r == window_adds(
            points_of(
                match timestamps {
                    Some(all) => Some(all@),
                    None => None,
                },
                slot as int,
                before,
                after,
            ),
            before,
            after,
            cpu,
        ),
{
    let scale: Option<Scale> = clock_scale(before, after);
    let mut stats = PhaseStats::default();
    let mut valid: bool = false;
    if let Some(all) = timestamps {
        if 4 * slot + 5 <= all.len() && all[4 * slot] >= before.gpu && all[4 * slot + 4] <= after.gpu {
            let p = vstd::slice::slice_subrange(all, 4 * slot, 4 * slot + 5);
            if let Some(s) = scale {
                if let Some(stages) = accumulate_phases(p, s) {
                    stats = stages;
                    stats.cpu_observation_delay_ns = observation_delay(cpu.observed, p[0], before, s);
                    valid = true;
                }
            }
        }
    }
    if !valid {
        stats.invalid_gpu_windows = 1;
    }
    stats.cpu_prepare_ns = if cpu.resident > cpu.observed {
        (cpu.resident - cpu.observed) as u128
    } else {
        0
    };
    stats.cpu_after_resident_release_ns = if cpu.fetched > cpu.resident {
        (cpu.fetched - cpu.resident) as u128
    } else {
        0
    };
    stats
}

/// The slots of a step's windows, each with the layer that its counts belong to: the first
/// layers of the trunk and, where it ran, the draft block behind all of them.
pub open spec fn slots_of(records: Seq<usize>, layers: int, mtp: Option<usize>) -> Seq<(usize, usize)> {
    let trunk = Seq::new(layers as nat, |i: int| (i as usize, records[i]));
    match mtp {
        Some(record) => trunk.push((records.len() as usize, record)),
        None => trunk,
    }
}

pub fn trunk_slots(records: &[usize], layers: usize, mtp: Option<usize>) -> (r: Vec<(usize, usize)>)
    requires
        layers <= records@.len(),
    ensures
        r@ == slots_of(records@, layers as int, mtp),
{
    let mut slots: Vec<(usize, usize)> = Vec::new();
    let mut i: usize = 0;
    while i < layers
        invariant
            i <= layers <= records@.len(),
            slots@ == Seq::new(i as nat, |k: int| (k as usize, records@[k])),
        decreases layers - i,
    {
        slots.push((i, records[i]));
        i = i + 1;
        assert(slots@ =~= Seq::new(i as nat, |k: int| (k as usize, records@[k])));
    }
    if let Some(record) = mtp {
        slots.push((records.len(), record));
    }
    slots
}

/// Whether the windows of the first slots can be added to their layers.
pub open spec fn collectable(
    layers: Seq<LayerStats>,
    slots: Seq<(usize, usize)>,
    timestamps: Option<Seq<u64>>,
    before: ClockSample,
    after: ClockSample,
    cpu: Seq<CpuWindow>,
    n: int,
) -> bool
    decreases n,
{
    n <= 0 || {
        let (slot, layer) = slots[n - 1];
        &&& collectable(layers, slots, timestamps, before, after, cpu, n - 1)
        &&& layer < layers.len()
        &&& slot < cpu.len()
        &&& 4 * slot + 5 <= usize::MAX
        &&& collected(layers, slots, timestamps, before, after, cpu, n - 1)[layer as int].phases.addable(
            window_adds(points_of(timestamps, slot as int, before, after), before, after, cpu[slot as int]),
        )
    }
}

/// The layers after the windows of the first slots were added.
pub open spec fn collected(
    layers: Seq<LayerStats>,
    slots: Seq<(usize, usize)>,
    timestamps: Option<Seq<u64>>,
    before: ClockSample,
    after: ClockSample,
    cpu: Seq<CpuWindow>,
    n: int,
) -> Seq<LayerStats>
    decreases n,
{
    if n <= 0 {
        layers
    } else {
        let (slot, layer) = slots[n - 1];
        let earlier = collected(layers, slots, timestamps, before, after, cpu, n - 1);
        let adds = window_adds(points_of(timestamps, slot as int, before, after), before, after, cpu[slot as int]);
        earlier.update(
            layer as int,
            LayerStats { phases: earlier[layer as int].phases.plus(adds), ..earlier[layer as int] },
        )
    }
}

proof fn lemma_collectable_prefix(
    layers: Seq<LayerStats>,
    slots: Seq<(usize, usize)>,
    timestamps: Option<Seq<u64>>,
    before: ClockSample,
    after: ClockSample,
    cpu: Seq<CpuWindow>,
    m: int,
    n: int,
)
    requires
        collectable(layers, slots, timestamps, before, after, cpu, n),
        0 <= m <= n,
    ensures
        collectable(layers, slots, timestamps, before, after, cpu, m),
    decreases n - m,
{
    if m < n {
        lemma_collectable_prefix(layers, slots, timestamps, before, after, cpu, m, n - 1);
    }
}

proof fn lemma_collected_len(
    layers: Seq<LayerStats>,
    slots: Seq<(usize, usize)>,
    timestamps: Option<Seq<u64>>,
    before: ClockSample,
    after: ClockSample,
    cpu: Seq<CpuWindow>,
    n: int,
)
    requires
        collectable(layers, slots, timestamps, before, after, cpu, n),
    ensures
        collected(layers, slots, timestamps, before, after, cpu, n).len() == layers.len(),
    decreases n,
{
    if n > 0 {
        lemma_collected_len(layers, slots, timestamps, before, after, cpu, n - 1);
    }
}

/// What a caller's timestamps hold.
pub open spec fn stamps(timestamps: Option<&[u64]>) -> Option<Seq<u64>> {
    match timestamps {
        Some(all) => Some(all@),
        None => None,
    }
}

/// Adds the windows of a step to the layers that they belong to. Nothing was timed where
/// there is no moment before the step.
pub fn collect_phases(
    layers: &mut Vec<LayerStats>,
    slots: &[(usize, usize)],
    timestamps: Option<&[u64]>,
    before: Option<ClockSample>,
    after: ClockSample,
    cpu: &[CpuWindow],
)
    requires
        before matches Some(b) ==> collectable(
            old(layers)@,
            slots@,
            stamps(timestamps),
            b,
            after,
            cpu@,
            slots@.len() as int,
        ),
    ensures
        final(layers)@ == match before {
            Some(b) => collected(old(layers)@, slots@, stamps(timestamps), b, after, cpu@, slots@.len() as int),
            None => old(layers)@,
        },
{
    let before: ClockSample = match before {
        Some(b) => b,
        None => return ,
    };
    let ghost start = layers@;
    let ghost all = stamps(timestamps);
    let mut i: usize = 0;
    while i < slots.len()
        invariant
            i <= slots@.len(),
            start == old(layers)@,
            all == stamps(timestamps),
            collectable(start, slots@, all, before, after, cpu@, slots@.len() as int),
            layers@ == collected(start, slots@, all, before, after, cpu@, i as int),
        decreases slots@.len() - i,
    {
        proof {
            lemma_collectable_prefix(start, slots@, all, before, after, cpu@, i + 1, slots@.len() as int);
            lemma_collected_len(start, slots@, all, before, after, cpu@, i as int);
        }
        let (slot, layer) = slots[i];
        let adds: PhaseStats = window(timestamps, slot, before, after, cpu[slot]);
        let mut stats: LayerStats = layers[layer];
        stats.phases.add(adds);
        layers.set(layer, stats);
        i = i + 1;
    }
}

/// Every window is counted once, as a valid one or as an invalid one.
pub proof fn law_window_counted_once(points: Option<Seq<u64>>, before: ClockSample, after: ClockSample, cpu: CpuWindow)
    ensures
        window_adds(points, before, after, cpu).gpu_windows + window_adds(points, before, after, cpu).invalid_gpu_windows
            == 1,
{
}

/// A window whose timestamps were not all taken adds no time of the device.
pub proof fn law_invalid_window_adds_no_device_time(
    points: Seq<u64>,
    before: ClockSample,
    after: ClockSample,
    cpu: CpuWindow,
    i: int,
)
    requires
        0 <= i < points.len(),
        !taken(points[i]),
        points.len() == 5,
    ensures
        ({
            let adds = window_adds(Some(points), before, after, cpu);
            adds.router_to_resident_ns == 0 && adds.resident_ns == 0 && adds.resident_to_fetched_ns == 0
                && adds.fetched_stage_ns == 0 && adds.cpu_observation_delay_ns == 0
        }),
{
}

/// A clock's scale is the time over the ticks between two samples, and there is none where either did
/// not go on.
pub proof fn law_clock_scale(before: ClockSample, after: ClockSample, r: Option<Scale>)
    requires
        call_ensures(clock_scale, (before, after), r),
    ensures
        r is Some <==> after.cpu_ns > before.cpu_ns && after.gpu > before.gpu,
        r matches Some(s) ==> s.ns == after.cpu_ns - before.cpu_ns && s.ticks == after.gpu - before.gpu && s.ticks > 0,
{
}

/// A window's phases are counted exactly where all five of its points were taken and stand in order;
/// each phase lasts from its point to the next, scaled down to whole nanoseconds.
pub proof fn law_phases_counted(p: &[u64], scale: Scale, r: Option<PhaseStats>)
    requires
        call_ensures(accumulate_phases, (p, scale), r),
        p@.len() == 5,
        scale.ticks > 0,
    ensures
        r is Some <==> {
            &&& p@[0] != 0 && p@[1] != 0 && p@[2] != 0 && p@[3] != 0 && p@[4] != 0
            &&& p@[0] != u64::MAX && p@[1] != u64::MAX && p@[2] != u64::MAX && p@[3] != u64::MAX && p@[4] != u64::MAX
            &&& p@[0] <= p@[1] && p@[1] <= p@[2] && p@[2] <= p@[3] && p@[3] <= p@[4]
        },
        r matches Some(s) ==> {
            &&& s.gpu_windows == 1 && s.invalid_gpu_windows == 0
            &&& s.router_to_resident_ns == ((p@[1] - p@[0]) * scale.ns / (scale.ticks as int)) as u128
            &&& s.resident_ns == ((p@[2] - p@[1]) * scale.ns / (scale.ticks as int)) as u128
            &&& s.resident_to_fetched_ns == ((p@[3] - p@[2]) * scale.ns / (scale.ticks as int)) as u128
            &&& s.fetched_stage_ns == ((p@[4] - p@[3]) * scale.ns / (scale.ticks as int)) as u128
        },
{
    assert(in_order(p@) ==> taken(p@[0]) && taken(p@[1]) && taken(p@[2]) && taken(p@[3]) && taken(p@[4]));
}

/// An observation is late by what passed on the host since the device's point, and never early.
pub proof fn law_observation_delay(observed_ns: u64, gpu_start: u64, before: ClockSample, scale: Scale, r: u128)
    requires
        call_ensures(observation_delay, (observed_ns, gpu_start, before, scale), r),
        scale.ticks > 0,
        gpu_start >= before.gpu,
    ensures
        ({
            let late = observed_ns - before.cpu_ns - (gpu_start - before.gpu) * scale.ns / (scale.ticks as int);
            &&& late >= 0 ==> r == late
            &&& late <= 0 ==> r == 0
        }),
{
}

/// Each mark sets its own moment and leaves the others.
pub proof fn law_marks(w: &mut CpuWindow, phase: CpuPhase, now: u64)
    requires
        call_ensures(CpuWindow::mark, (w, phase, now), ()),
    ensures
        final(w).observed == if phase is Observed {
            now
        } else {
            old(w).observed
        },
        final(w).resident == if phase is ResidentRelease {
            now
        } else {
            old(w).resident
        },
        final(w).fetched == if phase is FetchedRelease {
            now
        } else {
            old(w).fetched
        },
{
}

/// Timestamps are read only within their buffer, which has four for each slot and one more.
pub proof fn law_timestamps_within(slots: usize, count: usize, start: Option<usize>, end: usize, r: Result<(), &'static str>)
    requires
        call_ensures(sample_count, (slots,), count),
        4 * slots + 1 <= usize::MAX,
        call_ensures(ensure_indices, (count, start, end), r),
    ensures
        r is Ok <==> end <= 4 * slots && (start matches Some(s) ==> s <= 4 * slots),
{
}

} // verus!
