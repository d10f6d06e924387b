//! Layer totals separate shared phase windows from precision-specific work.

use super::reads::{ReadSources, ReadStats};
use vstd::prelude::*;

verus! {

/// How predictions of the next layer's experts fared.
#[derive(Debug, Clone, Copy)]
pub struct PredictionStats {
    pub target_batches: u64,
    pub predicted_selected: u64,
    pub predicted_unused: u64,
    pub selected_unpredicted: u64,
    pub predicted_resident: u64,
    pub needed_prefetch_ready: u64,
    pub needed_prefetch_late: u64,
}

impl PredictionStats {
    /// Nothing counted.
    pub open spec fn nothing() -> PredictionStats {
        PredictionStats {
            target_batches: 0,
            predicted_selected: 0,
            predicted_unused: 0,
            selected_unpredicted: 0,
            predicted_resident: 0,
            needed_prefetch_ready: 0,
            needed_prefetch_late: 0,
        }
    }
}

impl Default for PredictionStats {
    fn default() -> (r: PredictionStats)
        ensures
            r == PredictionStats::nothing(),
    {
        PredictionStats {
            target_batches: 0,
            predicted_selected: 0,
            predicted_unused: 0,
            selected_unpredicted: 0,
            predicted_resident: 0,
            needed_prefetch_ready: 0,
            needed_prefetch_late: 0,
        }
    }
}

impl PredictionStats {
    /// Whether the sums can be held.
    pub open spec fn addable(self, other: PredictionStats) -> bool {
        &&& self.target_batches + other.target_batches <= u64::MAX
        &&& self.predicted_selected + other.predicted_selected <= u64::MAX
        &&& self.predicted_unused + other.predicted_unused <= u64::MAX
        &&& self.selected_unpredicted + other.selected_unpredicted <= u64::MAX
        &&& self.predicted_resident + other.predicted_resident <= u64::MAX
        &&& self.needed_prefetch_ready + other.needed_prefetch_ready <= u64::MAX
        &&& self.needed_prefetch_late + other.needed_prefetch_late <= u64::MAX
    }

    /// The sums.
    pub open spec fn plus(self, other: PredictionStats) -> PredictionStats {
        PredictionStats {
            target_batches: (self.target_batches + other.target_batches) as u64,
            predicted_selected: (self.predicted_selected + other.predicted_selected) as u64,
            predicted_unused: (self.predicted_unused + other.predicted_unused) as u64,
            selected_unpredicted: (self.selected_unpredicted + other.selected_unpredicted) as u64,
            predicted_resident: (self.predicted_resident + other.predicted_resident) as u64,
            needed_prefetch_ready: (self.needed_prefetch_ready + other.needed_prefetch_ready) as u64,
            needed_prefetch_late: (self.needed_prefetch_late + other.needed_prefetch_late) as u64,
        }
    }

    pub fn add(&mut self, other: PredictionStats)
        requires
            old(self).addable(other),
        ensures
            *final(self) == old(self).plus(other),
    {
        self.target_batches = self.target_batches + other.target_batches;
        self.predicted_selected = self.predicted_selected + other.predicted_selected;
        self.predicted_unused = self.predicted_unused + other.predicted_unused;
        self.selected_unpredicted = self.selected_unpredicted + other.selected_unpredicted;
        self.predicted_resident = self.predicted_resident + other.predicted_resident;
        self.needed_prefetch_ready = self.needed_prefetch_ready + other.needed_prefetch_ready;
        self.needed_prefetch_late = self.needed_prefetch_late + other.needed_prefetch_late;
    }
}

/// What the phases of a layer's windows took, in nanoseconds.
#[derive(Debug, Clone, Copy)]
pub struct PhaseStats {
    pub service_windows: u64,
    pub service_wall_ns: u128,
    pub service_cpu_ns: u128,
    pub prefetch_wait_ns: u128,
    pub demand_wait_ns: u128,
    pub gpu_windows: u64,
    pub invalid_gpu_windows: u64,
    pub router_to_resident_ns: u128,
    pub resident_ns: u128,
    pub resident_to_fetched_ns: u128,
    pub fetched_stage_ns: u128,
    pub cpu_observation_delay_ns: u128,
    pub cpu_prepare_ns: u128,
    pub cpu_after_resident_release_ns: u128,
}

impl PhaseStats {
    /// Nothing counted.
    pub open spec fn nothing() -> PhaseStats {
        PhaseStats {
            service_windows: 0,
            service_wall_ns: 0,
            service_cpu_ns: 0,
            prefetch_wait_ns: 0,
            demand_wait_ns: 0,
            gpu_windows: 0,
            invalid_gpu_windows: 0,
            router_to_resident_ns: 0,
            resident_ns: 0,
            resident_to_fetched_ns: 0,
            fetched_stage_ns: 0,
            cpu_observation_delay_ns: 0,
            cpu_prepare_ns: 0,
            cpu_after_resident_release_ns: 0,
        }
    }
}

impl Default for PhaseStats {
    fn default() -> (r: PhaseStats)
        ensures
            r == PhaseStats::nothing(),
    {
        PhaseStats {
            service_windows: 0,
            service_wall_ns: 0,
            service_cpu_ns: 0,
            prefetch_wait_ns: 0,
            demand_wait_ns: 0,
            gpu_windows: 0,
            invalid_gpu_windows: 0,
            router_to_resident_ns: 0,
            resident_ns: 0,
            resident_to_fetched_ns: 0,
            fetched_stage_ns: 0,
            cpu_observation_delay_ns: 0,
            cpu_prepare_ns: 0,
            cpu_after_resident_release_ns: 0,
        }
    }
}

impl PhaseStats {
    /// Whether the sums can be held.
    pub open spec fn addable(self, other: PhaseStats) -> bool {
        &&& self.service_windows + other.service_windows <= u64::MAX
        &&& self.service_wall_ns + other.service_wall_ns <= u128::MAX
        &&& self.service_cpu_ns + other.service_cpu_ns <= u128::MAX
        &&& self.prefetch_wait_ns + other.prefetch_wait_ns <= u128::MAX
        &&& self.demand_wait_ns + other.demand_wait_ns <= u128::MAX
        &&& self.gpu_windows + other.gpu_windows <= u64::MAX
        &&& self.invalid_gpu_windows + other.invalid_gpu_windows <= u64::MAX
        &&& self.router_to_resident_ns + other.router_to_resident_ns <= u128::MAX
        &&& self.resident_ns + other.resident_ns <= u128::MAX
        &&& self.resident_to_fetched_ns + other.resident_to_fetched_ns <= u128::MAX
        &&& self.fetched_stage_ns + other.fetched_stage_ns <= u128::MAX
        &&& self.cpu_observation_delay_ns + other.cpu_observation_delay_ns <= u128::MAX
        &&& self.cpu_prepare_ns + other.cpu_prepare_ns <= u128::MAX
        &&& self.cpu_after_resident_release_ns + other.cpu_after_resident_release_ns <= u128::MAX
    }

    /// The sums.
    pub open spec fn plus(self, other: PhaseStats) -> PhaseStats {
        PhaseStats {
            service_windows: (self.service_windows + other.service_windows) as u64,
            service_wall_ns: (self.service_wall_ns + other.service_wall_ns) as u128,
            service_cpu_ns: (self.service_cpu_ns + other.service_cpu_ns) as u128,
            prefetch_wait_ns: (self.prefetch_wait_ns + other.prefetch_wait_ns) as u128,
            demand_wait_ns: (self.demand_wait_ns + other.demand_wait_ns) as u128,
            gpu_windows: (self.gpu_windows + other.gpu_windows) as u64,
            invalid_gpu_windows: (self.invalid_gpu_windows + other.invalid_gpu_windows) as u64,
            router_to_resident_ns: (self.router_to_resident_ns + other.router_to_resident_ns) as u128,
            resident_ns: (self.resident_ns + other.resident_ns) as u128,
            resident_to_fetched_ns: (self.resident_to_fetched_ns + other.resident_to_fetched_ns) as u128,
            fetched_stage_ns: (self.fetched_stage_ns + other.fetched_stage_ns) as u128,
            cpu_observation_delay_ns: (self.cpu_observation_delay_ns + other.cpu_observation_delay_ns) as u128,
            cpu_prepare_ns: (self.cpu_prepare_ns + other.cpu_prepare_ns) as u128,
            cpu_after_resident_release_ns: (self.cpu_after_resident_release_ns + other.cpu_after_resident_release_ns) as u128,
        }
    }

    pub fn add(&mut self, other: PhaseStats)
        requires
            old(self).addable(other),
        ensures
            *final(self) == old(self).plus(other),
    {
        self.service_windows = self.service_windows + other.service_windows;
        self.service_wall_ns = self.service_wall_ns + other.service_wall_ns;
        self.service_cpu_ns = self.service_cpu_ns + other.service_cpu_ns;
        self.prefetch_wait_ns = self.prefetch_wait_ns + other.prefetch_wait_ns;
        self.demand_wait_ns = self.demand_wait_ns + other.demand_wait_ns;
        self.gpu_windows = self.gpu_windows + other.gpu_windows;
        self.invalid_gpu_windows = self.invalid_gpu_windows + other.invalid_gpu_windows;
        self.router_to_resident_ns = self.router_to_resident_ns + other.router_to_resident_ns;
        self.resident_ns = self.resident_ns + other.resident_ns;
        self.resident_to_fetched_ns = self.resident_to_fetched_ns + other.resident_to_fetched_ns;
        self.fetched_stage_ns = self.fetched_stage_ns + other.fetched_stage_ns;
        self.cpu_observation_delay_ns = self.cpu_observation_delay_ns + other.cpu_observation_delay_ns;
        self.cpu_prepare_ns = self.cpu_prepare_ns + other.cpu_prepare_ns;
        self.cpu_after_resident_release_ns = self.cpu_after_resident_release_ns + other.cpu_after_resident_release_ns;
    }
}

/// The work of one precision.
#[derive(Debug, Clone, Copy)]
pub struct QuantStats {
    pub bits: u8,
    pub selected_rows: u64,
    pub selected_experts: u64,
    pub eligible_weak_misses: u64,
    pub cut_experts: u64,
    pub cut_batches: u64,
    pub reads: ReadSources,
}

impl QuantStats {
    /// Nothing counted for a precision.
    pub open spec fn nothing(bits: u8) -> QuantStats {
        QuantStats {
            bits,
            selected_rows: 0,
            selected_experts: 0,
            eligible_weak_misses: 0,
            cut_experts: 0,
            cut_batches: 0,
            reads: ReadSources::nothing(),
        }
    }

    pub fn new(bits: u8) -> (r: QuantStats)
        ensures
            r == QuantStats::nothing(bits),
    {
        QuantStats {
            bits,
            selected_rows: 0,
            selected_experts: 0,
            eligible_weak_misses: 0,
            cut_experts: 0,
            cut_batches: 0,
            reads: ReadSources::default(),
        }
    }
}

impl QuantStats {
    /// Whether the sums can be held.
    pub open spec fn addable(self, other: QuantStats) -> bool {
        &&& self.selected_rows + other.selected_rows <= u64::MAX
        &&& self.selected_experts + other.selected_experts <= u64::MAX
        &&& self.eligible_weak_misses + other.eligible_weak_misses <= u64::MAX
        &&& self.cut_experts + other.cut_experts <= u64::MAX
        &&& self.cut_batches + other.cut_batches <= u64::MAX
        &&& self.reads.addable(other.reads)
    }

    /// The sums.
    pub open spec fn plus(self, other: QuantStats) -> QuantStats {
        QuantStats {
            bits: self.bits,
            selected_rows: (self.selected_rows + other.selected_rows) as u64,
            selected_experts: (self.selected_experts + other.selected_experts) as u64,
            eligible_weak_misses: (self.eligible_weak_misses + other.eligible_weak_misses) as u64,
            cut_experts: (self.cut_experts + other.cut_experts) as u64,
            cut_batches: (self.cut_batches + other.cut_batches) as u64,
            reads: self.reads.plus(other.reads),
        }
    }

    pub fn add(&mut self, other: QuantStats)
        requires
            old(self).addable(other),
        ensures
            *final(self) == old(self).plus(other),
    {
        self.selected_rows = self.selected_rows + other.selected_rows;
        self.selected_experts = self.selected_experts + other.selected_experts;
        self.eligible_weak_misses = self.eligible_weak_misses + other.eligible_weak_misses;
        self.cut_experts = self.cut_experts + other.cut_experts;
        self.cut_batches = self.cut_batches + other.cut_batches;
        self.reads.add(other.reads);
    }
}

/// Everything that is counted of a layer: its three precisions come widest first.
#[derive(Debug, Clone, Copy)]
pub struct LayerStats {
    pub prediction: PredictionStats,
    pub phases: PhaseStats,
    pub quant: [QuantStats; 3],
}

impl LayerStats {
    /// Whether nothing has been counted.
    pub open spec fn empty(self) -> bool {
        &&& self.prediction == PredictionStats::nothing()
        &&& self.phases == PhaseStats::nothing()
        &&& self.quant@ == seq![QuantStats::nothing(4), QuantStats::nothing(3), QuantStats::nothing(2)]
    }

    /// Whether the sums can be held.
    pub open spec fn addable(self, other: LayerStats) -> bool {
        &&& self.prediction.addable(other.prediction)
        &&& self.phases.addable(other.phases)
        &&& forall|k: int| 0 <= k < 3 ==> (#[trigger] self.quant@[k]).addable(other.quant@[k])
    }

    /// Whether a layer's counters are the sums of two layers'.
    pub open spec fn sums(self, a: LayerStats, b: LayerStats) -> bool {
        &&& self.prediction == a.prediction.plus(b.prediction)
        &&& self.phases == a.phases.plus(b.phases)
        &&& forall|k: int| 0 <= k < 3 ==> #[trigger] self.quant@[k] == a.quant@[k].plus(b.quant@[k])
    }

    pub fn add(&mut self, other: &LayerStats)
        requires
            old(self).addable(*other),
        ensures
            final(self).sums(*old(self), *other),
    {
        self.prediction.add(other.prediction);
        self.phases.add(other.phases);
        let mut k: usize = 0;
        let ghost start = self.quant@;
        while k < 3
            invariant
                k <= 3,
                start.len() == 3,
                forall|j: int| 0 <= j < 3 ==> (#[trigger] start[j]).addable(other.quant@[j]),
                forall|j: int| 0 <= j < k ==> #[trigger] self.quant@[j] == start[j].plus(other.quant@[j]),
                forall|j: int| k <= j < 3 ==> #[trigger] self.quant@[j] == start[j],
                self.prediction == old(self).prediction.plus(other.prediction),
                self.phases == old(self).phases.plus(other.phases),
            decreases 3 - k,
        {
            let mut q: QuantStats = self.quant[k];
            assert(start[k as int].addable(other.quant@[k as int]));
            q.add(other.quant[k]);
            self.quant[k] = q;
            k = k + 1;
        }
    }

    /// Whether the sums over sources and precisions can be held.
    pub open spec fn reads_fit(self) -> bool {
        let q = self.quant@;
        &&& q[0].reads.totals_fit()
        &&& q[1].reads.totals_fit()
        &&& q[2].reads.totals_fit()
        &&& q[0].reads.sum().addable(q[1].reads.sum())
        &&& q[0].reads.sum().plus(q[1].reads.sum()).addable(q[2].reads.sum())
    }

    /// All reads of a layer together.
    pub open spec fn all_reads(self) -> ReadStats {
        let q = self.quant@;
        q[0].reads.sum().plus(q[1].reads.sum()).plus(q[2].reads.sum())
    }

    pub fn reads(&self) -> (r: ReadStats)
        requires
            self.reads_fit(),
        ensures
            r == self.all_reads(),
    {
        let mut total: ReadStats = self.quant[0].reads.total();
        total.add(self.quant[1].reads.total());
        total.add(self.quant[2].reads.total());
        total
    }
}

impl Default for LayerStats {
    fn default() -> (r: LayerStats)
        ensures
            r.empty(),
    {
        let r = LayerStats {
            prediction: PredictionStats::default(),
            phases: PhaseStats::default(),
            quant: [QuantStats::new(4), QuantStats::new(3), QuantStats::new(2)],
        };
        assert(r.quant@ =~= seq![QuantStats::nothing(4), QuantStats::nothing(3), QuantStats::nothing(2)]);
        r
    }
}

/// Adding a layer that counted nothing changes no count.
pub proof fn law_empty_layer_adds_nothing(a: LayerStats, b: LayerStats, c: LayerStats)
    requires
        b.empty(),
        c.sums(a, b),
    ensures
        c.prediction == a.prediction,
        c.phases == a.phases,
        c.quant@ == a.quant@,
{
    assert forall|k: int| 0 <= k < 3 implies #[trigger] c.quant@[k] == a.quant@[k] by {
        assert(c.quant@[k] == a.quant@[k].plus(b.quant@[k]));
    }
    assert(c.quant@ =~= a.quant@);
}

/// Predictions are added up each count to its own.
pub proof fn law_predictions_added(a: &mut PredictionStats, b: PredictionStats)
    requires
        call_ensures(PredictionStats::add, (a, b), ()),
        old(a).addable(b),
    ensures
        final(a).target_batches == old(a).target_batches + b.target_batches,
        final(a).predicted_selected == old(a).predicted_selected + b.predicted_selected,
        final(a).predicted_unused == old(a).predicted_unused + b.predicted_unused,
        final(a).selected_unpredicted == old(a).selected_unpredicted + b.selected_unpredicted,
        final(a).needed_prefetch_ready == old(a).needed_prefetch_ready + b.needed_prefetch_ready,
        final(a).needed_prefetch_late == old(a).needed_prefetch_late + b.needed_prefetch_late,
{
}

/// Phases are added up each time to its own.
pub proof fn law_phases_added(a: &mut PhaseStats, b: PhaseStats)
    requires
        call_ensures(PhaseStats::add, (a, b), ()),
        old(a).addable(b),
    ensures
        final(a).service_windows == old(a).service_windows + b.service_windows,
        final(a).service_wall_ns == old(a).service_wall_ns + b.service_wall_ns,
        final(a).service_cpu_ns == old(a).service_cpu_ns + b.service_cpu_ns,
        final(a).prefetch_wait_ns == old(a).prefetch_wait_ns + b.prefetch_wait_ns,
        final(a).demand_wait_ns == old(a).demand_wait_ns + b.demand_wait_ns,
        final(a).gpu_windows == old(a).gpu_windows + b.gpu_windows,
        final(a).invalid_gpu_windows == old(a).invalid_gpu_windows + b.invalid_gpu_windows,
        final(a).router_to_resident_ns == old(a).router_to_resident_ns + b.router_to_resident_ns,
        final(a).resident_ns == old(a).resident_ns + b.resident_ns,
        final(a).resident_to_fetched_ns == old(a).resident_to_fetched_ns + b.resident_to_fetched_ns,
        final(a).fetched_stage_ns == old(a).fetched_stage_ns + b.fetched_stage_ns,
{
}

/// Precisions are added up each count to its own, under the precision that they have.
pub proof fn law_quants_added(a: &mut QuantStats, b: QuantStats)
    requires
        call_ensures(QuantStats::add, (a, b), ()),
        old(a).addable(b),
    ensures
        final(a).bits == old(a).bits,
        final(a).selected_rows == old(a).selected_rows + b.selected_rows,
        final(a).selected_experts == old(a).selected_experts + b.selected_experts,
        final(a).eligible_weak_misses == old(a).eligible_weak_misses + b.eligible_weak_misses,
        final(a).cut_experts == old(a).cut_experts + b.cut_experts,
        final(a).cut_batches == old(a).cut_batches + b.cut_batches,
{
}

} // verus!
