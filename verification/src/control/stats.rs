//! Statistics responses shared by the server and its clients.

use crate::qwen4_exp::gpu::activity::layers::LayerStats;
use crate::qwen4_exp::gpu::activity::reads::ReadStats;
use crate::qwen4_exp::gpu::activity::ExpertCounters;
use crate::qwen4_exp::gpu::phases::GpuTiming;
use vstd::prelude::*;

verus! {

/// When and over what time counters were observed.
#[derive(Debug)]
pub struct Observation {
    pub observed_at_uptime_ns: u128,
    pub elapsed_ns: u128,
    pub gpu_timestamps_available: bool,
    pub gpu_timing: GpuTiming,
}

/// A rate: so much for so much.
#[derive(Debug, Clone, Copy, PartialEq, Eq, Structural)]
pub struct Ratio {
    pub numerator: u128,
    pub denominator: u128,
}

/// A rate, where there is something to divide by.
pub fn ratio(numerator: u128, denominator: u128) -> (r: Option<Ratio>)
    ensures
        r == if denominator > 0 {
            Some(Ratio { numerator, denominator })
        } else {
            None
        },
{
    if denominator > 0 {
        Some(Ratio { numerator, denominator })
    } else {
        None
    }
}

#[derive(Debug, Clone, Copy)]
pub struct Rates {
    pub bytes_per_ns: Option<Ratio>,
    pub reads_per_ns: Option<Ratio>,
    pub gpu_handoff_gap_fraction: Option<Ratio>,
    pub gpu_stage_fraction: Option<Ratio>,
}

/// All layers together.
#[derive(Debug, Clone, Copy)]
pub struct Summary {
    pub streaming: LayerStats,
    pub reads: ReadStats,
    pub rates: Rates,
}

/// A run of entries, and where the next one begins.
#[derive(Debug)]
pub struct Page<T> {
    pub offset: usize,
    pub next_offset: Option<usize>,
    pub total: usize,
    pub data: Vec<T>,
}

#[derive(Debug)]
pub struct Layer {
    pub layer: usize,
    pub name: String,
    pub experts: usize,
    pub counters: ExpertCounters,
    pub streaming: LayerStats,
}

#[derive(Debug, Clone, Copy)]
pub struct Expert {
    pub layer: usize,
    pub expert: usize,
    pub counters: ExpertCounters,
}

/// A ratio is told by its parts, and there is none over nothing.
pub proof fn law_ratio(numerator: u128, denominator: u128, r: Option<Ratio>)
    requires
        call_ensures(ratio, (numerator, denominator), r),
    ensures
        r is Some <==> denominator != 0,
        r matches Some(x) ==> x.numerator == numerator && x.denominator == denominator,
{
}

} // verus!
