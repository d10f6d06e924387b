use cherenkov::download::{Progress, Reporter, Shown, UPDATE_NS};
use cherenkov::metal::{check_allocation, mapping_buffer, region_buffer, BufferError};
use cherenkov::options::PoolBudget;
use cherenkov::number::Real64;
use cherenkov::qwen4_exp::gpu::budget::{PoolMemory, PoolSizeError};
use cherenkov::qwen4_exp::gpu::memory::{kv_index_capacity_bytes, ContextBuffers};
use cherenkov::qwen4_exp::gpu::prefill::stats::{ChunkStats, PrefillStats};

#[test]
fn allocations_stay_under_the_limit() {
    assert_eq!(check_allocation(60, 40, Some(100)), Ok(()));
    assert_eq!(check_allocation(61, 40, Some(100)), Err(BufferError::Limit));
    assert_eq!(check_allocation(usize::MAX, 1, Some(usize::MAX)), Err(BufferError::Limit));
    assert_eq!(check_allocation(usize::MAX, 1, None), Ok(()));
}

#[test]
fn mappings_are_rounded_to_pages() {
    assert_eq!(mapping_buffer(16384, 1, 0, None), Ok(16384));
    assert_eq!(mapping_buffer(16384, 16385, 0, None), Ok(32768));
    assert_eq!(mapping_buffer(1, 1, 0, None), Err(BufferError::MappingAddress));
    assert_eq!(mapping_buffer(0, 1, 0, None), Err(BufferError::MappingNull));
    assert_eq!(mapping_buffer(16384, 1, 0, Some(16383)), Err(BufferError::Limit));
}

#[test]
fn regions_are_whole_pages() {
    assert_eq!(region_buffer(16384, 16384, 0, None), Ok(()));
    assert_eq!(region_buffer(100, 16384, 0, None), Err(BufferError::RegionAddress));
    assert_eq!(region_buffer(16384, 5, 0, None), Err(BufferError::RegionLength));
    assert_eq!(region_buffer(0, 16384, 0, None), Err(BufferError::RegionNull));
    assert_eq!(BufferError::RegionNull.message(), "null region");
}

#[test]
fn progress_is_shown_now_and_then() {
    let mut r = Reporter::new();
    let report = Progress::Aggregate { bytes_completed: 1, total_bytes: 2 };
    let shown = Shown::Transfer { bytes_completed: 1, total_bytes: 2 };
    assert_eq!(r.on_progress(report, 5), shown);
    assert_eq!(r.on_progress(report, 5 + UPDATE_NS - 1), Shown::Nothing);
    assert_eq!(r.on_progress(Progress::Complete, 6), Shown::Complete);
    assert_eq!(r.on_progress(Progress::Other, 6), Shown::Nothing);
    assert_eq!(r.on_progress(report, 5 + UPDATE_NS), shown);
}

#[test]
fn prefill_chunks_are_summed() {
    let mut s = PrefillStats::default();
    let chunk = ChunkStats {
        tokens: 10,
        ns: 100,
        fetched: 1,
        fetched_bytes: 2,
        wait_ns: 3,
        gpu_delta_ns: 4,
        gpu_attn_ns: 5,
        gpu_experts_ns: 6,
        gpu_mtp_ns: 7,
        ngram_ns: 8,
    };
    s.record(chunk);
    s.record(ChunkStats { tokens: 4, ..chunk });
    assert_eq!((s.chunks, s.tokens), (2, 14));
    assert_eq!((s.min_chunk_tokens, s.max_chunk_tokens), (4, 10));
    assert_eq!((s.ns, s.ring_wait_ns, s.gpu_delta_ns), (200, 6, 8));
    assert_eq!((s.gpu_attention_ns, s.gpu_expert_ns, s.gpu_mtp_ns, s.ngram_ns), (10, 12, 14, 16));
}

#[test]
fn context_memory_is_summed() {
    let one = || Some(ContextBuffers { keys: 1, values: 2, index_keys: 3, blocks: 4 });
    assert_eq!(kv_index_capacity_bytes(&[one(), None, one()]), 20);
    assert_eq!(kv_index_capacity_bytes(&[]), 0);
}

#[test]
fn pool_errors_are_worded() {
    assert!(!PoolSizeError::NoCapacity.message().is_empty());
    let m = PoolMemory { device: 10, fixed: 20, host: 30, allocation_limit: None, prefill: 0 };
    assert_eq!(m.bytes(PoolBudget::Max, None), Err(PoolSizeError::NoCapacity));
    let gb = PoolBudget::Gb(Real64 { bits: 1.0f64.to_bits() });
    assert_eq!(m.bytes(gb, None), Err(PoolSizeError::Unrepresentable));
}

#[test]
fn pools_leave_headroom() {
    let m = PoolMemory {
        device: 30_000_000_000,
        fixed: 4_000_000_000,
        host: 1_000_000_000,
        allocation_limit: Some(25_000_000_000),
        prefill: 1_000_000_000,
    };
    assert_eq!(m.bytes(PoolBudget::Adaptive, None), Ok(19_000_000_000));
    assert_eq!(m.bytes(PoolBudget::Max, None), Ok(20_000_000_000));
    let gb = PoolBudget::Gb(Real64 { bits: 1.0f64.to_bits() });
    assert_eq!(m.bytes(gb, Some(20_000_000_000)), Ok(20_000_000_000));
    assert_eq!(m.bytes(gb, Some(20_000_000_001)), Err(PoolSizeError::ExceedsBudget));
}
