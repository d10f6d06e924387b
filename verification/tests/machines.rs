use cherenkov::number::Real32;
use cherenkov::prefix_cache::plan::StepLimits;
use cherenkov::prefix_cache::PrefixCache;
use cherenkov::qwen4_exp::gpu::prefill::stats::{BlockKind, BlockWork, ChunkStats};
use cherenkov::qwen4_exp::gpu::residency::copy_pool::CopyPool;
use cherenkov::qwen4_exp::gpu::residency::set::Residency;
use cherenkov::qwen4_exp::gpu::residency::{Landed, Pool, PoolError};
use cherenkov::qwen4_exp::gpu::service::{let_in, predictions, settle_predictions, take_prediction, Service, Stage as Block};
use cherenkov::qwen4_exp::gpu::streaming::{Deadline, MissRead};
use cherenkov::runner::prefill::{Drafting, Prefilling, Stage};
use cherenkov::runner::{PrefillPath, PrefillResume};
use std::collections::VecDeque;

fn number(x: f32) -> Real32 {
    Real32 { bits: x.to_bits() }
}

fn flags(list: &[bool]) -> Vec<Landed> {
    list.iter().map(|landed| Landed { landed: *landed }).collect()
}

/// A block whose experts 5, 6 and 7 have the records 0, 1 and 2, the first of them held.
fn routed(pool: &mut Pool, cut: f32) -> Service {
    let held = pool.acquire(&[0], 1).unwrap_or_else(|e| panic!("{:?}", e.error));
    pool.finish(&held.need);
    let mut s = Service::new(40, number(cut), false);
    let weights = [0.5, 0.3, 0.1].map(number);
    s.routed(pool, &[], vec![5, 6, 7], vec![0, 1, 2], &[5, 6, 7], &weights, 2)
        .unwrap_or_else(|e| panic!("{:?}", e.1.error));
    s
}

fn set() -> Pool {
    Pool::Resident(Residency::new(100, 8, 4))
}

#[test]
fn a_block_reads_its_misses_in_a_batch() {
    let mut pool = set();
    let mut s = routed(&mut pool, 0.0);
    assert_eq!((s.stage, s.need.clone()), (Block::Pages, vec![1, 2]));
    assert_eq!((s.plan.order.clone(), s.plan.n_res, s.active), (vec![0, 1, 2], 1, 3));
    let (plan, warm, bytes) = s.planned(&mut pool, &[false, true], None, false, 100);
    assert_eq!((plan.len(), warm, bytes, s.mode), (1, 1, 100, MissRead::Batch));
    assert_eq!(s.records(), vec![0, 1, 2]);
    let mut row = vec![0u64; 8];
    assert_eq!(s.published(&mut row, &[10, 20, 30]), 41);
    assert_eq!(row, vec![10, 20, 30, 0, 0, 0, 1, 3]);
    assert_eq!(s.stage, Block::Reading);
    s.joined();
    let (added, value) = s.released(&mut pool, &[]);
    assert_eq!((added.added, added.commit, value), (vec![1, 2], true, 43));
    assert_eq!(s.stage, Block::Released);
    assert!((0..3).all(|rid| pool.is_member(rid)));
}

#[test]
fn late_weak_experts_are_cut_and_the_rest_is_usable() {
    let mut pool = set();
    let mut s = routed(&mut pool, 0.2);
    let (plan, _, _) = s.planned(&mut pool, &[false, false], None, false, 100);
    assert_eq!((plan.len(), s.mode), (2, MissRead::PerRecord));
    let mut row = vec![0u64; 8];
    s.published(&mut row, &[10, 20, 30]);
    assert_eq!(s.look(&mut row, &flags(&[false, false]), false, 0), Deadline::Again);
    assert_eq!(s.look(&mut row, &flags(&[false, false]), false, 31), Deadline::Hung);
    assert_eq!(s.look(&mut row, &flags(&[false, false]), true, 1), Deadline::Cut);
    assert_eq!((s.active, row[7], s.stage), (2, 2, Block::Landing));
    assert_eq!(s.cut_records(), vec![2]);
    assert_eq!(s.straggler(&flags(&[false, false])), Some(0));
    assert_eq!(s.straggler(&flags(&[true, false])), None);
    // What is read ahead at the same step does not push the block's records out.
    assert!(let_in(&mut pool, &[], &[4, 5], 2).is_err());
    let (added, _) = s.released(&mut pool, &flags(&[true, false]));
    assert_eq!(added.added, vec![1]);
    assert!(pool.is_member(0) && pool.is_member(1) && !pool.is_member(2));
}

#[test]
fn reads_that_all_landed_release_at_once() {
    let mut pool = Pool::Copy(CopyPool::new(0x1000, 0x2000, 100, 128, 8, 4));
    let mut s = routed(&mut pool, 0.2);
    s.planned(&mut pool, &[], None, false, 100);
    let mut row = vec![0u64; 5];
    s.published(&mut row, &[1, 2, 3]);
    assert_eq!(s.look(&mut row, &flags(&[true, true]), true, 0), Deadline::Landed);
    assert_eq!((s.stage, s.active), (Block::Landed, 3));
    assert_eq!(s.cut_records(), Vec::<usize>::new());
    s.released(&mut pool, &flags(&[true, true]));
    assert!((0..3).all(|rid| pool.is_member(rid)));
}

#[test]
fn a_pool_that_is_too_small_leaves_the_block() {
    let mut pool = Pool::Resident(Residency::new(100, 8, 2));
    let mut s = Service::new(1, number(0.0), false);
    let error = s.routed(&mut pool, &[], vec![1, 2, 3], vec![1, 2, 3], &[], &[], 5).err().unwrap().1;
    assert_eq!((error.error, s.stage), (PoolError::BudgetTooSmall, Block::Router));
}

#[test]
fn what_was_read_ahead_joins_before_room_is_made() {
    let mut pool = set();
    let first = let_in(&mut pool, &[], &[3, 4], 1).unwrap_or_else(|e| panic!("{:?}", e.1.error));
    assert_eq!(first.need, vec![3, 4]);
    let second = let_in(&mut pool, &first.need, &[4], 2).unwrap_or_else(|e| panic!("{:?}", e.1.error));
    assert_eq!((second.joined.added, second.need), (vec![3, 4], vec![]));
}

#[test]
fn weights_are_mapped_row_by_row() {
    let mut pool = set();
    let mut s = Service::new(1, number(0.0), false);
    let weights = [0.7, 0.3, 0.6, 0.4].map(number);
    s.routed(&mut pool, &[], vec![5, 6, 7], vec![0, 1, 2], &[5, 6, 7, 5], &weights, 2)
        .unwrap_or_else(|e| panic!("{:?}", e.1.error));
    let map = s.weight_map(&[5, 6, 7, 5], &weights, 2, 2);
    let shown: Vec<Vec<f32>> = map.iter().map(|r| r.iter().map(|x| f32::from_bits(x.bits)).collect()).collect();
    assert_eq!(s.plan.order, vec![0, 2, 1]);
    assert_eq!(shown, vec![vec![0.7, 0.0, 0.3], vec![0.4, 0.6, 0.0]]);
}

#[test]
fn predictions_wait_for_their_block() {
    let mut queue = VecDeque::from([(2usize, vec![5u32]), (3, vec![6])]);
    assert_eq!(take_prediction(&mut queue, 3), None);
    assert_eq!(take_prediction(&mut queue, 2), Some(vec![5]));
    assert_eq!(queue.len(), 1);
    let pool = set();
    let mut open = predictions(&pool, 9, 1, &[5, 6], &[0, 1], &[5, 6], &[0.5, 0.25].map(number), 2);
    assert_eq!((open.len(), open[1].rank, open[1].resident, open[1].hit), (2, 1, false, false));
    let mut log = Vec::new();
    settle_predictions(&mut open, &mut log, &[6]);
    assert!(open.is_empty());
    assert_eq!(log.iter().map(|e| (e.expert, e.hit)).collect::<Vec<_>>(), vec![(5, false), (6, true)]);
}

#[test]
fn a_prompt_runs_through_the_engine() {
    let ids: Vec<u32> = (0..9).collect();
    let mut p = Prefilling::new(ids, 2, PrefillPath::Engine { chunk: 8 }, 4, None);
    let first = p.next().unwrap();
    assert_eq!((first.start, first.end, first.engine, first.release), (0, 5, true, false));
    assert_eq!(p.following(&first), Some(5));
    assert_eq!(p.rows(&first), vec![0, 1, 2, 3, 4]);
    assert!(matches!(p.answered(77), Drafting::Nothing));
    p.advance();
    let last = p.next().unwrap();
    assert_eq!((last.start, last.end, last.release), (5, 9, true));
    assert_eq!(p.following(&last), None);
    assert!(matches!(p.answered(78), Drafting::Engine { chain: true }));
    assert_eq!(p.stage, Stage::Drafts);
    p.drafted(vec![1, 2]);
    p.advance();
    assert!(p.next().is_none());
    assert_eq!((p.seed.next, p.seed.drafts), (78, vec![1, 2]));
}

#[test]
fn a_short_prompt_runs_in_row_batches() {
    let mut p = Prefilling::new(vec![10, 11, 12], 3, PrefillPath::Rows, 2, None);
    match p.answered(90) {
        Drafting::Head { next, drafts } => assert_eq!((next, drafts), (vec![11, 12], 1)),
        other => panic!("{other:?}"),
    }
    p.drafted(vec![1]);
    p.advance();
    match p.answered(91) {
        Drafting::Head { next, drafts } => assert_eq!((next, drafts), (vec![91], 3)),
        other => panic!("{other:?}"),
    }
    p.drafted(vec![4, 5, 6]);
    p.advance();
    assert_eq!((p.seed.next, p.seed.drafts), (91, vec![4, 5, 6]));
}

#[test]
fn a_prepared_prompt_has_nothing_to_run() {
    let seed = PrefillResume { next: 5, drafts: vec![6] };
    let p = Prefilling::new(vec![1], 1, PrefillPath::Prepared, 2, Some(seed));
    assert!(p.next().is_none());
    assert_eq!((p.seed.next, p.seed.drafts), (5, vec![6]));
}

#[test]
fn a_prompt_begins_behind_its_longest_checkpoint() {
    let limits = StepLimits { engine_min: 100, engine_rows: 10, batch_rows: 2 };
    let mut c: PrefixCache<u32> = PrefixCache::new(1000, 10, 0);
    let fresh = c.prepare(vec![1, 2, 3], &[2], &limits, 0, 0);
    assert_eq!((fresh.restore, fresh.cached), (false, 0));
    let ends: Vec<_> = fresh.prompt.steps.iter().map(|s| (s.start, s.end)).collect();
    assert_eq!(ends, vec![(0, 2), (2, 3)]);
    for pos in [2, 3] {
        assert!(c.make_room(&[1, 2, 3], pos, 10));
        c.insert(&[1, 2, 3], pos, 50 + pos as u32, vec![7], false, pos as u32, 10, 1);
    }
    let whole = c.prepare(vec![1, 2, 3], &[], &limits, 0, 2);
    assert_eq!((whole.restore, whole.cached, whole.prompt.steps.len()), (true, 3, 0));
    assert_eq!((whole.prompt.seed.next, whole.prompt.seed.drafts), (53, vec![7]));
    let longer = c.prepare(vec![1, 2, 9, 9, 9], &[], &limits, 0, 3);
    assert_eq!((longer.restore, longer.cached), (true, 2));
    assert_eq!(c.entries.back().map(|e| e.state), Some(2));
    assert_eq!(longer.prompt.steps.first().map(|s| s.start), Some(2));
    assert_eq!(longer.prompt.steps.last().map(|s| s.end), Some(5));
}

#[test]
fn blocks_of_a_chunk_are_counted_by_kind() {
    let mut c = ChunkStats {
        tokens: 1,
        ns: 0,
        fetched: 0,
        fetched_bytes: 0,
        wait_ns: 0,
        gpu_delta_ns: 0,
        gpu_attn_ns: 0,
        gpu_experts_ns: 0,
        gpu_mtp_ns: 0,
        ngram_ns: 0,
    };
    let work = BlockWork { fetched: 2, fetched_bytes: 20, wait_ns: 3, block_ns: 5, experts_ns: 7 };
    c.block(BlockKind::Delta, work);
    c.block(BlockKind::Attention, work);
    c.block(BlockKind::Draft, work);
    assert_eq!((c.fetched, c.fetched_bytes, c.wait_ns), (6, 60, 9));
    assert_eq!((c.gpu_delta_ns, c.gpu_attn_ns, c.gpu_experts_ns, c.gpu_mtp_ns), (5, 5, 14, 12));
}
