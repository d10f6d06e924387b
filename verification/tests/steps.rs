use cherenkov::number::Real32;
use cherenkov::qwen4_exp::gpu::residency::copy_pool::CopyPool;
use cherenkov::qwen4_exp::gpu::residency::set::Residency;
use cherenkov::qwen4_exp::gpu::residency::{Landed, Pool, PoolError, ReadProgress};
use cherenkov::qwen4_exp::gpu::service::{remember_prediction, Service, Stage};
use cherenkov::qwen4_exp::gpu::step::{record_ids, union_of, StepCounts, Streaming};
use cherenkov::qwen4_exp::gpu::streaming::{Deadline, MissRead};
use std::collections::VecDeque;

fn number(x: f32) -> Real32 {
    Real32 { bits: x.to_bits() }
}

fn numbers(list: &[f32]) -> Vec<Real32> {
    list.iter().map(|x| number(*x)).collect()
}

/// Two layers of four experts over a set of so many records.
fn streaming(budget: usize) -> Streaming {
    Streaming::new(Pool::Resident(Residency::new(100, 8, budget)), 2, 4, 2, false, true)
}

fn block() -> Service {
    Service::new(10, number(0.2), false)
}

#[test]
fn routes_name_each_expert_once() {
    assert_eq!(union_of(&[3, 1, 3, 2, 1]), vec![3, 1, 2]);
    assert_eq!(union_of(&[]), Vec::<u32>::new());
    assert_eq!(record_ids(2, 16, &[3, 0]), vec![35, 32]);
}

#[test]
fn a_prediction_is_for_the_next_row() {
    let mut queue = VecDeque::new();
    remember_prediction(&mut queue, 4, None);
    assert!(queue.is_empty());
    remember_prediction(&mut queue, 4, Some(vec![7]));
    assert_eq!(queue, VecDeque::from([(5, vec![7])]));
}

#[test]
fn a_block_without_lookahead_issues_nothing() {
    let mut s = streaming(4);
    assert!(matches!(s.look_ahead(0, None, 1), Ok(None)));
    let (plan, issued, warm) = s.read_ahead(&[]);
    assert!(plan.is_none() && (issued, warm) == (0, 0));
    assert!(s.predicted.is_empty() && s.pending.is_empty());
}

#[test]
fn predicted_experts_are_read_ahead_and_met() {
    let mut s = streaming(6);
    let done = s.look_ahead(0, Some((1, &[2, 3, 2, 3], &numbers(&[0.6, 0.4, 0.9, 0.1]))), 1).unwrap().unwrap();
    assert_eq!((done.0.added, done.1), (vec![], vec![]));
    assert_eq!(s.pending, vec![6, 7]);
    assert_eq!(s.predicted, VecDeque::from([(1, vec![2, 3])]));
    let (plan, issued, warm) = s.read_ahead(&[false, true]);
    assert_eq!((plan.map(|p| p.len()), issued, warm), (Some(1), 1, 1));
    let open: Vec<_> = s.open.iter().map(|e| (e.layer, e.expert, e.rank, e.resident, f32::from_bits(e.weight.bits))).collect();
    assert_eq!(open, vec![(1, 2, 0, false, 0.9), (1, 3, 1, false, 0.4)]);
    let mut b = block();
    let arrival = s.arrived(&mut b, 1, 1, &[3, 0], &numbers(&[0.6, 0.4]), 2).unwrap();
    assert_eq!((arrival.joined.added, arrival.hits, arrival.total), (vec![6, 7], 1, 2));
    assert!(s.pending.is_empty() && s.predicted.is_empty() && s.open.is_empty());
    assert_eq!(s.log.iter().map(|e| (e.expert, e.hit)).collect::<Vec<_>>(), vec![(2, false), (3, true)]);
    assert_eq!((b.stage, b.need.clone(), b.rids.clone()), (Stage::Pages, vec![4], vec![7, 4]));
}

#[test]
fn unread_records_are_counted_under_the_switch() {
    let mut s = Streaming::new(Pool::Resident(Residency::new(100, 8, 4)), 2, 4, 1, true, false);
    assert!(s.look_ahead(0, Some((0, &[1], &numbers(&[1.0]))), 1).unwrap().is_some());
    assert!(s.open.is_empty());
    let (plan, issued, warm) = s.read_ahead(&[false]);
    assert!(plan.is_none());
    assert_eq!((issued, warm), (1, 0));
}

#[test]
fn a_refused_lookahead_keeps_the_set_within_its_budget() {
    let mut s = streaming(1);
    let refused = s.look_ahead(0, Some((0, &[1, 2], &numbers(&[0.5, 0.5]))), 1).err().unwrap();
    assert_eq!((refused.1.error, s.pending.len(), s.predicted.len()), (PoolError::BudgetTooSmall, 0, 0));
    // The places that it reserved are free again.
    assert!(s.look_ahead(0, Some((0, &[3], &numbers(&[1.0]))), 1).is_ok());
    assert_eq!(s.pending, vec![3]);
    let mut b = block();
    let arrival = s.arrived(&mut b, 0, 1, &[3], &numbers(&[1.0]), 2).unwrap();
    assert_eq!((arrival.joined.added, s.pool.resident()), (vec![3], 1));
}

#[test]
fn cut_reads_join_when_the_step_ends() {
    let mut s = streaming(4);
    let mut b = block();
    s.arrived(&mut b, 0, 0, &[0, 1], &numbers(&[0.9, 0.1]), 1).unwrap();
    let (plan, _, _) = b.planned(&mut s.pool, &[false, false], None, false, 100);
    assert_eq!(b.mode, MissRead::PerRecord);
    let mut row = vec![0u64; 6];
    b.published(&mut row, &[1, 2]);
    let mut progress: Vec<ReadProgress> = plan.items.iter().map(|i| ReadProgress::new(i.bytes)).collect();
    progress[0].advance(Some(100));
    let flags: Vec<Landed> = plan.flags(2, &progress);
    assert_eq!(flags.iter().map(|f| f.landed).collect::<Vec<_>>(), vec![true, false]);
    assert_eq!(b.look(&mut row, &flags, true, 0), Deadline::Cut);
    s.cut(&b);
    assert_eq!(s.inflight, vec![1]);
    assert_eq!(b.straggler(&flags), None);
    let (added, value) = s.released(&mut b, &flags);
    assert_eq!((added.added, value), (vec![0], 13));
    let mut counts = StepCounts::default();
    assert!(counts.served(&b, 100, 0, 0, 0, 3));
    let wanted = StepCounts { misses: 2, miss_bytes: 200, warm: 0, cut: 1, hits: 0, total: 0, issued: 3 };
    assert_eq!(counts, wanted);
    assert!(!counts.served(&b, usize::MAX, 0, 0, 0, 0));
    assert_eq!(counts, wanted);
    let late = s.join_inflight().unwrap();
    assert_eq!(late.added, vec![1]);
    assert!(s.inflight.is_empty() && s.join_inflight().is_none());
    assert!(s.pool.is_member(0) && s.pool.is_member(1));
}

#[test]
fn a_short_read_does_not_land() {
    let mut p = ReadProgress::new(10);
    assert!(!p.landed().done());
    p.advance(Some(4));
    p.advance(None);
    assert_eq!((p.next(false), p.landed().done()), (None, false));
    let mut whole = ReadProgress::new(10);
    whole.advance(Some(10));
    assert!(whole.landed().done());
}

#[test]
fn copied_records_are_read_ahead_into_their_slots() {
    let pool = Pool::Copy(CopyPool::new(0x1000, 0x2000, 100, 128, 8, 2));
    let mut s = Streaming::new(pool, 2, 4, 2, false, false);
    assert!(s.look_ahead(3, Some((0, &[1, 0], &numbers(&[0.5, 0.5]))), 1).unwrap().is_some());
    let (plan, issued, warm) = s.read_ahead(&[]);
    assert_eq!((plan.map(|p| p.len()), issued, warm), (Some(2), 2, 0));
    assert!(s.pool.is_member(0) && s.pool.is_member(1));
    let full = s.look_ahead(4, Some((1, &[0], &numbers(&[1.0]))), 1).err().unwrap();
    assert_eq!(full.1.error, PoolError::PoolTooSmall);
}

#[test]
fn records_without_a_place_do_not_join() {
    let mut pool = Pool::Resident(Residency::new(100, 8, 2));
    assert_eq!(pool.acquire(&[0, 1], 1).unwrap().need, vec![0, 1]);
    assert_eq!(pool.finish(&[0, 1, 5]).added, vec![0, 1]);
    assert_eq!((pool.resident(), pool.is_member(5)), (2, false));
}
