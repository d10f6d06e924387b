use cherenkov::number::Real32;
use cherenkov::qwen4_exp::gpu::residency::copy_pool::CopyPool;
use cherenkov::qwen4_exp::gpu::residency::set::Residency;
use cherenkov::qwen4_exp::gpu::residency::victim::find_victim;
use cherenkov::qwen4_exp::gpu::residency::{
    cached, Landed, Pool, PoolError, ReadProgress, RecordAddress, RecordBuffer, StoreFile, Waiting, PULL_BYTES,
    THREE_BIT_FLAG, TWO_BIT_FLAG,
};
use cherenkov::qwen4_exp::gpu::streaming::{
    cut_late, finish_miss_reads, lookahead_entry, miss_read, miss_record_bytes, missed_experts, ordered_experts,
    plan_block, prediction_hits, prefetch, publish_active, publish_slots, settle_lookahead, wait_for_deadline,
    wait_for_router, weight_row, BlockSignals, Deadline, MissRead, MissStore, Poll, Prefetch,
};

fn number(x: f32) -> Real32 {
    Real32 { bits: x.to_bits() }
}

fn numbers(list: &[f32]) -> Vec<Real32> {
    list.iter().map(|x| number(*x)).collect()
}

fn values(list: &[Real32]) -> Vec<f32> {
    list.iter().map(|x| f32::from_bits(x.bits)).collect()
}

fn copy_pool() -> Pool {
    Pool::Copy(CopyPool::new(0x10000, 0x20000, 100, 128, 6, 2))
}

fn set() -> Pool {
    Pool::Resident(Residency::new(100, 6, 2))
}

#[test]
fn the_oldest_is_the_victim() {
    assert_eq!(find_victim(&vec![3, 1, 2], 5), Some(1));
    assert_eq!(find_victim(&vec![3, 1, 1], 5), Some(1));
    assert_eq!(find_victim(&vec![5, 5], 5), None);
    assert_eq!(find_victim(&vec![], 5), None);
}

#[test]
fn copied_records_get_a_slot_each() {
    let mut p = copy_pool();
    let first = p.acquire(&[4, 1], 1).unwrap();
    assert_eq!((first.need.clone(), first.evicted.len()), (vec![4, 1], 0));
    assert!(p.is_member(4) && p.is_member(1) && !p.is_member(0));
    assert_eq!((p.resident(), p.budget(), p.bytes()), (2, 2, 256));
    let (a, b) = (p.addr(4), p.addr(1));
    assert!(matches!(a, RecordAddress::Slot { .. }) && a != b);
    assert!(matches!(p.buf(4), RecordBuffer::Slot { offset } if offset < 256));
    assert_eq!(p.acquire(&[4], 2).unwrap().need, Vec::<usize>::new());
    let third = p.acquire(&[4, 0], 3).unwrap();
    assert_eq!(third.need, vec![0]);
    assert!(p.is_member(4) && p.is_member(0) && !p.is_member(1));
}

#[test]
fn a_step_keeps_what_it_uses() {
    let mut p = copy_pool();
    let refused = p.acquire(&[0, 1, 2], 1).err().unwrap();
    assert_eq!(refused.error, PoolError::PoolTooSmall);
    let mut s = set();
    let refused = s.acquire(&[0, 1, 2], 1).err().unwrap();
    assert_eq!(refused.error, PoolError::BudgetTooSmall);
    assert!(!refused.error.message().is_empty());
}

#[test]
fn reads_go_to_their_slots() {
    let mut p = copy_pool();
    let need = p.acquire(&[4, 1], 1).unwrap().need;
    let (plan, hits) = p.plan_reads(&need, &[]);
    assert_eq!((plan.len(), hits, plan.is_empty()), (2, 0, false));
    assert_eq!((plan.items[0].file_offset, plan.items[0].bytes, plan.items[0].need_index), (400, 100, 0));
    assert_eq!((plan.items[1].file_offset, plan.items[1].need_index), (100, 1));
    assert_ne!(plan.items[0].destination, plan.items[1].destination);
    let groups = plan.run();
    assert_eq!((groups.pulls.len(), groups.copies.len(), groups.low_copies.len()), (0, 2, 0));
    assert!(plan.run_tracked(2).iter().all(|f| !f.done()));
}

#[test]
fn low_bit_records_come_from_their_store() {
    let mut p = copy_pool();
    p.set_low_bit_store(60, 0);
    let need = p.acquire(&[4, 1], 1).unwrap().need;
    p.set_kind(1, 2);
    assert_eq!((p.kind(4), p.kind(1), p.kind(0)), (0, 2, 0));
    assert_eq!((p.store_file(0), p.store_file(2)), (StoreFile::Original, StoreFile::LowBit));
    match (p.addr(4), p.addr(1)) {
        (RecordAddress::Slot { address: a }, RecordAddress::Slot { address: b }) => {
            assert_eq!(a & (TWO_BIT_FLAG | THREE_BIT_FLAG), 0);
            assert_eq!(b & (TWO_BIT_FLAG | THREE_BIT_FLAG), TWO_BIT_FLAG);
        }
        _ => panic!("not slots"),
    }
    let (plan, _) = p.plan_reads(&need, &[]);
    let groups = plan.run();
    assert_eq!((groups.copies.len(), groups.low_copies.len()), (1, 1));
    assert_eq!((groups.low_copies[0].1, groups.low_copies[0].2), (60, 60));
    let bytes = miss_record_bytes(&mut p, Some(MissStore { bits: 3, stride: 60 }), false, 100, &[4]);
    assert_eq!((bytes, p.kind(4)), (60, 1));
    assert_eq!(miss_record_bytes(&mut p, None, false, 100, &[4]), 100);
}

#[test]
fn the_set_stays_within_its_budget() {
    let mut s = set();
    let need = s.acquire(&[0, 1], 1).unwrap().need;
    assert_eq!(need, vec![0, 1]);
    assert_eq!(s.resident(), 0);
    let added = s.finish(&need);
    assert_eq!((added.added, added.commit), (vec![0, 1], true));
    assert_eq!(s.resident(), 2);
    let next = s.acquire(&[1, 5], 2).unwrap();
    assert_eq!((next.need.clone(), next.evicted.clone()), (vec![5], vec![0]));
    s.finish(&next.need);
    assert!(s.is_member(1) && s.is_member(5) && !s.is_member(0));
    assert_eq!(s.addr(5), RecordAddress::Region { rid: 5 });
}

#[test]
fn cached_records_need_no_read() {
    let mut s = set();
    let need = s.acquire(&[2, 3], 1).unwrap().need;
    let (plan, hits) = s.plan_reads(&need, &[true, false]);
    assert_eq!((plan.len(), hits), (1, 1));
    assert_eq!(plan.run().pulls, vec![300]);
    let flags = plan.run_tracked(2);
    assert!(flags[0].done() && !flags[1].done());
}

#[test]
fn a_read_fills_the_record() {
    let bytes = PULL_BYTES * 2 + 10;
    let mut r = ReadProgress::new(bytes);
    let mut got = Vec::new();
    while let Some((from, n)) = r.next(true) {
        got.push((from, n));
        r.advance(Some(n));
    }
    assert_eq!(got, vec![(0, PULL_BYTES), (PULL_BYTES, PULL_BYTES), (2 * PULL_BYTES, 10)]);
    let mut s = ReadProgress::new(100);
    s.advance(Some(40));
    assert_eq!(s.next(false), Some((40, 60)));
    s.advance(None);
    assert_eq!((s.next(false), s.done), (None, 40));
}

#[test]
fn residency_is_looked_up_by_page() {
    assert!(cached(0, &[1, 1]));
    assert!(!cached(0, &[1, 0]) && !cached(-1, &[1]));
    let late = Landed { landed: false };
    assert!(matches!(late.wait(29), Ok(Waiting::Again)));
    assert_eq!(late.wait(30).err(), Some(PoolError::ReadLost));
    assert!(matches!(Landed { landed: true }.wait(99), Ok(Waiting::Ready)));
}

#[test]
fn a_block_signals_in_order() {
    let s = BlockSignals::new(7);
    assert!(s.router_ready <= s.resident_ready && s.resident_ready <= s.misses_ready);
    assert_eq!(wait_for_router(7, 7, 0), Poll::Reached);
    assert_eq!(wait_for_router(6, 7, 30), Poll::Again);
    assert_eq!(wait_for_router(6, 7, 31), Poll::Hung);
}

#[test]
fn resident_experts_run_first_and_the_strongest_ahead() {
    let plan = plan_block(&[5, 6, 7], &[50, 60, 70], &[60], &[5, 6, 7, 7], &numbers(&[0.1, 0.9, 0.2, 0.5]));
    assert_eq!(plan.missing, vec![false, true, false]);
    assert_eq!(values(&plan.wmax), vec![0.1, 0.9, 0.5]);
    assert_eq!((plan.order.clone(), plan.n_res), (vec![2, 0, 1], 2));
    assert_eq!(ordered_experts(&[5, 6, 7], &plan.order), vec![7, 5, 6]);
    assert_eq!(missed_experts(&[5, 6, 7], &plan.missing), vec![6]);
    let row = weight_row(&[7, 5], &numbers(&[0.5, 0.1]), &[5, 6, 7], &plan.order);
    assert_eq!(values(&row), vec![0.5, 0.1, 0.0]);
}

#[test]
fn slots_are_published() {
    let mut row = vec![9u64; 6];
    publish_slots(&mut row, &[100, 200, 300], 2);
    assert!([100u64, 200, 300].iter().all(|a| row.contains(a)));
    let before = row.clone();
    publish_active(&mut row, 1);
    assert_eq!(row.iter().zip(&before).filter(|(a, b)| a != b).count(), 1);
}

#[test]
fn misses_are_read_as_the_cut_asks() {
    assert_eq!(miss_read(true, false, number(0.0)), MissRead::Nothing);
    assert_eq!(miss_read(false, true, number(0.0)), MissRead::Nothing);
    assert_eq!(miss_read(false, false, number(0.0)), MissRead::Batch);
    assert_eq!(miss_read(false, false, number(0.5)), MissRead::PerRecord);
    assert_eq!(prefetch(&[], 0, false), Prefetch::Nothing);
    assert_eq!(prefetch(&[1], 1, false), Prefetch::Background { reads: 1 });
}

#[test]
fn only_late_weak_experts_are_cut() {
    let flags = [Landed { landed: true }, Landed { landed: false }, Landed { landed: false }];
    assert_eq!(wait_for_deadline(&flags, false, 0), Deadline::Again);
    assert_eq!(wait_for_deadline(&flags, true, 0), Deadline::Cut);
    assert_eq!(wait_for_deadline(&flags[..1], false, 0), Deadline::Landed);
    assert_eq!(wait_for_deadline(&flags, false, 31), Deadline::Hung);
    let wmax = numbers(&[0.9, 0.6, 0.2, 0.1]);
    let rids = [10, 20, 30, 40];
    let need = [20, 30, 40];
    assert_eq!(cut_late(&[0, 1, 2, 3], 1, &need, &flags, &rids, &wmax, number(0.15)), 3);
    assert_eq!(cut_late(&[0, 1, 2, 3], 1, &need, &flags, &rids, &wmax, number(0.5)), 2);
    assert_eq!(cut_late(&[0, 1, 2, 3], 1, &need, &flags, &rids, &wmax, number(0.0)), 4);
    assert_eq!(finish_miss_reads(&need, &flags, true), vec![20]);
    assert_eq!(finish_miss_reads(&need, &flags, false), vec![20, 30, 40]);
}

#[test]
fn predictions_are_settled() {
    let e = lookahead_entry(3, 1, 7, &[5, 7, 7, 8], &numbers(&[0.1, 0.2, 0.4, 0.3]), 2, true);
    assert_eq!((e.step, e.layer, e.expert, e.rank, e.resident, e.hit), (3, 1, 7, 0, true, false));
    assert_eq!(f32::from_bits(e.weight.bits), 0.4);
    assert!(settle_lookahead(&e, &[7]).hit && !settle_lookahead(&e, &[8]).hit);
    assert_eq!(prediction_hits(&[1, 2, 3], Some(&vec![3, 1])), (2, 3));
    assert_eq!(prediction_hits(&[1, 2, 3], None), (0, 0));
}

#[test]
fn reservations_of_an_earlier_step_lapse() {
    let mut s = Pool::Resident(Residency::new(100, 6, 1));
    assert_eq!(s.acquire(&[0], 1).unwrap().need, vec![0]);
    assert_eq!(s.acquire(&[1], 1).err().unwrap().error, PoolError::BudgetTooSmall);
    // Record 0 never came into memory; the next step has its room.
    let next = s.acquire(&[1], 2).unwrap();
    assert_eq!((next.need.clone(), next.evicted.len()), (vec![1], 0));
    // When it comes after all, there is no room for it until there is free room.
    assert_eq!(s.finish(&[0, 1]).added, vec![1]);
    assert!(s.is_member(1) && !s.is_member(0));
}

#[test]
fn what_comes_unasked_takes_free_room() {
    let mut s = set();
    assert_eq!(s.finish(&[3]).added, vec![3]);
    assert_eq!(s.finish(&[3]).added, Vec::<usize>::new());
    assert_eq!(s.finish(&[4, 5]).added, vec![4]);
    assert_eq!(s.resident(), 2);
}

#[test]
fn empty_slots_are_taken_first() {
    let mut p = copy_pool();
    p.acquire(&[4], 1).unwrap();
    p.acquire(&[1], 2).unwrap();
    assert!(p.is_member(4) && p.is_member(1));
    p.acquire(&[0], 3).unwrap();
    assert!(!p.is_member(4) && p.is_member(1) && p.is_member(0));
}
