use cherenkov::number::Real32;
use cherenkov::qwen4_exp::gpu::draft::{DraftRun, DraftWork};
use cherenkov::qwen4_exp::gpu::model::RecordLayout;
use cherenkov::qwen4_exp::gpu::mtp::{DraftError, Pass};
use cherenkov::qwen4_exp::gpu::prefill::batches::ExpertStream;
use cherenkov::qwen4_exp::gpu::prefill::chunk::Sequence;
use cherenkov::qwen4_exp::gpu::prefill::experts::{prepare_expert_jobs, ExpertSource, GROUP, RING};
use cherenkov::qwen4_exp::gpu::residency::set::Residency;
use cherenkov::qwen4_exp::gpu::residency::Pool;

/// Three rows were committed at position 10, and the head's cache ends there.
fn sequence() -> Sequence {
    Sequence { pos: 13, mtp_len: 10, batch_pos: 10, batch_nb: 3, tokens: (0..13).collect() }
}

fn started(s: &mut Sequence, next: &[u32], chain: usize, folded: Option<Vec<u32>>) -> DraftRun {
    s.start_draft(next.to_vec(), chain, folded).unwrap_or_else(|e| panic!("{}", e.message()))
}

fn pass(run: &DraftRun) -> Pass {
    match run.next(100) {
        Ok(DraftWork::Pass(pass)) => pass,
        other => panic!("{other:?}"),
    }
}

#[test]
fn drafts_follow_the_committed_rows() {
    let mut s = sequence();
    let mut run = started(&mut s, &[7, 8], 3, None);
    assert_eq!((run.tokens.clone(), s.mtp_len), (vec![7, 8], 10));
    assert_eq!(pass(&run), Pass { rows: 2, base_pos: 10, from_trunk: true, src_row: 0 });
    run.passed(&mut s, &[50, 51]);
    assert_eq!((run.tokens.clone(), run.drafts.clone(), s.mtp_len), (vec![51], vec![51], 12));
    assert_eq!(pass(&run), Pass { rows: 1, base_pos: 12, from_trunk: false, src_row: 1 });
    run.passed(&mut s, &[52]);
    assert_eq!(pass(&run), Pass { rows: 1, base_pos: 13, from_trunk: false, src_row: 0 });
    run.passed(&mut s, &[53]);
    assert_eq!(run.next(100), Ok(DraftWork::Done));
    assert_eq!(run.finish(&s), vec![51, 52, 53]);
    assert_eq!((s.mtp_len, s.pos, s.batch_pos, s.batch_nb), (12, 13, 10, 3));
}

#[test]
fn a_chain_of_none_fills_the_cache_alone() {
    let mut s = sequence();
    let mut run = started(&mut s, &[7, 8, 9], 0, None);
    assert_eq!(pass(&run).rows, 3);
    run.passed(&mut s, &[1, 2, 3]);
    assert_eq!(run.next(100), Ok(DraftWork::Done));
    assert_eq!((run.finish(&s), s.mtp_len), (vec![], 13));
    let mut s = sequence();
    let run = started(&mut s, &[7], 0, Some(vec![4, 5, 6]));
    assert_eq!(run.next(100), Ok(DraftWork::Done));
    assert_eq!((run.finish(&s), s.mtp_len), (vec![], 11));
}

#[test]
fn a_folded_head_gives_the_first_draft() {
    let mut s = sequence();
    let run = started(&mut s, &[7, 8], 1, Some(vec![4, 5, 6]));
    assert_eq!(run.next(100), Ok(DraftWork::Done));
    assert_eq!((run.finish(&s), s.mtp_len), (vec![5], 12));
    let mut s = sequence();
    let mut run = started(&mut s, &[7, 8], 3, Some(vec![4, 5, 6]));
    assert_eq!(run.next(100), Ok(DraftWork::Batch { seed: 5, passes: 2 }));
    run.chained(&s, vec![60, 61]);
    assert_eq!(run.next(100), Ok(DraftWork::Done));
    assert_eq!((run.finish(&s), s.mtp_len), (vec![5, 60, 61], 12));
}

#[test]
fn drafting_is_refused_out_of_step() {
    for (next, folded) in [(0, None), (4, None), (0, Some(vec![1; 9])), (4, Some(vec![1; 9]))] {
        let mut s = sequence();
        let error = s.start_draft(vec![1; next], 2, folded).err().unwrap();
        assert_eq!((error, s.mtp_len), (DraftError::Rows, 10));
        assert_eq!(error.message(), "MTP rows must match the committed rows");
    }
    let mut s = Sequence { mtp_len: 9, ..sequence() };
    let error = s.start_draft(vec![1], 2, None).err().unwrap();
    assert_eq!((error.message().as_str(), s.mtp_len), ("MTP cache out of step: 9 vs 10", 9));
    assert_eq!(DraftError::Passes { most: 7 }.message(), "chained passes must be 1..=7");
}

#[test]
fn a_pass_beyond_the_context_is_refused() {
    let mut s = sequence();
    let mut run = started(&mut s, &[7, 8], 2, None);
    assert_eq!(run.next(11), Err(DraftError::Capacity));
    assert_eq!(s.mtp_len, 10);
    assert!(run.next(12).is_ok());
    run.passed(&mut s, &[1, 2]);
    assert_eq!(run.next(12), Err(DraftError::Capacity));
    assert_eq!((s.mtp_len, DraftError::Capacity.message().as_str()), (12, "context capacity exceeded"));
}

#[test]
fn a_draft_is_chained_on_a_chunk() {
    assert_eq!(sequence().chain_pass(), Pass { rows: 1, base_pos: 13, from_trunk: false, src_row: 0 });
}

fn layout() -> RecordLayout {
    RecordLayout {
        gate_w: 0,
        up_w: 0,
        down_w: 0,
        gate_s: 0,
        gate_b: 0,
        up_s: 0,
        up_b: 0,
        down_s: 0,
        down_b: 0,
        bits: 4,
        stride: 100,
    }
}

#[test]
fn batches_feed_the_ring_in_turn() {
    let n = RING + 2 * GROUP + 3;
    let mut pool = Pool::Resident(Residency::new(100, n, 2));
    let rids: Vec<usize> = (0..n).collect();
    let idx: Vec<u32> = (0..n as u32).collect();
    let weights = vec![Real32 { bits: 0 }; n];
    let jobs = prepare_expert_jobs(&mut pool, &rids, &idx, &weights, 1, 1, 1, &layout(), &layout())
        .unwrap_or_else(|e| panic!("{:?}", e.error));
    assert_eq!(jobs.jobs.iter().filter(|j| matches!(j.source, ExpertSource::Pool { .. })).count(), 2);
    let mut stream = ExpertStream::new(jobs.jobs, rids, 4096, 100, 50, 70).unwrap();
    let (mut waits, mut ready, mut reads) = (Vec::new(), Vec::new(), 0);
    while let Some(batch) = stream.next() {
        waits.push(batch.wait);
        ready.push(batch.ready);
        reads += batch.reads.to_set.len() + batch.reads.ring4.len() + batch.reads.ring_low.len();
        assert!(batch.reads.ring4.iter().all(|r| (4096..4096 + RING * 100).contains(&r.0) && r.2 == 100));
    }
    assert_eq!(ready, (0..11).map(|b| 71 + b).collect::<Vec<u64>>());
    assert_eq!(waits[..8], vec![None; 8][..]);
    assert_eq!(waits[8..], [Some(51), Some(52), Some(53)]);
    assert_eq!((reads, stream.fetched, stream.bytes), (n, n, n * 100));
    assert!(stream.next().is_none());
}

#[test]
fn a_ring_beyond_the_address_space_is_refused() {
    assert!(ExpertStream::new(Vec::new(), Vec::new(), usize::MAX - 10, 1, 0, 0).is_none());
    assert!(ExpertStream::new(Vec::new(), Vec::new(), 0, 1, u64::MAX, 0).is_none());
    assert!(ExpertStream::new(Vec::new(), Vec::new(), 0, 1, 0, 0).is_some());
}
