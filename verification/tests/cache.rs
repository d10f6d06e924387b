use cherenkov::prefix_cache::plan::{
    boundaries, checkpoint_bytes, draft_work, prefill_steps, step_limits, DraftWork, StepLimits,
};
use cherenkov::prefix_cache::{matches as serves, PrefixCache};

fn stored(tokens: &[&[u32]]) -> PrefixCache<u32> {
    let mut c = PrefixCache::new(1000, 10, 0);
    for (i, ids) in tokens.iter().enumerate() {
        assert!(c.make_room(ids, ids.len(), 10));
        c.insert(ids, ids.len(), 0, vec![], false, i as u32, 10, i as u128);
    }
    c
}

#[test]
fn a_checkpoint_serves_what_starts_with_it() {
    assert!(serves(&vec![1, 2], None, false, &[1, 2, 3]));
    assert!(!serves(&vec![1, 2], None, false, &[1, 2]));
    assert!(serves(&vec![1, 2], None, true, &[1, 2]));
    assert!(serves(&vec![1, 2], Some(3), true, &[1, 2, 3]));
    assert!(!serves(&vec![1, 2], Some(4), true, &[1, 2, 3]));
    assert!(!serves(&vec![1, 2], None, true, &[1]));
}

#[test]
fn the_longest_match_is_reused() {
    let mut c = stored(&[&[1], &[1, 2, 3], &[1, 2], &[9]]);
    assert!(c.reuse(&[1, 2, 3, 4], 50));
    let best = c.entries.back().unwrap();
    assert_eq!((best.tokens.clone(), best.state, best.touched), (vec![1, 2, 3], 1, 50));
    assert_eq!(c.entries.len(), 4);
    assert!(!c.reuse(&[7], 60));
    assert_eq!(c.stats(), (4, 40, 0));
}

#[test]
fn a_stored_checkpoint_serves_its_prompt() {
    let mut c: PrefixCache<u32> = PrefixCache::new(100, 10, 0);
    assert!(c.make_room(&[1, 2, 3], 2, 10));
    c.insert(&[1, 2, 3], 2, 5, vec![6], true, 0, 10, 0);
    let e = c.entries.back().unwrap();
    assert_eq!((e.tokens.clone(), e.following, e.complete, e.next), (vec![1, 2], Some(3), false, 5));
    assert!(c.reuse(&[1, 2, 3], 1));
    assert!(!c.reuse(&[1, 2, 4], 1));
}

#[test]
fn room_is_made_by_dropping_the_oldest() {
    let mut c: PrefixCache<u32> = PrefixCache::new(30, 10, 0);
    for i in 0..3u32 {
        assert!(c.make_room(&[i], 1, 10));
        c.insert(&[i], 1, 0, vec![], false, i, 10, 0);
    }
    assert!(c.make_room(&[9], 1, 15));
    assert_eq!(c.entries.iter().map(|e| e.state).collect::<Vec<_>>(), vec![2]);
    assert_eq!(c.evictions, 2);
    assert!(!c.make_room(&[9], 1, 31));
    assert!(!c.make_room(&[9], 0, 1));
}

#[test]
fn a_checkpoint_replaces_its_like() {
    let mut c = stored(&[&[1], &[2]]);
    assert!(c.make_room(&[1], 1, 20));
    c.insert(&[1], 1, 3, vec![], false, 7, 20, 9);
    assert_eq!(c.entries.len(), 2);
    assert_eq!((c.entries.back().unwrap().state, c.used), (7, 30));
}

#[test]
fn entries_are_limited() {
    let mut c: PrefixCache<u32> = PrefixCache::new(1000, 2, 0);
    for i in 0..5u32 {
        assert!(c.make_room(&[i], 1, 1));
        c.insert(&[i], 1, 0, vec![], false, i, 1, 0);
        assert!(c.entries.len() <= 2);
    }
    assert_eq!(c.evictions, 3);
}

#[test]
fn idle_checkpoints_expire() {
    let mut c: PrefixCache<u32> = PrefixCache::new(1000, 10, 1);
    for (i, now) in [(0u32, 0u128), (1, 500_000_000)] {
        assert!(c.make_room(&[i], 1, 1));
        c.insert(&[i], 1, 0, vec![], false, i, 1, now);
    }
    c.expire(999_999_999);
    assert_eq!(c.entries.len(), 2);
    c.expire(1_000_000_000);
    assert_eq!(c.entries.len(), 1);
    c.evict_oldest();
    c.evict_oldest();
    assert_eq!(c.stats(), (0, 0, 2));
}

#[test]
fn prefill_stops_where_checkpoints_are_kept() {
    assert_eq!(boundaries(10, 0, &[4, 7, 4, 12, 0], true), vec![4, 7, 9, 10]);
    assert_eq!(boundaries(10, 4, &[4, 7], true), vec![7, 9, 10]);
    assert_eq!(boundaries(10, 0, &[4], false), vec![10]);
    assert_eq!(boundaries(1, 0, &[], true), vec![1]);
}

#[test]
fn prefill_covers_the_prompt() {
    let limits = StepLimits { engine_min: 8, engine_rows: 10, batch_rows: 3 };
    let steps = prefill_steps(2, &[5, 30, 31], &limits);
    assert_eq!(steps.first().unwrap().start, 2);
    assert_eq!(steps.last().unwrap().end, 31);
    for pair in steps.windows(2) {
        assert_eq!(pair[0].end, pair[1].start);
    }
    let shown: Vec<_> = steps.iter().map(|s| (s.start, s.end, s.engine, s.checkpoint, s.release)).collect();
    assert_eq!(
        shown,
        vec![
            (2, 5, false, true, true),
            (5, 14, true, true, false),
            (14, 23, true, true, false),
            (23, 30, true, true, true),
            (30, 31, false, true, true),
        ]
    );
    for stop in [5, 30, 31] {
        assert!(steps.iter().any(|s| s.end == stop && s.checkpoint));
    }
}

#[test]
fn step_limits_have_defaults() {
    let l = step_limits(None, None, 512, None, 16);
    assert_eq!((l.engine_min, l.engine_rows, l.batch_rows), (64, 512, 16));
    let m = step_limits(Some(1), Some(0), 512, Some(4), 16);
    assert_eq!((m.engine_min, m.engine_rows, m.batch_rows), (1, 1, 4));
}

#[test]
fn drafts_follow_the_last_step() {
    assert_eq!(draft_work(true, true, 0), DraftWork::Nothing);
    assert_eq!(draft_work(true, false, 2), DraftWork::Nothing);
    assert_eq!(draft_work(true, true, 1), DraftWork::EngineDraft { chain: false });
    assert_eq!(draft_work(true, true, 2), DraftWork::EngineDraft { chain: true });
    assert_eq!(draft_work(false, false, 3), DraftWork::Head { drafts: 1 });
    assert_eq!(draft_work(false, true, 3), DraftWork::Head { drafts: 3 });
}

#[test]
fn checkpoints_count_their_tokens() {
    assert_eq!(checkpoint_bytes(1000, 10, 64, 2), 1112);
}

fn whole_limits() -> StepLimits {
    StepLimits { engine_min: 100, engine_rows: 10, batch_rows: 4 }
}

#[test]
fn the_same_prompt_is_reused_whole() {
    let mut c: PrefixCache<u32> = PrefixCache::new(100, 4, 0);
    let first = c.prepare(vec![1, 2, 3], &[], &whole_limits(), 1, 0);
    assert_eq!((first.restore, first.cached), (false, 0));
    assert!(c.make_room(&[1, 2, 3], 3, 30));
    c.insert(&[1, 2, 3], 3, 77, vec![78], true, 9, 30, 1);
    let before = c.stats();
    for now in 2..4 {
        let again = c.prepare(vec![1, 2, 3], &[], &whole_limits(), 1, now);
        assert_eq!((again.restore, again.cached, again.prompt.steps.len()), (true, 3, 0));
        assert_eq!((again.prompt.seed.next, again.prompt.seed.drafts), (77, vec![78]));
        assert_eq!(c.stats(), before);
    }
}

#[test]
fn a_cache_without_capacity_stays_empty() {
    let mut c: PrefixCache<u32> = PrefixCache::new(0, 4, 0);
    assert!(!c.make_room(&[1, 2], 2, 1));
    let prepared = c.prepare(vec![1, 2], &[1], &whole_limits(), 0, 0);
    assert_eq!((prepared.restore, prepared.cached, c.stats()), (false, 0, (0, 0, 0)));
}

#[test]
fn stored_checkpoints_keep_every_limit() {
    let mut c: PrefixCache<u32> = PrefixCache::new(50, 3, 0);
    for i in 0..20u32 {
        let bytes = 5 + (i as usize * 7) % 30;
        if c.make_room(&[i, i + 1], 2, bytes) {
            c.insert(&[i, i + 1], 2, 0, vec![], false, i, bytes, u128::from(i));
        }
        let (entries, used, _) = c.stats();
        assert!(entries <= 3 && used <= 50);
        assert_eq!(used, c.entries.iter().map(|e| e.bytes).sum::<usize>());
    }
}
