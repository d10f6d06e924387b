use cherenkov::config::{Config, Defaults, Overrides, Source};
use cherenkov::control::activity::{experts, layers, page, range, summary, PageError};
use cherenkov::control::state::{
    CacheStats, MemoryStats, ReloadError, StateError, Stats, Versioned,
};
use cherenkov::control::stats::{ratio, Ratio};
use cherenkov::control::{
    after_wait, encode_frame, frame, private_directory, private_lock, reply, same_user, take_place, understand,
    wait_milliseconds, Frame, FrameError, Standing, Taking, Waited, MAX_FRAME, TIMEOUT_NS,
};
use cherenkov::json::{self, Json};
use cherenkov::qwen4_exp::gpu::activity::reads::ReadTracker;
use cherenkov::qwen4_exp::gpu::activity::{ActivityError, ExpertActivity};
use cherenkov::qwen4_exp::gpu::memory::MemoryStats as DeviceMemory;
use cherenkov::qwen4_exp::manifest::ExpertLayout;

fn layout() -> ExpertLayout {
    ExpertLayout {
        layers: 2,
        experts: 3,
        inter: 1,
        hidden: 1,
        group: 1,
        record_bytes: 1,
        record_stride: 1,
        layer_prefixes: vec!["a".to_owned(), "b".to_owned()],
        gate_w: 0,
        up_w: 0,
        down_w: 0,
        gate_s: 0,
        gate_b: 0,
        up_s: 0,
        up_b: 0,
        down_s: 0,
        down_b: 0,
    }
}

fn activity() -> ExpertActivity {
    ExpertActivity::new(&layout())
}

fn config() -> Config {
    Config::new("/s".to_owned())
}

fn source(path: Option<&str>) -> Source {
    Source {
        path: path.map(str::to_owned),
        overrides: Overrides {
            root: None,
            model_dir: None,
            port: None,
            socket: None,
            prefix_cache_mib: None,
            experts: None,
            miss_experts: None,
            cut_weak: None,
            drafts: None,
            pool_gb: None,
            repack: false,
            max_tokens: None,
            max_ctx: None,
            no_eos: None,
        },
    }
}

#[test]
fn a_frame_survives_being_cut_into_pieces() {
    let value = Json::object().with("text", Json::text("line\nbreak"));
    let bytes = encode_frame(&value).unwrap_or_else(|e| panic!("{}", e.message()));
    for size in 1..bytes.len() {
        let mut f = Frame::new();
        let mut done = false;
        for piece in bytes.chunks(size) {
            assert!(!done);
            done = f.feed(piece).unwrap_or_else(|e| panic!("{}", e.message()));
        }
        assert!(done);
        assert_eq!(f.bytes, bytes[..bytes.len() - 1].to_vec());
    }
}

#[test]
fn frames_are_bounded() {
    let mut f = Frame::new();
    assert!(matches!(f.feed(&[]), Err(FrameError::Incomplete)));
    assert_eq!(f.feed(&vec![b'x'; MAX_FRAME]).ok(), Some(false));
    assert!(matches!(f.feed(b"x"), Err(FrameError::RequestTooLarge)));
    let mut g = Frame::new();
    assert_eq!(g.feed(b"ab\ncd").ok(), Some(true));
    assert_eq!(g.bytes, b"ab");
    assert_eq!(frame(vec![b'y'; MAX_FRAME]).unwrap().len(), MAX_FRAME + 1);
    assert_eq!(
        frame(vec![b'y'; MAX_FRAME + 1]).err().unwrap().message(),
        "control response exceeds 64 KiB"
    );
}

#[test]
fn waits_end() {
    assert_eq!(after_wait(1, false), Waited::Ready);
    assert_eq!(after_wait(0, false), Waited::TimedOut);
    assert_eq!(after_wait(-1, true), Waited::Again);
    assert_eq!(after_wait(-1, false), Waited::Failed);
    assert_eq!(wait_milliseconds(0), Some(2001));
    assert_eq!(wait_milliseconds(TIMEOUT_NS - 1), Some(1));
    assert_eq!(wait_milliseconds(TIMEOUT_NS), Some(1));
    assert_eq!(wait_milliseconds(TIMEOUT_NS + 1), None);
}

#[test]
fn only_the_own_user_is_served() {
    assert!(same_user(true, 5, 5).is_ok());
    assert!(matches!(same_user(true, 6, 5), Err(FrameError::PeerForeign)));
    assert!(matches!(same_user(false, 5, 5), Err(FrameError::PeerUnknown)));
    assert!(private_directory(true, 5, 0o40700, 5));
    assert!(!private_directory(true, 5, 0o40755, 5) && !private_directory(false, 5, 0o700, 5));
    assert!(private_lock(true, 5, 0o100600, 5) && !private_lock(true, 4, 0o600, 5));
}

#[test]
fn only_a_stale_socket_is_replaced() {
    assert_eq!(take_place(Standing::Nothing), Taking::Bind);
    assert_eq!(take_place(Standing::Stale), Taking::RemoveAndBind);
    assert_eq!(take_place(Standing::Live), Taking::InUse);
    assert_eq!(take_place(Standing::Foreign), Taking::Refuse);
}

#[test]
fn answers_are_understood() {
    let shown = |v: &Json| String::from_utf8(json::write(v).unwrap()).unwrap();
    let good = reply(Ok(Json::unsigned(3)));
    assert_eq!(shown(&good), r#"{"data":3,"error":null,"ok":true}"#);
    assert_eq!(shown(&understand(&good).unwrap()), "3");
    let bad = reply(Err("no".to_owned()));
    assert_eq!(understand(&bad).err(), Some("no".to_owned()));
    assert_eq!(understand(&Json::Null).err(), Some("invalid control response".to_owned()));
}

#[test]
fn ratios_need_a_whole() {
    assert_eq!(ratio(1, 0), None);
    assert_eq!(ratio(1, 2), Some(Ratio { numerator: 1, denominator: 2 }));
}

#[test]
fn pages_are_ranged() {
    assert_eq!(range(10, 8, 5), Ok((8, 10)));
    assert_eq!(range(10, 0, 5), Ok((0, 5)));
    assert_eq!(range(10, 10, 5), Ok((10, 10)));
    assert_eq!(range(10, 11, 5), Err(PageError::Offset));
    assert_eq!(range(10, 0, 0), Err(PageError::Limit));
    assert_eq!(range(10, 0, 129), Err(PageError::Limit));
    assert_eq!(range(usize::MAX, usize::MAX - 1, 128), Ok((usize::MAX - 1, usize::MAX)));
}

#[test]
fn pages_cover_the_list_once() {
    let all: Vec<u32> = (0..40).collect();
    let mut seen = Vec::new();
    let mut offset = 0;
    loop {
        let (start, end) = range(all.len(), offset, 16).unwrap();
        let sizes = vec![6000usize; end - start];
        let p = page(all.len(), start, all[start..end].to_vec(), &sizes).unwrap();
        assert_eq!((p.offset, p.total), (offset, 40));
        seen.extend(p.data);
        match p.next_offset {
            Some(next) => offset = next,
            None => break,
        }
    }
    assert_eq!(seen, all);
}

#[test]
fn pages_are_bounded_by_bytes() {
    assert!(matches!(page(1, 0, vec![1], &[61440]), Err(PageError::EntryTooLarge)));
    assert_eq!(page(1, 0, vec![1], &[61439]).unwrap().data, vec![1]);
    assert_eq!(page(2, 0, vec![1, 2], &[61438, 1]).unwrap().next_offset, Some(1));
    assert_eq!(PageError::UnknownLayer.message(), "unknown expert layer");
}

#[test]
fn layers_and_experts_are_listed() {
    let mut a = activity();
    a.lookup(3, 2, true);
    a.lookup(4, 5, false);
    a.read(4, 100);
    let list = layers(&a, 1, 128).unwrap();
    assert_eq!(list.len(), 1);
    assert_eq!((list[0].layer, list[0].name.as_str(), list[0].experts), (1, "b", 3));
    let c = list[0].counters;
    assert_eq!((c.selected_rows, c.cache_hits, c.cache_misses), (7, 1, 1));
    assert_eq!((c.read_requests, c.read_bytes_requested), (1, 100));
    let e = experts(&a, 1, 1, 1).unwrap();
    assert_eq!((e.len(), e[0].layer, e[0].expert, e[0].counters.selected_rows), (1, 1, 1, 5));
    assert_eq!(experts(&a, 2, 0, 1).err(), Some(PageError::UnknownLayer));
}

#[test]
fn the_summary_adds_the_layers() {
    let mut a = activity();
    a.elapsed_ns = 10;
    for layer in &mut a.layers {
        layer.phases.resident_ns = 3;
        layer.phases.router_to_resident_ns = 1;
        layer.quant[0].reads.demand.completed_bytes = 50;
        layer.quant[2].reads.prefetch.completed_reads = 2;
    }
    let s = summary(&a);
    assert_eq!((s.reads.completed_bytes, s.reads.completed_reads), (100, 4));
    assert_eq!(s.rates.bytes_per_ns, ratio(100, 10));
    assert_eq!(s.rates.reads_per_ns, ratio(4, 10));
    assert_eq!(s.rates.gpu_stage_fraction, ratio(6, 8));
    assert_eq!(s.rates.gpu_handoff_gap_fraction, ratio(2, 8));
    assert_eq!(s.streaming.phases.resident_ns, 6);
    let empty = summary(&activity());
    assert_eq!(empty.rates.bytes_per_ns, None);
}

#[test]
fn requests_are_counted() {
    let mut s = Stats::new(activity());
    s.queue();
    s.queue();
    s.begin();
    s.bounce();
    s.reject();
    assert_eq!((s.queued_requests, s.active_requests, s.rejected_requests), (0, 1, 2));
    s.token();
    s.current("r1", 4, "decode", 7);
    s.token();
    assert_eq!(s.generated_tokens, 2);
    let c = s.current.as_ref().unwrap();
    assert_eq!((c.request_id.as_str(), c.config_generation, c.phase, c.generated_tokens), ("r1", 4, "decode", 8));
}

#[test]
fn observations_wait_for_the_model() {
    let mut s = Stats::new(activity());
    assert_eq!(s.observation().err(), Some(StateError::NotReady));
    assert_eq!(StateError::NotReady.message(), "model not ready: still loading");
    s.serve("127.0.0.1:8080".to_owned());
    let mut spare = activity().snapshot(&ReadTracker::new(2), 99, true);
    let memory = MemoryStats { resources: DeviceMemory::default(), observed_at_uptime_ns: 5 };
    s.publish_observation(CacheStats { entries: 1, bytes: 2, evictions: 3 }, memory, &mut spare);
    let o = s.observation().unwrap();
    assert_eq!((o.observed_at_uptime_ns, o.elapsed_ns, o.gpu_timestamps_available), (5, 99, true));
    assert_eq!(spare.elapsed_ns, 0);
    s.activity.layer_prefixes.pop();
    assert_eq!(s.observation().err(), Some(StateError::Activity(ActivityError::LayerNames)));
}

#[test]
fn only_defaults_reload() {
    let mut v = Versioned::new(config());
    assert_eq!(
        v.reload(&source(None), config()).err().unwrap().message(),
        "server was started without --config"
    );
    assert_eq!(v.reload(&source(Some("/c")), config()).ok(), Some(1));
    let mut next = config();
    next.defaults = Defaults { max_tokens: 9, ..next.defaults };
    assert_eq!(v.reload(&source(Some("/c")), next).ok(), Some(2));
    assert_eq!(v.config.defaults.max_tokens, 9);
    let mut other = config();
    other.server.port = 1;
    other.limits.http_readers = 3;
    let error = v.reload(&source(Some("/c")), other).err().unwrap();
    assert!(matches!(error, ReloadError::Restart(_)));
    assert_eq!(error.message(), "restart required for changed sections: server, limits");
    assert_eq!((v.generation, v.config.server.port), (2, 8080));
}

#[test]
fn pages_of_layers_cover_every_layer() {
    let a = activity();
    let (mut offset, mut seen) = (Some(0), Vec::new());
    while let Some(start) = offset {
        let data = layers(&a, start, 1).unwrap();
        let sizes = vec![100; data.len()];
        let p = page(a.layers.len(), start, data, &sizes).unwrap();
        seen.extend(p.data.iter().map(|l| l.layer));
        offset = p.next_offset;
    }
    assert_eq!(seen, (0..a.layers.len()).collect::<Vec<_>>());
}
