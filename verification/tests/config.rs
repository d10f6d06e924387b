use cherenkov::config::{
    absolute, accept_file, default_socket, settle, Config, ConfigError, Defaults, Overrides, Source, MAX_CONFIG_BYTES,
};
use cherenkov::number::{Real32, Real64};
use cherenkov::options::{OptionsError, PoolBudget};

const MEMORY: usize = 25_000_000_000;

fn wide(x: f64) -> Real64 {
    Real64 { bits: x.to_bits() }
}

fn built_in() -> Config {
    Config::new("/tmp/s".to_owned())
}

fn nothing() -> Overrides {
    Overrides {
        root: None,
        model_dir: None,
        port: None,
        socket: None,
        prefix_cache_mib: None,
        experts: None,
        miss_experts: None,
        cut_weak: None,
        drafts: None,
        pool_gb: None,
        repack: false,
        max_tokens: None,
        max_ctx: None,
        no_eos: None,
    }
}

fn fault(change: impl Fn(&mut Config)) -> ConfigError {
    let mut c = built_in();
    change(&mut c);
    c.validate(MEMORY).err().unwrap()
}

#[test]
fn the_built_in_configuration_is_valid() {
    let c = built_in();
    assert_eq!(c.validate(MEMORY), Ok(()));
    assert_eq!(c.server.port, 8080);
    assert_eq!(c.server.drafts, 2);
    assert_eq!(c.limits.context_tokens, 2048);
    assert_eq!(c.defaults.max_tokens, 64);
    assert_eq!(f64::from_bits(c.limits.memory_gb.bits), 25.0);
}

#[test]
fn each_limit_is_checked() {
    assert_eq!(fault(|c| c.experts.resident_bits = 5), ConfigError::Options(OptionsError::Precision));
    for gb in [0.0, -1.0, 25.5, f64::NAN] {
        assert_eq!(fault(|c| c.limits.memory_gb = wide(gb)), ConfigError::Memory);
    }
    assert_eq!(fault(|c| c.limits.context_tokens = 262_145), ConfigError::Context);
    assert_eq!(fault(|c| c.limits.prefix_cache_mib = 2049), ConfigError::PrefixCache);
    assert_eq!(fault(|c| c.limits.cache_max_entries = 0), ConfigError::CacheEntries);
    assert_eq!(fault(|c| c.limits.cache_max_entries = 1025), ConfigError::CacheEntries);
    assert_eq!(fault(|c| c.limits.queued_requests = 0), ConfigError::QueuedRequests);
    assert_eq!(fault(|c| c.limits.http_readers = 257), ConfigError::HttpReaders);
    assert_eq!(fault(|c| c.limits.request_bytes = 16_777_217), ConfigError::RequestBytes);
    assert_eq!(fault(|c| c.limits.max_output_tokens = 0), ConfigError::OutputPolicy);
    assert_eq!(fault(|c| c.defaults.max_tokens = c.limits.max_output_tokens + 1), ConfigError::DefaultTokens);
    assert_eq!(
        fault(|c| {
            c.limits.context_tokens = 66;
            c.defaults.max_tokens = 64;
        }),
        ConfigError::NoCapacity
    );
    assert_eq!(fault(|c| c.server.socket = "s".to_owned()), ConfigError::SocketPath);
    let mut c = built_in();
    c.limits.prefix_cache_mib = 2;
    assert_eq!(c.validate(2 * 1048576), Err(ConfigError::CacheExceedsMemory));
    assert_eq!(c.validate(2 * 1048576 + 1), Ok(()));
    assert_eq!(c.cache_bytes(), 2_097_152);
}

#[test]
fn faults_are_worded() {
    assert_eq!(
        fault(|c| c.limits.memory_gb = wide(26.0)).message(),
        "limits.memory_gb must be positive and at most 25 decimal GB"
    );
    assert_eq!(ConfigError::TooLarge.message(), "config exceeds 64 KiB");
    assert_eq!(ConfigError::NoParent.message(), "config path has no parent");
}

#[test]
fn a_valid_configuration_leaves_room_for_a_prompt() {
    let c = built_in();
    assert!(c.defaults.max_tokens + usize::from(c.server.drafts) < c.limits.context_tokens);
}

#[test]
fn overrides_win_and_keep_winning() {
    let o = Overrides {
        root: Some("/r".to_owned()),
        model_dir: Some("/m".to_owned()),
        port: Some(9),
        socket: Some("/sock".to_owned()),
        prefix_cache_mib: Some(3),
        experts: Some(2),
        miss_experts: Some(2),
        cut_weak: Some(Real32 { bits: 0.5f32.to_bits() }),
        drafts: Some(0),
        pool_gb: Some(PoolBudget::Max),
        repack: false,
        max_tokens: Some(5),
        max_ctx: Some(100),
        no_eos: Some(true),
    };
    let mut c = built_in();
    for _ in 0..2 {
        o.apply(&mut c);
        assert_eq!(c.server.root.as_deref(), Some("/r"));
        assert_eq!(c.server.model_dir.as_deref(), Some("/m"));
        assert_eq!((c.server.port, c.server.drafts), (9, 0));
        assert_eq!(c.server.socket, "/sock");
        assert_eq!((c.limits.prefix_cache_mib, c.limits.context_tokens), (3, 100));
        assert_eq!((c.experts.resident_bits, c.experts.miss_bits), (2, Some(2)));
        assert_eq!(f32::from_bits(c.experts.cut_weak.bits), 0.5);
        assert!(matches!(c.experts.pool_gb, PoolBudget::Max));
        assert_eq!((c.defaults.max_tokens, c.defaults.no_eos), (5, true));
    }
    assert_eq!(c.model_dir("/d".to_owned()), "/m");
    assert_eq!(built_in().model_dir("/d".to_owned()), "/d");
}

#[test]
fn the_chosen_options_follow_the_configuration() {
    let mut c = built_in();
    c.experts.resident_bits = 3;
    c.server.drafts = 1;
    c.defaults.no_eos = true;
    let o = c.options();
    assert_eq!((o.experts, o.drafts, o.no_eos), (3, 1, true));
    assert_eq!((o.max_ctx, o.max_tokens), (2048, 64));
    assert!(o.build_missing_store && !o.raw && !o.check);
}

#[test]
fn sections_that_need_a_restart_are_named() {
    let c = built_in();
    let mut d = built_in();
    assert_eq!(c.restart_changes(&d), Vec::<&str>::new());
    d.defaults = Defaults { max_tokens: 9, ..d.defaults };
    assert_eq!(c.restart_changes(&d), Vec::<&str>::new());
    d.experts.pool_gb = PoolBudget::Gb(wide(1.0));
    d.server.port = 1;
    assert_eq!(c.restart_changes(&d), vec!["server", "experts"]);
    d.limits.http_readers = 7;
    assert_eq!(c.restart_changes(&d), vec!["server", "limits", "experts"]);
}

#[test]
fn files_are_bounded_and_have_a_directory() {
    assert_eq!(accept_file(MAX_CONFIG_BYTES, Some("/etc")), Ok("/etc".to_owned()));
    assert_eq!(accept_file(MAX_CONFIG_BYTES + 1, Some("/etc")), Err(ConfigError::TooLarge));
    assert_eq!(accept_file(1, None), Err(ConfigError::NoParent));
}

#[test]
fn paths_of_a_file_are_relative_to_it() {
    let mut c = Config::new("run/s".to_owned());
    c.server.model_dir = Some("m".to_owned());
    c.server.root = Some("/abs".to_owned());
    let d = settle(c, "/etc/app");
    assert_eq!(d.server.model_dir.as_deref(), Some("/etc/app/m"));
    assert_eq!(d.server.root.as_deref(), Some("/abs"));
    assert_eq!(d.server.socket, "/etc/app/run/s");
}

#[test]
fn sources_are_resolved() {
    let s = Source { path: None, overrides: Overrides { port: Some(1), ..nothing() } };
    assert_eq!(s.resolve(built_in(), MEMORY).unwrap().server.port, 1);
    let t = Source { path: None, overrides: Overrides { max_ctx: Some(0), ..nothing() } };
    assert_eq!(t.resolve(built_in(), MEMORY).err(), Some(ConfigError::Options(OptionsError::Limits)));
}

#[test]
fn sockets_are_private_to_the_user() {
    assert_eq!(default_socket("/tmp", 501), "/tmp/cherenkov-501/control.sock");
    assert_eq!(absolute("/a", "/here"), "/a");
    assert_eq!(absolute("a", "/here"), "/here/a");
}
