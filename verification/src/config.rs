//! Server configuration: built-ins, one file, then explicit overrides.

use crate::number::{Real32, Real64};
use crate::options;
use crate::options::{Options, OptionsError, PoolBudget};
use crate::paths;
use crate::text;
use crate::text::decimal;
use vstd::prelude::*;
use vstd::string::*;

verus! {

/// The bits of 25 in 64 bits.
pub const TWENTY_FIVE64: u64 = 0x4039_0000_0000_0000;

/// The largest configuration file.
pub const MAX_CONFIG_BYTES: usize = 65536;

/// The longest context that the model was made for.
pub const MAX_CONTEXT: usize = 262144;

/// The private socket of a user.
pub open spec fn socket_path(temporary: Seq<char>, uid: u32) -> Seq<char> {
    paths::joined(paths::joined(temporary, "cherenkov-"@ + text::decimal_of(uid as nat)), "control.sock"@)
}

pub fn default_socket(temporary: &str, uid: u32) -> (r: String)
    ensures
        r@ == socket_path(temporary@, uid),
{
    let mut name: String = "cherenkov-".to_owned();
    name.append(decimal(uid as u64).as_str());
    let dir: String = paths::join(temporary, name.as_str());
    paths::join(dir.as_str(), "control.sock")
}

/// A path as it is where it is absolute, else seen from the working directory.
pub fn absolute(path: &str, current: &str) -> (r: String)
    ensures
        r@ == paths::joined(current@, path@),
{
    paths::join(current, path)
}

#[derive(Debug)]
pub struct Server {
    pub model_dir: Option<String>,
    /// Optional portable root for model data, scratch and configuration.
    pub root: Option<String>,
    pub port: u16,
    pub socket: String,
    pub drafts: u8,
}

/// Equality of paths that may be missing.
pub open spec fn same_optional(a: Option<String>, b: Option<String>) -> bool {
    match (a, b) {
        (None, None) => true,
        (Some(x), Some(y)) => paths::same_path(x@, y@),
        _ => false,
    }
}

fn equal_optional(a: &Option<String>, b: &Option<String>) -> (r: bool)
    ensures
        r == same_optional(*a, *b),
{
    match (a, b) {
        (None, None) => true,
        (Some(x), Some(y)) => paths::equal(x.as_str(), y.as_str()),
        _ => false,
    }
}

/// The same text, where there is one.
pub open spec fn same_text(a: Option<String>, b: Option<String>) -> bool {
    match (a, b) {
        (None, None) => true,
        (Some(x), Some(y)) => x@ == y@,
        _ => false,
    }
}

impl Server {
    /// The built-in settings, at a socket.
    pub fn new(socket: String) -> (r: Server)
        ensures
            r.model_dir is None,
            r.root is None,
            r.port == 8080,
            r.socket@ == socket@,
            r.drafts == 2,
    {
        Server { model_dir: None, root: None, port: 8080, socket, drafts: 2 }
    }

    pub open spec fn same_as(self, other: Server) -> bool {
        &&& same_optional(self.model_dir, other.model_dir)
        &&& same_optional(self.root, other.root)
        &&& self.port == other.port
        &&& paths::same_path(self.socket@, other.socket@)
        &&& self.drafts == other.drafts
    }

    pub fn equals(&self, other: &Server) -> (r: bool)
        ensures
            r == self.same_as(*other),
    {
        equal_optional(&self.model_dir, &other.model_dir) && equal_optional(&self.root, &other.root) && self.port
            == other.port && paths::equal(self.socket.as_str(), other.socket.as_str()) && self.drafts == other.drafts
    }

    /// The same settings, letter for letter.
    pub open spec fn copies(self, other: Server) -> bool {
        &&& same_text(self.model_dir, other.model_dir)
        &&& same_text(self.root, other.root)
        &&& self.port == other.port
        &&& self.socket@ == other.socket@
        &&& self.drafts == other.drafts
    }
}

#[derive(Debug, Clone, Copy)]
pub struct Limits {
    /// Device allocations plus reserved prefix cache, in decimal gigabytes.
    pub memory_gb: Real64,
    pub context_tokens: usize,
    pub prefix_cache_mib: usize,
    pub cache_max_entries: usize,
    /// Zero disables time-based expiry; the byte and entry limits still apply.
    pub cache_idle_seconds: u64,
    pub queued_requests: usize,
    pub http_readers: usize,
    pub request_bytes: usize,
    pub max_output_tokens: usize,
}

/// The built-in limits.
pub open spec fn default_limits() -> Limits {
    Limits {
        memory_gb: Real64 { bits: TWENTY_FIVE64 },
        context_tokens: 2048,
        prefix_cache_mib: 512,
        cache_max_entries: 16,
        cache_idle_seconds: 900,
        queued_requests: 8,
        http_readers: 32,
        request_bytes: 4194304,
        max_output_tokens: 262144,
    }
}

impl Default for Limits {
    fn default() -> (r: Limits)
        ensures
            r == default_limits(),
    {
        Limits {
            memory_gb: Real64 { bits: TWENTY_FIVE64 },
            context_tokens: 2048,
            prefix_cache_mib: 512,
            cache_max_entries: 16,
            cache_idle_seconds: 900,
            queued_requests: 8,
            http_readers: 32,
            request_bytes: 4 * 1024 * 1024,
            max_output_tokens: 262144,
        }
    }
}

impl Limits {
    pub open spec fn same_as(self, other: Limits) -> bool {
        &&& self.memory_gb.same(other.memory_gb)
        &&& self.context_tokens == other.context_tokens
        &&& self.prefix_cache_mib == other.prefix_cache_mib
        &&& self.cache_max_entries == other.cache_max_entries
        &&& self.cache_idle_seconds == other.cache_idle_seconds
        &&& self.queued_requests == other.queued_requests
        &&& self.http_readers == other.http_readers
        &&& self.request_bytes == other.request_bytes
        &&& self.max_output_tokens == other.max_output_tokens
    }

    pub fn equals(&self, other: &Limits) -> (r: bool)
        ensures
            r == self.same_as(*other),
    {
        self.memory_gb.equals(&other.memory_gb) && self.context_tokens == other.context_tokens && self.prefix_cache_mib
            == other.prefix_cache_mib && self.cache_max_entries == other.cache_max_entries && self.cache_idle_seconds
            == other.cache_idle_seconds && self.queued_requests == other.queued_requests && self.http_readers
            == other.http_readers && self.request_bytes == other.request_bytes && self.max_output_tokens
            == other.max_output_tokens
    }
}

/// What a request gets that does not say otherwise.
#[derive(Debug, Clone, Copy, PartialEq, Eq, Structural)]
pub struct Defaults {
    pub max_tokens: usize,
    pub no_eos: bool,
    pub stream: bool,
    pub include_usage: bool,
}

/// The built-in defaults.
pub open spec fn default_defaults() -> Defaults {
    Defaults { max_tokens: 64, no_eos: false, stream: false, include_usage: false }
}

impl Default for Defaults {
    fn default() -> (r: Defaults)
        ensures
            r == default_defaults(),
    {
        Defaults { max_tokens: 64, no_eos: false, stream: false, include_usage: false }
    }
}

#[derive(Debug, Clone, Copy)]
pub struct Experts {
    pub resident_bits: u32,
    /// None follows `resident_bits`; mixed mode requires four-bit residents.
    pub miss_bits: Option<u32>,
    pub pool_gb: PoolBudget,
    pub cut_weak: Real32,
    pub build_missing_store: bool,
}

/// The built-in expert settings.
pub open spec fn default_experts() -> Experts {
    Experts {
        resident_bits: 4,
        miss_bits: None,
        pool_gb: PoolBudget::Adaptive,
        cut_weak: Real32 { bits: 0 },
        build_missing_store: true,
    }
}

impl Default for Experts {
    fn default() -> (r: Experts)
        ensures
            r == default_experts(),
    {
        Experts {
            resident_bits: 4,
            miss_bits: None,
            pool_gb: PoolBudget::Adaptive,
            cut_weak: Real32 { bits: 0 },
            build_missing_store: true,
        }
    }
}

impl Experts {
    pub open spec fn same_as(self, other: Experts) -> bool {
        &&& self.resident_bits == other.resident_bits
        &&& self.miss_bits == other.miss_bits
        &&& self.pool_gb.same_as(other.pool_gb)
        &&& self.cut_weak.same(other.cut_weak)
        &&& self.build_missing_store == other.build_missing_store
    }

    pub fn equals(&self, other: &Experts) -> (r: bool)
        ensures
            r == self.same_as(*other),
    {
        let bits: bool = match (self.miss_bits, other.miss_bits) {
            (None, None) => true,
            (Some(a), Some(b)) => a == b,
            _ => false,
        };
        self.resident_bits == other.resident_bits && bits && self.pool_gb.equals(&other.pool_gb)
            && self.cut_weak.equals(&other.cut_weak) && self.build_missing_store == other.build_missing_store
    }
}

#[derive(Debug)]
pub struct Config {
    pub server: Server,
    pub limits: Limits,
    pub defaults: Defaults,
    pub experts: Experts,
}

/// Why a configuration is refused.
#[derive(Debug, Clone, Copy, PartialEq, Eq, Structural)]
pub enum ConfigError {
    Options(OptionsError),
    Memory,
    Context,
    PrefixCache,
    CacheEntries,
    CacheExceedsMemory,
    QueuedRequests,
    HttpReaders,
    RequestBytes,
    OutputPolicy,
    DefaultTokens,
    NoCapacity,
    SocketPath,
    TooLarge,
    NoParent,
}

impl ConfigError {
    pub open spec fn text(self) -> Seq<char> {
        match self {
            ConfigError::Options(e) => e.text(),
            ConfigError::Memory => "limits.memory_gb must be positive and at most 25 decimal GB"@,
            ConfigError::Context => "context exceeds the model's 262144-token limit"@,
            ConfigError::PrefixCache => "prefix cache must be at most 2048 MiB"@,
            ConfigError::CacheEntries => "cache_max_entries must be 1..1024"@,
            ConfigError::CacheExceedsMemory => "prefix cache exceeds memory budget"@,
            ConfigError::QueuedRequests => "queued_requests must be 1..1024"@,
            ConfigError::HttpReaders => "http_readers must be 1..256"@,
            ConfigError::RequestBytes => "request_bytes must be 1..16777216"@,
            ConfigError::OutputPolicy => "max_output_tokens must be 1..262144"@,
            ConfigError::DefaultTokens => "default max_tokens exceeds output policy"@,
            ConfigError::NoCapacity => "default output and drafts leave no prompt capacity"@,
            ConfigError::SocketPath => "control socket path must be absolute"@,
            ConfigError::TooLarge => "config exceeds 64 KiB"@,
            ConfigError::NoParent => "config path has no parent"@,
        }
    }

    pub fn message(&self) -> (r: &'static str)
        ensures
            r@ == self.text(),
    {
        match self {
            ConfigError::Options(e) => e.message(),
            ConfigError::Memory => "limits.memory_gb must be positive and at most 25 decimal GB",
            ConfigError::Context => "context exceeds the model's 262144-token limit",
            ConfigError::PrefixCache => "prefix cache must be at most 2048 MiB",
            ConfigError::CacheEntries => "cache_max_entries must be 1..1024",
            ConfigError::CacheExceedsMemory => "prefix cache exceeds memory budget",
            ConfigError::QueuedRequests => "queued_requests must be 1..1024",
            ConfigError::HttpReaders => "http_readers must be 1..256",
            ConfigError::RequestBytes => "request_bytes must be 1..16777216",
            ConfigError::OutputPolicy => "max_output_tokens must be 1..262144",
            ConfigError::DefaultTokens => "default max_tokens exceeds output policy",
            ConfigError::NoCapacity => "default output and drafts leave no prompt capacity",
            ConfigError::SocketPath => "control socket path must be absolute",
            ConfigError::TooLarge => "config exceeds 64 KiB",
            ConfigError::NoParent => "config path has no parent",
        }
    }
}

impl Config {
    /// The built-in configuration, at a socket.
    pub fn new(socket: String) -> (r: Config)
        ensures
            r.built_in(socket@),
    {
        Config {
            server: Server::new(socket),
            limits: Limits::default(),
            defaults: Defaults::default(),
            experts: Experts::default(),
        }
    }

    /// Whether nothing but the socket was chosen.
    pub open spec fn built_in(self, socket: Seq<char>) -> bool {
        &&& self.server.model_dir is None
        &&& self.server.root is None
        &&& self.server.port == 8080
        &&& self.server.socket@ == socket
        &&& self.server.drafts == 2
        &&& self.limits == default_limits()
        &&& self.defaults == default_defaults()
        &&& self.experts == default_experts()
    }

    /// The model's directory, given the one that is used where none is named.
    pub fn model_dir(&self, default_model: String) -> (r: String)
        ensures
            r@ == (match self.server.model_dir {
                Some(dir) => dir@,
                None => default_model@,
            }),
    {
        match &self.server.model_dir {
            Some(dir) => dir.clone(),
            None => default_model,
        }
    }

    /// The engine's choices.
    pub open spec fn chosen(self) -> Options {
        Options {
            experts: self.experts.resident_bits,
            miss_experts: self.experts.miss_bits,
            pool_gb: self.experts.pool_gb,
            cut_weak: self.experts.cut_weak,
            drafts: self.server.drafts,
            max_ctx: self.limits.context_tokens,
            max_tokens: self.defaults.max_tokens,
            no_eos: self.defaults.no_eos,
            build_missing_store: self.experts.build_missing_store,
            ..options::default_options()
        }
    }

    pub fn options(&self) -> (r: Options)
        ensures
            r == self.chosen(),
    {
        let mut o = Options::default();
        o.experts = self.experts.resident_bits;
        o.miss_experts = self.experts.miss_bits;
        o.pool_gb = self.experts.pool_gb;
        o.cut_weak = self.experts.cut_weak;
        o.drafts = self.server.drafts;
        o.max_ctx = self.limits.context_tokens;
        o.max_tokens = self.defaults.max_tokens;
        o.no_eos = self.defaults.no_eos;
        o.build_missing_store = self.experts.build_missing_store;
        o
    }

    /// The first reason against a configuration whose memory limit comes to so many bytes.
    pub open spec fn fault(self, memory_bytes: usize) -> Option<ConfigError> {
        let l = self.limits;
        if self.chosen().fault() is Some {
            Some(ConfigError::Options(self.chosen().fault()->0))
        } else if !options::positive_real(l.memory_gb) || l.memory_gb.key() > TWENTY_FIVE64 {
            Some(ConfigError::Memory)
        } else if l.context_tokens > MAX_CONTEXT {
            Some(ConfigError::Context)
        } else if l.prefix_cache_mib > 2048 {
            Some(ConfigError::PrefixCache)
        } else if !(1 <= l.cache_max_entries <= 1024) {
            Some(ConfigError::CacheEntries)
        } else if l.prefix_cache_mib * 1048576 >= memory_bytes {
            Some(ConfigError::CacheExceedsMemory)
        } else if !(1 <= l.queued_requests <= 1024) {
            Some(ConfigError::QueuedRequests)
        } else if !(1 <= l.http_readers <= 256) {
            Some(ConfigError::HttpReaders)
        } else if !(1 <= l.request_bytes <= 16777216) {
            Some(ConfigError::RequestBytes)
        } else if !(1 <= l.max_output_tokens <= 262144) {
            Some(ConfigError::OutputPolicy)
        } else if self.defaults.max_tokens > l.max_output_tokens {
            Some(ConfigError::DefaultTokens)
        } else if self.defaults.max_tokens + self.server.drafts >= l.context_tokens {
            Some(ConfigError::NoCapacity)
        } else if !paths::absolute(self.server.socket@) {
            Some(ConfigError::SocketPath)
        } else {
            None
        }
    }

    /// Accepts a configuration whose memory limit comes to so many bytes.
    pub fn validate(&self, memory_bytes: usize) -> (r: Result<(), ConfigError>)
        ensures
            match r {
                Ok(()) => self.fault(memory_bytes) is None,
                Err(e) => self.fault(memory_bytes) == Some(e),
            },
    {
        match self.options().validate() {
            Ok(()) => {},
            Err(e) => return Err(ConfigError::Options(e)),
        }
        let l = &self.limits;
        if !l.memory_gb.is_finite() || l.memory_gb.order_key() <= 0 || l.memory_gb.order_key() > TWENTY_FIVE64 as i64 {
            return Err(ConfigError::Memory);
        }
        if l.context_tokens > MAX_CONTEXT {
            return Err(ConfigError::Context);
        }
        if l.prefix_cache_mib > 2048 {
            return Err(ConfigError::PrefixCache);
        }
        if l.cache_max_entries < 1 || l.cache_max_entries > 1024 {
            return Err(ConfigError::CacheEntries);
        }
        if self.cache_bytes() >= memory_bytes {
            return Err(ConfigError::CacheExceedsMemory);
        }
        if l.queued_requests < 1 || l.queued_requests > 1024 {
            return Err(ConfigError::QueuedRequests);
        }
        if l.http_readers < 1 || l.http_readers > 256 {
            return Err(ConfigError::HttpReaders);
        }
        if l.request_bytes < 1 || l.request_bytes > 16 * 1024 * 1024 {
            return Err(ConfigError::RequestBytes);
        }
        if l.max_output_tokens < 1 || l.max_output_tokens > 262144 {
            return Err(ConfigError::OutputPolicy);
        }
        if self.defaults.max_tokens > l.max_output_tokens {
            return Err(ConfigError::DefaultTokens);
        }
        if self.defaults.max_tokens + self.server.drafts as usize >= l.context_tokens {
            return Err(ConfigError::NoCapacity);
        }
        if !paths::is_absolute(self.server.socket.as_str()) {
            return Err(ConfigError::SocketPath);
        }
        Ok(())
    }

    /// The prefix cache's size.
    pub fn cache_bytes(&self) -> (r: usize)
        requires
            self.limits.prefix_cache_mib * 1048576 <= usize::MAX,
        ensures
            r == self.limits.prefix_cache_mib * 1048576,
    {
        self.limits.prefix_cache_mib * 1048576
    }

    /// The sections in which a new configuration differs and that only a restart applies.
    pub fn restart_changes(&self, new: &Config) -> (r: Vec<&'static str>)
        ensures
            r@ == self.changed_sections(*new),
    {
        let mut changes: Vec<&'static str> = Vec::new();
        if !self.server.equals(&new.server) {
            changes.push("server");
        }
        if !self.limits.equals(&new.limits) {
            changes.push("limits");
        }
        if !self.experts.equals(&new.experts) {
            changes.push("experts");
        }
        assert(changes@ =~= self.changed_sections(*new));
        changes
    }

    pub open spec fn changed_sections(self, new: Config) -> Seq<&'static str> {
        section("server", !self.server.same_as(new.server)) + section("limits", !self.limits.same_as(new.limits))
            + section("experts", !self.experts.same_as(new.experts))
    }
}

/// A section's name where it changed.
pub open spec fn section(name: &'static str, changed: bool) -> Seq<&'static str> {
    if changed {
        seq![name]
    } else {
        Seq::empty()
    }
}

/// Only explicit values are kept, and applied again on every reload.
#[derive(Debug)]
pub struct Overrides {
    pub root: Option<String>,
    pub model_dir: Option<String>,
    pub port: Option<u16>,
    pub socket: Option<String>,
    /// Prefix cache in MiB; 0 disables it.
    pub prefix_cache_mib: Option<usize>,
    pub experts: Option<u32>,
    pub miss_experts: Option<u32>,
    pub cut_weak: Option<Real32>,
    pub drafts: Option<u8>,
    pub pool_gb: Option<PoolBudget>,
    /// Rebuild the selected low-bit store at startup.
    pub repack: bool,
    pub max_tokens: Option<usize>,
    pub max_ctx: Option<usize>,
    pub no_eos: Option<bool>,
}

/// The explicit value, where there is one.
pub open spec fn over<T>(explicit: Option<T>, otherwise: T) -> T {
    match explicit {
        Some(value) => value,
        None => otherwise,
    }
}

/// The explicit text, where there is one.
pub open spec fn over_text(explicit: Option<String>, otherwise: Seq<char>) -> Seq<char> {
    match explicit {
        Some(value) => value@,
        None => otherwise,
    }
}

/// The explicit path, where there is one, else the configured one, where there is one.
pub open spec fn over_path(explicit: Option<String>, otherwise: Option<String>, result: Option<String>) -> bool {
    same_text(
        result,
        match explicit {
            Some(path) => Some(path),
            None => otherwise,
        },
    )
}

impl Overrides {
    pub open spec fn server_over(self, old: Server, new: Server) -> bool {
        &&& over_path(self.root, old.root, new.root)
        &&& over_path(self.model_dir, old.model_dir, new.model_dir)
        &&& new.port == over(self.port, old.port)
        &&& new.socket@ == over_text(self.socket, old.socket@)
        &&& new.drafts == over(self.drafts, old.drafts)
    }

    pub open spec fn experts_over(self, old: Experts) -> Experts {
        Experts {
            resident_bits: over(self.experts, old.resident_bits),
            miss_bits: match self.miss_experts {
                Some(bits) => Some(bits),
                None => old.miss_bits,
            },
            cut_weak: over(self.cut_weak, old.cut_weak),
            pool_gb: over(self.pool_gb, old.pool_gb),
            ..old
        }
    }

    pub open spec fn limits_over(self, old: Limits) -> Limits {
        Limits {
            prefix_cache_mib: over(self.prefix_cache_mib, old.prefix_cache_mib),
            context_tokens: over(self.max_ctx, old.context_tokens),
            ..old
        }
    }

    pub open spec fn defaults_over(self, old: Defaults) -> Defaults {
        Defaults {
            max_tokens: over(self.max_tokens, old.max_tokens),
            no_eos: over(self.no_eos, old.no_eos),
            ..old
        }
    }

    /// Whether a configuration is another one with the explicit values in place.
    pub open spec fn laid_over(self, old: Config, new: Config) -> bool {
        &&& self.server_over(old.server, new.server)
        &&& new.experts == self.experts_over(old.experts)
        &&& new.limits == self.limits_over(old.limits)
        &&& new.defaults == self.defaults_over(old.defaults)
    }

    pub fn apply(&self, c: &mut Config)
        ensures
            self.laid_over(*old(c), *final(c)),
    {
        self.apply_server(&mut c.server);
        self.apply_experts(&mut c.experts);
        if let Some(n) = self.prefix_cache_mib {
            c.limits.prefix_cache_mib = n;
        }
        if let Some(n) = self.max_ctx {
            c.limits.context_tokens = n;
        }
        if let Some(n) = self.max_tokens {
            c.defaults.max_tokens = n;
        }
        if let Some(no_eos) = self.no_eos {
            c.defaults.no_eos = no_eos;
        }
    }

    pub fn apply_server(&self, server: &mut Server)
        ensures
            self.server_over(*old(server), *final(server)),
    {
        if let Some(root) = &self.root {
            server.root = Some(root.clone());
        }
        if let Some(p) = &self.model_dir {
            server.model_dir = Some(p.clone());
        }
        if let Some(p) = self.port {
            server.port = p;
        }
        if let Some(p) = &self.socket {
            server.socket = p.clone();
        }
        if let Some(n) = self.drafts {
            server.drafts = n;
        }
    }

    pub fn apply_experts(&self, experts: &mut Experts)
        ensures
            *final(experts) == self.experts_over(*old(experts)),
    {
        if let Some(n) = self.experts {
            experts.resident_bits = n;
        }
        if let Some(n) = self.miss_experts {
            experts.miss_bits = Some(n);
        }
        if let Some(n) = self.cut_weak {
            experts.cut_weak = n;
        }
        if let Some(pool) = self.pool_gb {
            experts.pool_gb = pool;
        }
    }
}

/// Where a configuration comes from.
#[derive(Debug)]
pub struct Source {
    pub path: Option<String>,
    pub overrides: Overrides,
}

/// A configured path, seen from the file's directory.
pub open spec fn placed(path: Option<String>, base: Seq<char>, result: Option<String>) -> bool {
    match (path, result) {
        (None, None) => true,
        (Some(p), Some(r)) => r@ == paths::joined(base, p@),
        _ => false,
    }
}

/// Whether a configuration is another one with its paths seen from a directory.
pub open spec fn settled(file: Config, base: Seq<char>, new: Config) -> bool {
    &&& placed(file.server.model_dir, base, new.server.model_dir)
    &&& placed(file.server.root, base, new.server.root)
    &&& new.server.socket@ == paths::joined(base, file.server.socket@)
    &&& new.server.port == file.server.port
    &&& new.server.drafts == file.server.drafts
    &&& new.limits == file.limits
    &&& new.defaults == file.defaults
    &&& new.experts == file.experts
}

/// Sees a configured path from a directory.
fn place(path: &Option<String>, base: &str) -> (r: Option<String>)
    ensures
        placed(*path, base@, r),
{
    match path {
        Some(p) => Some(paths::join(base, p.as_str())),
        None => None,
    }
}

/// Accepts a configuration file of a size, and gives the directory that it stands in.
pub fn accept_file(bytes: usize, parent: Option<&str>) -> (r: Result<String, ConfigError>)
    ensures
        match r {
            Ok(base) => bytes <= MAX_CONFIG_BYTES && (parent matches Some(p) && base@ == p@),
            Err(ConfigError::TooLarge) => bytes > MAX_CONFIG_BYTES,
            Err(e) => e is NoParent && bytes <= MAX_CONFIG_BYTES && parent is None,
        },
{
    if bytes > MAX_CONFIG_BYTES {
        return Err(ConfigError::TooLarge);
    }
    match parent {
        Some(base) => Ok(base.to_owned()),
        None => Err(ConfigError::NoParent),
    }
}

/// The configuration of a file, its paths seen from the file's directory.
pub fn settle(file: Config, base: &str) -> (r: Config)
    ensures
        settled(file, base@, r),
{
    let mut c = file;
    c.server.model_dir = place(&c.server.model_dir, base);
    c.server.root = place(&c.server.root, base);
    c.server.socket = paths::join(base, c.server.socket.as_str());
    c
}

impl Source {
    /// The configuration in force: a file's or the built-in one, with the explicit values
    /// in place. `memory_bytes` is what its memory limit comes to.
    pub fn resolve(&self, base: Config, memory_bytes: usize) -> (r: Result<Config, ConfigError>)
        ensures
            match r {
                Ok(c) => self.overrides.laid_over(base, c) && c.fault(memory_bytes) is None,
                Err(e) => exists|c: Config|
                    #[trigger] self.overrides.laid_over(base, c) && c.fault(memory_bytes) == Some(e),
            },
    {
        let mut c = base;
        self.overrides.apply(&mut c);
        match c.validate(memory_bytes) {
            Ok(()) => Ok(c),
            Err(e) => Err(e),
        }
    }
}

/// The built-in configuration is valid at an absolute socket where the prefix cache fits.
pub proof fn law_built_in_valid(c: Config, socket: Seq<char>, memory_bytes: usize)
    requires
        c.built_in(socket),
        paths::absolute(socket),
        memory_bytes > 536870912,
    ensures
        c.fault(memory_bytes) is None,
{
}

/// Explicit values are the same whether they are put in place once or twice.
pub proof fn law_overrides_idempotent(o: Overrides, a: Config, b: Config, c: Config)
    requires
        o.laid_over(a, b),
        o.laid_over(b, c),
    ensures
        c.server.copies(b.server),
        c.limits == b.limits,
        c.defaults == b.defaults,
        c.experts == b.experts,
{
}

/// A valid configuration leaves room in the context for a prompt, the default output and
/// its drafts, and room in memory beside the prefix cache.
pub proof fn law_valid_config_has_room(c: Config, memory_bytes: usize)
    requires
        c.fault(memory_bytes) is None,
    ensures
        c.defaults.max_tokens + c.server.drafts < c.limits.context_tokens <= MAX_CONTEXT,
        c.limits.prefix_cache_mib * 1048576 < memory_bytes,
        c.defaults.max_tokens <= c.limits.max_output_tokens,
        c.chosen().fault() is None,
{
}

/// An explicit socket counts, whatever a file names and wherever that file stands.
pub proof fn law_explicit_socket_wins(o: Overrides, file: Config, base: Seq<char>, a: Config, b: Config)
    requires
        settled(file, base, a),
        o.laid_over(a, b),
        o.socket is Some,
    ensures
        b.server.socket@ == o.socket.unwrap()@,
{
}

/// A configuration is accepted exactly where its options are, its memory is above zero and at most
/// 25 gigabytes, its prefix cache fits that memory, every limit lies within its bounds, the default
/// output fits the policy and leaves room in the context, and its socket's path is absolute.
pub proof fn law_config_valid_exactly(c: Config, memory_bytes: usize, r: Result<(), ConfigError>)
    requires
        call_ensures(Config::validate, (&c, memory_bytes), r),
    ensures
        r is Ok <==> {
            let l = c.limits;
            let e = c.experts;
            let misses = match e.miss_bits {
                Some(bits) => bits,
                None => e.resident_bits,
            };
            &&& 2 <= e.resident_bits <= 4 && 2 <= misses <= 4
            &&& e.resident_bits == 4 || misses == e.resident_bits
            &&& c.server.drafts <= 3
            &&& e.cut_weak.finite() && 0 <= e.cut_weak.key() <= 0x3f80_0000
            &&& e.pool_gb matches PoolBudget::Gb(n) ==> n.finite() && n.key() > 0
            &&& l.memory_gb.finite() && 0 < l.memory_gb.key() <= 0x4039_0000_0000_0000
            &&& 1 <= l.context_tokens <= 262144
            &&& l.prefix_cache_mib <= 2048 && l.prefix_cache_mib * 1048576 < memory_bytes
            &&& 1 <= l.cache_max_entries <= 1024
            &&& 1 <= l.queued_requests <= 1024
            &&& 1 <= l.http_readers <= 256
            &&& 1 <= l.request_bytes <= 16777216
            &&& 1 <= l.max_output_tokens <= 262144
            &&& 1 <= c.defaults.max_tokens <= l.max_output_tokens
            &&& c.defaults.max_tokens + c.server.drafts < l.context_tokens
            &&& c.server.socket@.len() > 0 && c.server.socket@[0] == '/'
        },
        r matches Err(e) ==> match e {
            ConfigError::Memory => !c.limits.memory_gb.finite() || c.limits.memory_gb.key() <= 0
                || c.limits.memory_gb.key() > 0x4039_0000_0000_0000,
            ConfigError::Context => c.limits.context_tokens > 262144,
            ConfigError::PrefixCache => c.limits.prefix_cache_mib > 2048,
            ConfigError::CacheEntries => c.limits.cache_max_entries == 0 || c.limits.cache_max_entries > 1024,
            ConfigError::CacheExceedsMemory => c.limits.prefix_cache_mib * 1048576 >= memory_bytes,
            ConfigError::QueuedRequests => c.limits.queued_requests == 0 || c.limits.queued_requests > 1024,
            ConfigError::HttpReaders => c.limits.http_readers == 0 || c.limits.http_readers > 256,
            ConfigError::RequestBytes => c.limits.request_bytes == 0 || c.limits.request_bytes > 16777216,
            ConfigError::OutputPolicy => c.limits.max_output_tokens == 0 || c.limits.max_output_tokens > 262144,
            ConfigError::DefaultTokens => c.defaults.max_tokens > c.limits.max_output_tokens,
            ConfigError::NoCapacity => c.defaults.max_tokens + c.server.drafts >= c.limits.context_tokens,
            ConfigError::SocketPath => c.server.socket@.len() == 0 || c.server.socket@[0] != '/',
            ConfigError::Options(_) => true,
            ConfigError::TooLarge => false,
            ConfigError::NoParent => false,
        },
{
}

/// Each explicit value takes the place of the configured one that it is named for, and what is
/// not named stays.
pub proof fn law_overrides_apply(o: Overrides, c: &mut Config)
    requires
        call_ensures(Overrides::apply, (&o, c), ()),
    ensures
        final(c).server.port == (match o.port {
            Some(port) => port,
            None => old(c).server.port,
        }),
        final(c).server.socket@ == (match o.socket {
            Some(socket) => socket@,
            None => old(c).server.socket@,
        }),
        final(c).server.drafts == (match o.drafts {
            Some(drafts) => drafts,
            None => old(c).server.drafts,
        }),
        o.root matches Some(root) ==> (final(c).server.root matches Some(now) && now@ == root@),
        o.root is None ==> (old(c).server.root is Some <==> final(c).server.root is Some),
        o.root is None && old(c).server.root is Some ==> final(c).server.root->0@ == old(c).server.root->0@,
        o.model_dir matches Some(dir) ==> (final(c).server.model_dir matches Some(now) && now@ == dir@),
        o.model_dir is None ==> (old(c).server.model_dir is Some <==> final(c).server.model_dir is Some),
        o.model_dir is None && old(c).server.model_dir is Some ==> final(c).server.model_dir->0@ == old(
            c,
        ).server.model_dir->0@,
        final(c).experts.resident_bits == (match o.experts {
            Some(bits) => bits,
            None => old(c).experts.resident_bits,
        }),
        final(c).experts.miss_bits == (match o.miss_experts {
            Some(bits) => Some(bits),
            None => old(c).experts.miss_bits,
        }),
        final(c).experts.cut_weak == (match o.cut_weak {
            Some(weight) => weight,
            None => old(c).experts.cut_weak,
        }),
        final(c).experts.pool_gb == (match o.pool_gb {
            Some(pool) => pool,
            None => old(c).experts.pool_gb,
        }),
        final(c).experts.build_missing_store == old(c).experts.build_missing_store,
        final(c).limits.prefix_cache_mib == (match o.prefix_cache_mib {
            Some(mib) => mib,
            None => old(c).limits.prefix_cache_mib,
        }),
        final(c).limits.context_tokens == (match o.max_ctx {
            Some(tokens) => tokens,
            None => old(c).limits.context_tokens,
        }),
        final(c).limits == (Limits {
            prefix_cache_mib: final(c).limits.prefix_cache_mib,
            context_tokens: final(c).limits.context_tokens,
            ..old(c).limits
        }),
        final(c).defaults.max_tokens == (match o.max_tokens {
            Some(tokens) => tokens,
            None => old(c).defaults.max_tokens,
        }),
        final(c).defaults.no_eos == (match o.no_eos {
            Some(no_eos) => no_eos,
            None => old(c).defaults.no_eos,
        }),
        final(c).defaults.stream == old(c).defaults.stream,
        final(c).defaults.include_usage == old(c).defaults.include_usage,
{
}

/// The engine gets each of its choices from the setting of the same meaning.
pub proof fn law_options_from_config(c: Config, r: Options)
    requires
        call_ensures(Config::options, (&c,), r),
    ensures
        r.experts == c.experts.resident_bits,
        r.miss_experts == c.experts.miss_bits,
        r.pool_gb == c.experts.pool_gb,
        r.cut_weak == c.experts.cut_weak,
        r.build_missing_store == c.experts.build_missing_store,
        r.drafts == c.server.drafts,
        r.max_ctx == c.limits.context_tokens,
        r.max_tokens == c.defaults.max_tokens,
        r.no_eos == c.defaults.no_eos,
        !r.repack && !r.raw && !r.check && r.repeat == 1,
{
}

/// Nothing asks for a restart exactly where server, limits and experts are the same; the request
/// defaults never do. Each section that differs is named, and no other.
pub proof fn law_restart_changes(old_config: Config, new: Config, r: Vec<&'static str>)
    requires
        call_ensures(Config::restart_changes, (&old_config, &new), r),
    ensures
        ({
            let a = old_config.limits;
            let b = new.limits;
            let x = old_config.experts;
            let y = new.experts;
            let s = old_config.server;
            let t = new.server;
            let limits = a.memory_gb.same(b.memory_gb) && a.context_tokens == b.context_tokens && a.prefix_cache_mib
                == b.prefix_cache_mib && a.cache_max_entries == b.cache_max_entries && a.cache_idle_seconds
                == b.cache_idle_seconds && a.queued_requests == b.queued_requests && a.http_readers
                == b.http_readers && a.request_bytes == b.request_bytes && a.max_output_tokens
                == b.max_output_tokens;
            let experts = x.resident_bits == y.resident_bits && x.miss_bits == y.miss_bits && x.pool_gb.same_as(
                y.pool_gb,
            ) && x.cut_weak.same(y.cut_weak) && x.build_missing_store == y.build_missing_store;
            let server = s.port == t.port && s.drafts == t.drafts && paths::same_path(s.socket@, t.socket@)
                && same_optional(s.model_dir, t.model_dir) && same_optional(s.root, t.root);
            &&& (exists|i: int| 0 <= i < r@.len() && (#[trigger] r@[i])@ == "limits"@) <==> !limits
            &&& (exists|i: int| 0 <= i < r@.len() && (#[trigger] r@[i])@ == "experts"@) <==> !experts
            &&& (exists|i: int| 0 <= i < r@.len() && (#[trigger] r@[i])@ == "server"@) <==> !server
            &&& r@.len() == 0 <==> limits && experts && server
        }),
{
    reveal_strlit("server");
    reveal_strlit("limits");
    reveal_strlit("experts");
    assert("server"@[0] != "limits"@[0]);
    assert("server"@.len() != "experts"@.len());
    assert("limits"@.len() != "experts"@.len());
    let first = section("server", !old_config.server.same_as(new.server));
    let second = section("limits", !old_config.limits.same_as(new.limits));
    let third = section("experts", !old_config.experts.same_as(new.experts));
    assert(r@ == first + second + third);
    if !old_config.server.same_as(new.server) {
        assert(r@[0] == "server");
    }
    if !old_config.limits.same_as(new.limits) {
        assert(r@[first.len() as int] == "limits");
    }
    if !old_config.experts.same_as(new.experts) {
        assert(r@[(first.len() + second.len()) as int] == "experts");
    }
}

/// A file's own paths are seen from the file's directory, a path from the root stays as it is,
/// and everything else is the file's.
pub proof fn law_settle(file: Config, base: &str, r: Config)
    requires
        call_ensures(settle, (file, base), r),
    ensures
        file.server.socket@.len() > 0 && file.server.socket@[0] == '/' ==> r.server.socket@ == file.server.socket@,
        !(file.server.socket@.len() > 0 && file.server.socket@[0] == '/') && base@.len() > 0 && base@.last() != '/'
            ==> r.server.socket@ == base@ + seq!['/'] + file.server.socket@,
        r.server.model_dir is Some <==> file.server.model_dir is Some,
        r.server.root is Some <==> file.server.root is Some,
        file.server.model_dir matches Some(dir) ==> r.server.model_dir->0@ == paths::joined(base@, dir@),
        file.server.root matches Some(root) ==> r.server.root->0@ == paths::joined(base@, root@),
        r.server.port == file.server.port,
        r.server.drafts == file.server.drafts,
        r.limits == file.limits,
        r.defaults == file.defaults,
        r.experts == file.experts,
{
}

/// A file is read where it has at most 64 binary kilobytes and stands in a directory.
pub proof fn law_config_file(bytes: usize, parent: Option<&str>, r: Result<String, ConfigError>)
    requires
        call_ensures(accept_file, (bytes, parent), r),
    ensures
        r is Ok <==> bytes <= 65536 && parent is Some,
        r matches Ok(base) ==> base@ == parent->0@,
        bytes > 65536 ==> r == Err::<String, ConfigError>(ConfigError::TooLarge),
{
}

/// The built-in settings: port 8080, two drafts, a context of 2048 tokens, a prefix cache of 512
/// binary megabytes with 16 entries that expire after 900 seconds, eight queued requests, 32
/// readers, four binary megabytes per request and up to 262144 tokens of output, 64 by default.
pub proof fn law_built_in_settings(socket: String, r: Config)
    requires
        call_ensures(Config::new, (socket,), r),
    ensures
        r.server.port == 8080 && r.server.drafts == 2 && r.server.socket@ == socket@,
        r.server.model_dir is None && r.server.root is None,
        r.limits.memory_gb.bits == 0x4039_0000_0000_0000,
        r.limits.context_tokens == 2048 && r.limits.prefix_cache_mib == 512 && r.limits.cache_max_entries == 16,
        r.limits.cache_idle_seconds == 900 && r.limits.queued_requests == 8 && r.limits.http_readers == 32,
        r.limits.request_bytes == 4 * 1024 * 1024 && r.limits.max_output_tokens == 262144,
        r.defaults.max_tokens == 64 && !r.defaults.no_eos && !r.defaults.stream && !r.defaults.include_usage,
        r.experts.resident_bits == 4 && r.experts.miss_bits is None && r.experts.pool_gb is Adaptive,
        r.experts.cut_weak.bits == 0 && r.experts.build_missing_store,
{
}

} // verus!
