//! User-facing configuration with pay-for-what-you-use defaults.

use crate::error::Error;
use vstd::prelude::*;

verus! {

/// Bytes in one kibibyte.
pub const KIB: u32 = 1024;

/// Bytes in one mebibyte.
pub const MIB: u32 = 1_048_576;

/// The smallest channel capacity that is accepted.
pub const MIN_CHANNEL_CAPACITY: usize = 16;

/// The channel capacity of the default configurations.
pub const DEFAULT_CHANNEL_CAPACITY: usize = 16_384;

/// Nanoseconds in one second.
pub const NANOS_PER_SEC: u32 = 1_000_000_000;

/// A length of time: whole seconds and less than one second of nanoseconds.
#[derive(Debug, Clone, Copy)]
pub struct TimeSpan {
    secs: u64,
    nanos: u32,
}

impl TimeSpan {
    #[verifier::type_invariant]
    spec fn below_one_second(self) -> bool {
        self.nanos < NANOS_PER_SEC
    }

    /// The whole seconds.
    pub closed spec fn seconds(self) -> u64 {
        self.secs
    }

    /// The nanoseconds on top of the whole seconds.
    pub closed spec fn subsec(self) -> u32 {
        self.nanos
    }

    /// The whole length in nanoseconds.
    pub open spec fn total_nanos(self) -> int {
        self.seconds() as int * NANOS_PER_SEC as int + self.subsec() as int
    }

    /// A span of whole seconds.
    #[must_use]
    pub fn from_secs(secs: u64) -> (r: Self)
        ensures
            r.seconds() == secs,
            r.subsec() == 0,
    {
        TimeSpan { secs, nanos: 0 }
    }

    /// A span of seconds and nanoseconds, of which there must be less than
    /// one second.
    #[must_use]
    pub fn new(secs: u64, nanos: u32) -> (r: Self)
        requires
            nanos < NANOS_PER_SEC,
        ensures
            r.seconds() == secs,
            r.subsec() == nanos,
    {
        TimeSpan { secs, nanos }
    }

    /// The whole seconds.
    #[must_use]
    pub fn as_secs(self) -> (r: u64)
        ensures
            r == self.seconds(),
    {
        self.secs
    }

    /// The nanoseconds on top of the whole seconds.
    #[must_use]
    pub fn subsec_nanos(self) -> (r: u32)
        ensures
            r == self.subsec(),
            r < NANOS_PER_SEC,
    {
        proof {
            use_type_invariant(self);
        }
        self.nanos
    }
}

/// Embedded hot-store settings.
///
/// The block cache and the write buffer bound the steady-state memory; with
/// the defaults of 8 MiB and 2 MiB it stays within 10 MiB.
#[derive(Debug, Clone)]
pub struct FjallConfig {
    /// Keyspace directory, such as `./data/fjall`.
    pub dir: String,
    /// Unified cache capacity in bytes.
    pub cache_size_bytes: u64,
    /// Per-partition memtable cap in bytes.
    pub memtable_bytes: u32,
    /// Directory for cold exports; the parent of `dir` when absent.
    pub cold_storage_dir: Option<String>,
    /// Run periodic compaction.
    pub enable_compaction: bool,
    /// How often the background task looks for expired keys.
    pub compaction_interval: TimeSpan,
    /// Age after which keys are moved to cold storage.
    pub retention: TimeSpan,
    /// Most entries drained per insert burst.
    pub batch_rows: usize,
}

/// A text that names one component of a path and nothing else, whatever the
/// platform separates components with.
pub open spec fn is_component(s: Seq<char>) -> bool {
    &&& s.len() > 0
    &&& s != "."@
    &&& s != ".."@
    &&& forall|i: int| 0 <= i < s.len() ==> #[trigger] s[i] != '/' && s[i] != '\\' && s[i] != ':'
}

/// A path whose components are separated by slashes alone, which ends with a
/// component and does not begin with two slashes, as the name of a share does.
pub open spec fn is_plain(s: Seq<char>) -> bool {
    &&& s.len() > 0
    &&& s.len() > 1 ==> s[0] != '/' || s[1] != '/'
    &&& s.last() != '/'
    &&& s.last() != '.'
    &&& forall|i: int| 0 <= i < s.len() ==> #[trigger] s[i] != '\\' && s[i] != ':'
}

/// A path with one more component.
pub open spec fn joined(dir: Seq<char>, name: Seq<char>) -> Seq<char> {
    dir + "/"@ + name
}

/// What holds of the parent of a path on every platform: none for the empty
/// path and the root, the empty path for one component, and otherwise what
/// stands before the last component.
pub open spec fn fits_parent(path: Seq<char>, parent: Option<Seq<char>>) -> bool {
    &&& path.len() == 0 || path == "/"@ ==> parent is None
    &&& is_component(path) ==> parent == Some(Seq::<char>::empty())
    &&& forall|dir: Seq<char>, name: Seq<char>|
        path == #[trigger] joined(dir, name) && is_plain(dir) && is_component(name) ==> parent
            == Some(dir)
}

/// The view of an optional text.
pub open spec fn optional_view(s: Option<String>) -> Option<Seq<char>> {
    match s {
        Some(s) => Some(s@),
        None => None,
    }
}

/// `std::path::Path::parent`: the path without its last component, if it has
/// one. What separates components depends on the platform, so only what holds
/// on each is said of it.
#[verifier::external_body]
fn parent_of(path: &String) -> (r: Option<String>)
    ensures
        fits_parent(path@, optional_view(r)),
{
    std::path::Path::new(path).parent().map(|p| p.to_string_lossy().into_owned())
}

impl Default for FjallConfig {
    fn default() -> (r: Self)
        ensures
            r.is_default_at("./data/fjall"@),
    {
        FjallConfig {
            dir: "./data/fjall".to_owned(),
            cache_size_bytes: 8_388_608,
            memtable_bytes: 2_097_152,
            cold_storage_dir: None,
            enable_compaction: true,
            compaction_interval: TimeSpan::from_secs(3600),
            retention: TimeSpan::from_secs(86_400),
            batch_rows: 1_000,
        }
    }
}

impl FjallConfig {
    /// The default settings for a keyspace directory: 8 MiB of cache, 2 MiB
    /// of memtable, hourly compaction of what is older than a day, bursts of
    /// a thousand rows.
    pub open spec fn is_default_at(self, dir: Seq<char>) -> bool {
        &&& self.dir@ == dir
        &&& self.cache_size_bytes == 8 * MIB
        &&& self.memtable_bytes == 2 * MIB
        &&& self.cold_storage_dir is None
        &&& self.enable_compaction
        &&& self.compaction_interval.seconds() == 3600
        &&& self.compaction_interval.subsec() == 0
        &&& self.retention.seconds() == 24 * 3600
        &&& self.retention.subsec() == 0
        &&& self.batch_rows == 1_000
    }

    /// New config pointing at `dir`.
    #[must_use]
    pub fn new(dir: &str) -> (r: Self)
        ensures
            r.is_default_at(dir@),
    {
        let base = FjallConfig::default();
        FjallConfig {
            dir: dir.to_owned(),
            cache_size_bytes: base.cache_size_bytes,
            memtable_bytes: base.memtable_bytes,
            cold_storage_dir: base.cold_storage_dir,
            enable_compaction: base.enable_compaction,
            compaction_interval: base.compaction_interval,
            retention: base.retention,
            batch_rows: base.batch_rows,
        }
    }

    /// Whether `parent` is the parent of the keyspace directory.
    pub closed spec fn has_parent(self, parent: Option<String>) -> bool {
        call_ensures(parent_of, (&self.dir,), parent)
    }

    /// The effective directory for cold files, given the parent of the
    /// keyspace directory: the one configured, else that parent, else the
    /// current directory.
    pub open spec fn cold_dir_path(self, parent: Option<Seq<char>>) -> Seq<char> {
        match self.cold_storage_dir {
            Some(d) => d@,
            None => match parent {
                Some(p) => p,
                None => "."@,
            },
        }
    }

    /// Effective directory for cold Parquet files.
    #[must_use]
    pub fn cold_dir(&self) -> (r: String)
        ensures
            exists|parent: Option<String>|
                {
                    &&& #[trigger] self.has_parent(parent)
                    &&& fits_parent(self.dir@, optional_view(parent))
                    &&& r@ == self.cold_dir_path(optional_view(parent))
                },
            self.cold_storage_dir matches Some(d) ==> r@ == d@,
    {
        let parent = parent_of(&self.dir);
        assert(self.has_parent(parent));
        self.cold_dir_from(parent)
    }

    /// Effective directory for cold Parquet files, given the parent of the
    /// keyspace directory.
    #[must_use]
    pub fn cold_dir_from(&self, parent: Option<String>) -> (r: String)
        ensures
            r@ == self.cold_dir_path(optional_view(parent)),
    {
        match &self.cold_storage_dir {
            Some(d) => d.clone(),
            None => match parent {
                Some(p) => p,
                None => ".".to_owned(),
            },
        }
    }

    /// Cache and memtable together, at most the largest 64-bit number.
    pub open spec fn memory_budget(self) -> u64 {
        let n = self.cache_size_bytes + self.memtable_bytes;
        if n > u64::MAX {
            u64::MAX
        } else {
            n as u64
        }
    }

    /// Total configured steady-state memory budget (cache + memtable).
    #[must_use]
    pub fn memory_budget_bytes(&self) -> (r: u64)
        ensures
            r == self.memory_budget(),
    {
        self.cache_size_bytes.saturating_add(self.memtable_bytes as u64)
    }

    /// The total write buffer: one active memtable and one being flushed.
    #[must_use]
    pub fn write_buffer_bytes(&self) -> (r: u64)
        ensures
            r == 2 * self.memtable_bytes,
    {
        self.memtable_bytes as u64 * 2
    }

    /// What is wrong with the settings, if anything.
    pub open spec fn fault(self) -> Option<Seq<char>> {
        if self.cache_size_bytes < MIB {
            Some("fjall.cache_size_bytes must be >= 1 MiB"@)
        } else if self.memtable_bytes < 256 * KIB {
            Some("fjall.memtable_bytes must be >= 256 KiB"@)
        } else if self.batch_rows == 0 {
            Some("fjall.batch_rows must be > 0"@)
        } else {
            None
        }
    }

    /// Rejects settings that the store cannot work with.
    pub fn validate(&self) -> (r: Result<(), Error>)
        ensures
            match r {
                Ok(_) => self.fault() is None,
                Err(e) => e matches Error::InvalidConfig(m) && self.fault() == Some(m@),
            },
    {
        if self.cache_size_bytes < MIB as u64 {
            return Err(
                Error::InvalidConfig("fjall.cache_size_bytes must be >= 1 MiB".to_owned()),
            );
        }
        if self.memtable_bytes < 256 * KIB {
            return Err(
                Error::InvalidConfig("fjall.memtable_bytes must be >= 256 KiB".to_owned()),
            );
        }
        if self.batch_rows == 0 {
            return Err(Error::InvalidConfig("fjall.batch_rows must be > 0".to_owned()));
        }
        Ok(())
    }
}

/// Whatever the directory, the default settings are valid and their memory
/// budget keeps within 10 MiB.
pub proof fn law_default_budget_is_small(cfg: FjallConfig, dir: Seq<char>)
    requires
        cfg.is_default_at(dir),
    ensures
        cfg.fault() is None,
        cfg.memory_budget() <= 10 * MIB,
{
}

/// Prometheus in-memory registry settings, with bucket bounds of type `B`.
#[derive(Debug, Clone)]
pub struct PrometheusConfig<B> {
    /// Default histogram buckets, in milliseconds for request latencies.
    pub default_histogram_buckets: Vec<B>,
}

/// The default histogram bounds: 5, 10, 25, 50, 100, 250, 500, 1000, 2500.
pub open spec fn default_bounds() -> Seq<u16> {
    seq![5u16, 10u16, 25u16, 50u16, 100u16, 250u16, 500u16, 1000u16, 2500u16]
}

impl<B: From<u16>> PrometheusConfig<B> {
    /// Whether the buckets are the default bounds, each converted to `B`.
    pub open spec fn is_default(self) -> bool {
        &&& self.default_histogram_buckets@.len() == default_bounds().len()
        &&& forall|i: int|
            0 <= i < default_bounds().len() ==> call_ensures(
                <B as From<u16>>::from,
                (default_bounds()[i],),
                #[trigger] self.default_histogram_buckets@[i],
            )
    }
}

impl<B: From<u16>> Default for PrometheusConfig<B> {
    fn default() -> (r: Self)
        ensures
            r.is_default(),
    {
        let bounds: [u16; 9] = [5, 10, 25, 50, 100, 250, 500, 1000, 2500];
        assert(bounds@ =~= default_bounds());
        let mut buckets: Vec<B> = Vec::new();
        let mut i: usize = 0;
        while i < 9
            invariant
                i <= 9,
                bounds@ == default_bounds(),
                buckets@.len() == i,
                forall|j: int|
                    0 <= j < i ==> call_ensures(
                        <B as From<u16>>::from,
                        (default_bounds()[j],),
                        #[trigger] buckets@[j],
                    ),
            decreases 9 - i,
        {
            buckets.push(B::from(bounds[i]));
            i = i + 1;
        }
        PrometheusConfig { default_histogram_buckets: buckets }
    }
}

/// Top-level configuration.
#[derive(Debug, Clone)]
pub struct Config<B> {
    /// Bounded channel capacity between the hot path and the writer. When
    /// the channel is full, samples are dropped and counted.
    pub channel_capacity: usize,
    /// `None` means Prometheus only, without a writer.
    pub fjall: Option<FjallConfig>,
    /// Prometheus registry tuning.
    pub prometheus: PrometheusConfig<B>,
}

impl<B: From<u16>> Default for Config<B> {
    fn default() -> (r: Self)
        ensures
            r.channel_capacity == DEFAULT_CHANNEL_CAPACITY,
            r.fjall is None,
            r.prometheus.is_default(),
    {
        Config::default_light()
    }
}

impl<B: From<u16>> Config<B> {
    /// Prometheus-only mode.
    #[must_use]
    pub fn default_light() -> (r: Self)
        ensures
            r.channel_capacity == DEFAULT_CHANNEL_CAPACITY,
            r.fjall is None,
            r.prometheus.is_default(),
    {
        Config {
            channel_capacity: DEFAULT_CHANNEL_CAPACITY,
            fjall: None,
            prometheus: PrometheusConfig::default(),
        }
    }

    /// Dual mode: Prometheus and the embedded store at `dir`.
    #[must_use]
    pub fn default_full(dir: &str) -> (r: Self)
        ensures
            r.channel_capacity == DEFAULT_CHANNEL_CAPACITY,
            r.fjall matches Some(f) && f.is_default_at(dir@),
            r.prometheus.is_default(),
    {
        Config {
            channel_capacity: DEFAULT_CHANNEL_CAPACITY,
            fjall: Some(FjallConfig::new(dir)),
            prometheus: PrometheusConfig::default(),
        }
    }
}

impl<B> Config<B> {
    /// Overrides the channel capacity.
    #[must_use]
    pub fn with_channel_capacity(self, cap: usize) -> (r: Self)
        ensures
            r == (Config { channel_capacity: cap, ..self }),
    {
        Config { channel_capacity: cap, fjall: self.fjall, prometheus: self.prometheus }
    }

    /// Overrides the store settings.
    #[must_use]
    pub fn with_fjall(self, cfg: FjallConfig) -> (r: Self)
        ensures
            r == (Config { fjall: Some(cfg), ..self }),
    {
        Config {
            channel_capacity: self.channel_capacity,
            fjall: Some(cfg),
            prometheus: self.prometheus,
        }
    }

    /// What is wrong with the configuration, if anything, given whether the
    /// embedded store is available.
    pub open spec fn fault(self, fjall_backend: bool) -> Option<Seq<char>> {
        if self.channel_capacity < MIN_CHANNEL_CAPACITY {
            Some("channel_capacity must be >= 16"@)
        } else if self.prometheus.default_histogram_buckets@.len() == 0 {
            Some("prometheus.default_histogram_buckets must not be empty"@)
        } else {
            match self.fjall {
                None => None,
                Some(f) => if fjall_backend {
                    f.fault()
                } else {
                    Some(
                        "fjall config supplied but `fjall-backend` feature is not enabled"@,
                    )
                },
            }
        }
    }

    /// Rejects a configuration that cannot work; `fjall_backend` says whether
    /// the embedded store is available.
    pub fn validate(&self, fjall_backend: bool) -> (r: Result<(), Error>)
        ensures
            match r {
                Ok(_) => self.fault(fjall_backend) is None,
                Err(e) => e matches Error::InvalidConfig(m) && self.fault(fjall_backend) == Some(
                    m@,
                ),
            },
    {
        if self.channel_capacity < MIN_CHANNEL_CAPACITY {
            return Err(Error::InvalidConfig("channel_capacity must be >= 16".to_owned()));
        }
        if self.prometheus.default_histogram_buckets.len() == 0 {
            return Err(
                Error::InvalidConfig(
                    "prometheus.default_histogram_buckets must not be empty".to_owned(),
                ),
            );
        }
        match &self.fjall {
            None => Ok(()),
            Some(f) => if fjall_backend {
                f.validate()
            } else {
                Err(
                    Error::InvalidConfig(
                        "fjall config supplied but `fjall-backend` feature is not enabled".to_owned(),
                    ),
                )
            },
        }
    }
}

/// Both default configurations pass validation where the store is available,
/// and the one without it passes everywhere.
pub proof fn law_defaults_are_valid<B: From<u16>>(cfg: Config<B>, dir: Seq<char>)
    requires
        cfg.channel_capacity == DEFAULT_CHANNEL_CAPACITY,
        cfg.prometheus.is_default(),
        cfg.fjall matches Some(f) ==> f.is_default_at(dir),
    ensures
        cfg.fault(true) is None,
        cfg.fjall is None ==> cfg.fault(false) is None,
{
}

/// The store settings that are accepted: at least 1 MiB of cache, 256 KiB of
/// memtable and one row per burst.
pub proof fn law_accepted_store_settings(cfg: FjallConfig)
    ensures
        cfg.fault() is None <==> cfg.cache_size_bytes >= 1_048_576 && cfg.memtable_bytes >= 262_144
            && cfg.batch_rows >= 1,
{
}

/// The configurations that are accepted: at least 16 places in the channel,
/// at least one histogram bound, and a store only where it is available and
/// its settings are accepted.
pub proof fn law_accepted_configurations<B>(cfg: Config<B>, fjall_backend: bool)
    ensures
        cfg.fault(fjall_backend) is None <==> {
            &&& cfg.channel_capacity >= 16
            &&& cfg.prometheus.default_histogram_buckets@.len() >= 1
            &&& match cfg.fjall {
                Some(f) => fjall_backend && f.cache_size_bytes >= 1_048_576 && f.memtable_bytes
                    >= 262_144 && f.batch_rows >= 1,
                None => true,
            }
        },
{
}

/// The memory budget is the cache and the memtable together, as far as 64
/// bits go.
pub proof fn law_budget_is_the_sum(cfg: FjallConfig)
    ensures
        cfg.cache_size_bytes as int + cfg.memtable_bytes as int <= 0xffff_ffff_ffff_ffff
            ==> cfg.memory_budget() as int == cfg.cache_size_bytes as int
            + cfg.memtable_bytes as int,
        cfg.cache_size_bytes as int + cfg.memtable_bytes as int > 0xffff_ffff_ffff_ffff
            ==> cfg.memory_budget() as int == 0xffff_ffff_ffff_ffff,
{
}

/// The default settings, in numbers.
pub proof fn law_default_settings(cfg: FjallConfig, dir: Seq<char>)
    requires
        cfg.is_default_at(dir),
    ensures
        cfg.dir@ == dir,
        cfg.cache_size_bytes == 8_388_608,
        cfg.memtable_bytes == 2_097_152,
        cfg.cold_storage_dir is None,
        cfg.enable_compaction,
        cfg.compaction_interval.total_nanos() == 3_600_000_000_000,
        cfg.retention.total_nanos() == 86_400_000_000_000,
        cfg.batch_rows == 1_000,
{
}

/// The default histogram bounds grow strictly, as buckets have to.
pub proof fn law_default_bounds_grow(i: int, j: int)
    requires
        0 <= i < j < 9,
    ensures
        default_bounds().len() == 9,
        default_bounds()[i] < default_bounds()[j],
{
}

/// Cold files go to the configured directory where there is one, whatever the
/// keyspace directory is, else to the parent, else to the current directory.
pub proof fn law_cold_files_follow_the_configuration(cfg: FjallConfig, parent: Option<Seq<char>>)
    ensures
        cfg.cold_storage_dir matches Some(d) ==> cfg.cold_dir_path(parent) == d@,
        cfg.cold_storage_dir is None && parent is Some ==> cfg.cold_dir_path(parent)
            == parent.unwrap(),
        cfg.cold_storage_dir is None && parent is None ==> cfg.cold_dir_path(parent) == "."@,
{
}

} // verus!
