//! Configuration: what is indexed, where state lives, and the bounds and
//! retention windows of the pipeline, with their defaults.
use vstd::prelude::*;

verus! {

/// Which embedding provider computes chunk vectors (`disabled` for none).
#[derive(Clone, Debug)]
pub struct EmbeddingConfig {
    pub provider: String,
}

/// Where the mirror tree lives.
#[derive(Clone, Debug)]
pub struct MirrorConfig {
    pub root: String,
}

impl Default for MirrorConfig {
    fn default() -> (c: Self)
        ensures
            c.root@ == ".findx/raw"@,
    {
        MirrorConfig { root: ".findx/raw".to_owned() }
    }
}

/// The queue bound of each subscriber, per topic.
#[derive(Clone, Debug)]
pub struct BusBounds {
    pub source_fs: usize,
    pub mirror_text: usize,
}

impl Default for BusBounds {
    fn default() -> (b: Self)
        ensures
            b.source_fs == 1024,
            b.mirror_text == 1024,
    {
        BusBounds { source_fs: 1024, mirror_text: 1024 }
    }
}

/// Bus settings.
#[derive(Clone, Debug)]
pub struct BusConfig {
    pub bounds: BusBounds,
}

impl Default for BusConfig {
    fn default() -> (b: Self)
        ensures
            b.bounds.source_fs == 1024,
            b.bounds.mirror_text == 1024,
    {
        BusConfig { bounds: BusBounds::default() }
    }
}

/// Extraction pool settings.
#[derive(Clone, Debug)]
pub struct ExtractConfig {
    pub pool_size: usize,
    pub jobs_bound: usize,
}

/// The default bound of the extraction job queue.
pub fn default_jobs_bound() -> (n: usize)
    ensures
        n == 2048,
{
    2048
}

impl Default for ExtractConfig {
    fn default() -> (c: Self)
        ensures
            c.pool_size == 4,
            c.jobs_bound == 2048,
    {
        ExtractConfig { pool_size: 4, jobs_bound: default_jobs_bound() }
    }
}

/// Retention windows, in days, and how many jobs each file keeps.
#[derive(Clone, Debug)]
pub struct RetentionConfig {
    pub events_days: u64,
    pub jobs_keep_per_file: usize,
    pub jobs_failed_days: u64,
    pub files_tombstone_days: u64,
}

/// Audit events are kept this many days by default.
pub fn default_events_days() -> (n: u64)
    ensures
        n == 14,
{
    14
}

/// Each file keeps this many jobs by default.
pub fn default_jobs_keep_per_file() -> (n: usize)
    ensures
        n == 3,
{
    3
}

/// Failed jobs are kept this many days by default.
pub fn default_jobs_failed_days() -> (n: u64)
    ensures
        n == 14,
{
    14
}

/// Tombstoned files are kept this many days by default.
pub fn default_files_tombstone_days() -> (n: u64)
    ensures
        n == 30,
{
    30
}

impl Default for RetentionConfig {
    fn default() -> (c: Self)
        ensures
            c.events_days == 14,
            c.jobs_keep_per_file == 3,
            c.jobs_failed_days == 14,
            c.files_tombstone_days == 30,
    {
        RetentionConfig {
            events_days: default_events_days(),
            jobs_keep_per_file: default_jobs_keep_per_file(),
            jobs_failed_days: default_jobs_failed_days(),
            files_tombstone_days: default_files_tombstone_days(),
        }
    }
}

/// The default extractor command.
pub fn default_extractor_cmd() -> (s: String)
    ensures
        s@ == "docling --to text"@,
{
    "docling --to text".to_owned()
}

/// The whole configuration.
#[derive(Clone, Debug)]
pub struct Config {
    pub db: String,
    pub tantivy_index: String,
    pub roots: Vec<String>,
    pub include_globs: Vec<String>,
    pub exclude_globs: Vec<String>,
    pub max_file_size_mb: u64,
    pub follow_symlinks: bool,
    pub include_hidden: bool,
    pub allow_offline_hydration: bool,
    pub commit_interval_secs: u64,
    pub guard_interval_secs: u64,
    pub default_language: String,
    pub extractor_cmd: String,
    pub embedding: EmbeddingConfig,
    pub mirror: MirrorConfig,
    pub bus: BusConfig,
    pub extract: ExtractConfig,
    pub retention: RetentionConfig,
}

impl Default for Config {
    fn default() -> (c: Self)
        ensures
            c.db@ == ".findx/catalog.db"@,
            c.tantivy_index@ == ".findx/idx"@,
            c.roots@.len() == 1 && c.roots@[0]@ == "."@,
            c.include_globs@.len() == 4 && c.include_globs@[0]@ == "**/*.pdf"@ && c.include_globs@[1]@
                == "**/*.docx"@ && c.include_globs@[2]@ == "**/*.md"@ && c.include_globs@[3]@ == "**/*.txt"@,
            c.exclude_globs@.len() == 2 && c.exclude_globs@[0]@ == "**/.git/**"@ && c.exclude_globs@[1]@
                == "**/~$*"@,
            c.max_file_size_mb == 200,
            !c.follow_symlinks,
            !c.include_hidden,
            !c.allow_offline_hydration,
            c.commit_interval_secs == 45,
            c.guard_interval_secs == 180,
            c.default_language@ == "auto"@,
            c.extractor_cmd@ == "docling --to text"@,
            c.embedding.provider@ == "disabled"@,
            c.mirror.root@ == ".findx/raw"@,
            c.bus.bounds.source_fs == 1024,
            c.bus.bounds.mirror_text == 1024,
            c.extract.pool_size == 4,
            c.extract.jobs_bound == 2048,
            c.retention.events_days == 14,
            c.retention.jobs_keep_per_file == 3,
            c.retention.jobs_failed_days == 14,
            c.retention.files_tombstone_days == 30,
    {
        let mut roots: Vec<String> = Vec::new();
        roots.push(".".to_owned());
        let mut include_globs: Vec<String> = Vec::new();
        include_globs.push("**/*.pdf".to_owned());
        include_globs.push("**/*.docx".to_owned());
        include_globs.push("**/*.md".to_owned());
        include_globs.push("**/*.txt".to_owned());
        let mut exclude_globs: Vec<String> = Vec::new();
        exclude_globs.push("**/.git/**".to_owned());
        exclude_globs.push("**/~$*".to_owned());
        Config {
            db: ".findx/catalog.db".to_owned(),
            tantivy_index: ".findx/idx".to_owned(),
            roots,
            include_globs,
            exclude_globs,
            max_file_size_mb: 200,
            follow_symlinks: false,
            include_hidden: false,
            allow_offline_hydration: false,
            commit_interval_secs: 45,
            guard_interval_secs: 180,
            default_language: "auto".to_owned(),
            extractor_cmd: default_extractor_cmd(),
            embedding: EmbeddingConfig { provider: "disabled".to_owned() },
            mirror: MirrorConfig::default(),
            bus: BusConfig::default(),
            extract: ExtractConfig::default(),
            retention: RetentionConfig::default(),
        }
    }
}

/// The format of log lines.
#[derive(Clone, Copy, Debug, PartialEq, Eq, Structural)]
pub enum LogFormat {
    Text,
    Json,
}

/// How a query is answered.
#[derive(Clone, Copy, Debug, PartialEq, Eq, Structural)]
pub enum QueryMode {
    Keyword,
    Semantic,
    Hybrid,
}

impl Default for QueryMode {
    fn default() -> (m: Self)
        ensures
            m == QueryMode::Hybrid,
    {
        QueryMode::Hybrid
    }
}

/// Arguments of the (not yet implemented) HTTP server.
#[derive(Clone, Debug)]
pub struct ServeArgs {
    pub bind: String,
}

impl Default for ServeArgs {
    fn default() -> (a: Self)
        ensures
            a.bind@ == "127.0.0.1:8080"@,
    {
        ServeArgs { bind: "127.0.0.1:8080".to_owned() }
    }
}

/// Arguments of the (not yet implemented) migration command.
#[derive(Clone, Copy, Debug, Default)]
pub struct MigrateArgs {
    pub check: bool,
    pub apply: bool,
}

} // verus!
