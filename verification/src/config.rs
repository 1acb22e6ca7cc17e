//! Application configuration and its defaults.
use vstd::prelude::*;
use crate::paths::{join_name, joined};

verus! {

/// Top-level application configuration.
pub struct AppConfig {
    pub general: GeneralConfig,
    pub prefetch: PrefetchConfig,
    pub memory: MemoryConfig,
    pub watch: WatchConfig,
    pub prediction: PredictionConfig,
}

pub struct GeneralConfig {
    pub log_level: String,
    pub db_path: String,
}

pub struct PrefetchConfig {
    pub strategy: String,
    pub first_n_layers: u32,
    pub chunk_size_mb: u64,
}

pub struct MemoryConfig {
    pub max_cache_percent: u32,
    pub min_free_ram_gb: u64,
}

pub struct WatchConfig {
    pub directories: Vec<String>,
    pub poll_interval_secs: u64,
}

pub struct PredictionConfig {
    pub enabled: bool,
    pub lookahead_minutes: u32,
    pub min_frequency: u32,
}

impl GeneralConfig {
    /// The default general settings, with the history database in the
    /// given data directory: log level `info`, database `history.db`.
    pub fn in_data_dir(data_dir: &str) -> (r: Self)
        ensures
            r.log_level@ == "info"@,
            r.db_path@ == joined(data_dir@, "history.db"@),
    {
        proof {
            reveal_strlit("history.db");
        }
        GeneralConfig { log_level: "info".to_string(), db_path: join_name(data_dir, "history.db") }
    }
}

impl Default for PrefetchConfig {
    /// Inference order, the first 8 layers where only some are warmed,
    /// 64 MB chunks.
    fn default() -> (r: Self)
        ensures
            r.strategy@ == "inference-order"@,
            r.first_n_layers == 8,
            r.chunk_size_mb == 64,
    {
        PrefetchConfig { strategy: "inference-order".to_string(), first_n_layers: 8, chunk_size_mb: 64 }
    }
}

impl Default for MemoryConfig {
    /// At most half the memory for the cache, at least 2 GB left free.
    fn default() -> (r: Self)
        ensures
            r.max_cache_percent == 50,
            r.min_free_ram_gb == 2,
    {
        MemoryConfig { max_cache_percent: 50, min_free_ram_gb: 2 }
    }
}

impl WatchConfig {
    /// The default watch settings, watching the given models directory
    /// every 300 seconds.
    pub fn watching(models_dir: String) -> (r: Self)
        ensures
            r.directories@.len() == 1,
            r.directories@[0] == models_dir,
            r.poll_interval_secs == 300,
    {
        let mut directories: Vec<String> = Vec::new();
        directories.push(models_dir);
        WatchConfig { directories, poll_interval_secs: 300 }
    }
}

impl Default for PredictionConfig {
    /// Prediction on, looking 30 minutes ahead, for models used at least
    /// 3 times.
    fn default() -> (r: Self)
        ensures
            r.enabled,
            r.lookahead_minutes == 30,
            r.min_frequency == 3,
    {
        PredictionConfig { enabled: true, lookahead_minutes: 30, min_frequency: 3 }
    }
}

impl AppConfig {
    /// The default configuration, for the given data and models
    /// directories: each section at its defaults.
    pub fn defaults_for(data_dir: &str, models_dir: String) -> (r: Self)
        ensures
            r.general.log_level@ == "info"@,
            r.general.db_path@ == joined(data_dir@, "history.db"@),
            r.prefetch.strategy@ == "inference-order"@,
            r.prefetch.first_n_layers == 8,
            r.prefetch.chunk_size_mb == 64,
            r.memory.max_cache_percent == 50,
            r.memory.min_free_ram_gb == 2,
            r.watch.directories@.len() == 1,
            r.watch.directories@[0] == models_dir,
            r.watch.poll_interval_secs == 300,
            r.prediction.enabled,
            r.prediction.lookahead_minutes == 30,
            r.prediction.min_frequency == 3,
    {
        AppConfig {
            general: GeneralConfig::in_data_dir(data_dir),
            prefetch: PrefetchConfig::default(),
            memory: MemoryConfig::default(),
            watch: WatchConfig::watching(models_dir),
            prediction: PredictionConfig::default(),
        }
    }
}

} // verus!
