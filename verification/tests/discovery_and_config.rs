use prefetch::config::{AppConfig, GeneralConfig, MemoryConfig, PredictionConfig, PrefetchConfig, WatchConfig};
use prefetch::discovery::{
    blob_inside_dir, blob_name_for_digest, display_name, first_prefix_match, model_blob_name, name_less,
    resolve_model, select_model_layer, sort_by_name, DiscoveredModel, ManifestLayer,
};
use prefetch::paths::{config_path_in, fallback_config_path, fallback_data_dir, ollama_models_dir_from};
use prefetch::security::{group_or_other_access, socket_path_for, OWNER_ONLY_MODE};

fn layer(digest: &str, media_type: &str) -> ManifestLayer {
    ManifestLayer { digest: digest.to_string(), media_type: media_type.to_string(), size: 1 }
}

fn model(name: &str, path: &str) -> DiscoveredModel {
    DiscoveredModel { name: name.to_string(), path: path.to_string(), size: 7 }
}

#[test]
fn picks_the_first_model_layer() {
    let layers = vec![
        layer("sha256:aaa", "application/vnd.ollama.image.template"),
        layer("sha256:bbb", "application/vnd.ollama.image.model"),
        layer("sha256:ccc", "application/x-gguf"),
    ];
    assert_eq!(select_model_layer(&layers), Some(1));
    assert_eq!(select_model_layer(&vec![layer("d", "application/x-gguf")]), Some(0));
    assert_eq!(select_model_layer(&vec![layer("d", "text/plain")]), None);
    assert_eq!(model_blob_name(&layers), Some("sha256-bbb".to_string()));
    assert_eq!(model_blob_name(&vec![]), None);
}

#[test]
fn digest_becomes_blob_name() {
    assert_eq!(blob_name_for_digest("sha256:abc123"), Some("sha256-abc123".to_string()));
    assert_eq!(blob_name_for_digest("sha256:a:b"), Some("sha256-a-b".to_string()));
}

#[test]
fn traversal_digests_are_refused() {
    assert_eq!(blob_name_for_digest("sha256:../../../etc/shadow"), None);
    assert_eq!(blob_name_for_digest("sha256:..hidden"), None);
    assert_eq!(blob_name_for_digest("sha256:a\\b"), None);
    assert_eq!(blob_name_for_digest("sha256:a\0b"), None);
    assert_eq!(blob_name_for_digest("sha256:a/b"), None);
    assert_eq!(blob_name_for_digest("sha256:a.b"), Some("sha256-a.b".to_string()));
    let layers = vec![layer("sha256:../x", "application/vnd.ollama.image.model")];
    assert_eq!(model_blob_name(&layers), None);
}

#[test]
fn blob_must_stay_inside_the_blobs_directory() {
    assert!(blob_inside_dir("/home/u/.ollama/models/blobs/sha256-abc", "/home/u/.ollama/models/blobs"));
    assert!(!blob_inside_dir("/etc/shadow", "/home/u/.ollama/models/blobs"));
    assert!(!blob_inside_dir("/home/u/.ollama/models/blobsx/a", "/home/u/.ollama/models/blobs"));
}

#[test]
fn display_names() {
    let parts: Vec<String> =
        ["registry.ollama.ai", "library", "llama3", "latest"].iter().map(|s| s.to_string()).collect();
    assert_eq!(display_name(&parts, "registry.ollama.ai/library/llama3/latest"), "llama3:latest");
    let short: Vec<String> = ["local", "model"].iter().map(|s| s.to_string()).collect();
    assert_eq!(display_name(&short, "local/model"), "local/model");
}

#[test]
fn string_order() {
    let v = |s: &str| s.chars().collect::<Vec<char>>();
    assert!(name_less(&v("a"), &v("b")));
    assert!(name_less(&v("ab"), &v("abc")));
    assert!(!name_less(&v("abc"), &v("ab")));
    assert!(!name_less(&v("x"), &v("x")));
    assert!(name_less(&v("Z"), &v("a")));
    assert!(name_less(&v(""), &v("a")));
}

#[test]
fn models_sort_by_name_stably() {
    let models = vec![model("qwen:7b", "/q"), model("llama3:latest", "/l1"), model("gemma:2b", "/g"), model("llama3:latest", "/l2")];
    let sorted = sort_by_name(&models);
    let names: Vec<(&str, &str)> = sorted.iter().map(|m| (m.name.as_str(), m.path.as_str())).collect();
    assert_eq!(
        names,
        vec![("gemma:2b", "/g"), ("llama3:latest", "/l1"), ("llama3:latest", "/l2"), ("qwen:7b", "/q")]
    );
    assert!(sort_by_name(&vec![]).is_empty());
}

#[test]
fn resolves_exact_names_before_prefixes() {
    let models = vec![model("llama3:8b", "/a"), model("llama3", "/b"), model("mistral:latest", "/c")];
    assert_eq!(resolve_model(&models, "llama3"), Some(1));
    assert_eq!(resolve_model(&models, "llama"), Some(0));
    assert_eq!(resolve_model(&models, "mis"), Some(2));
    assert_eq!(resolve_model(&models, "phi"), None);
    assert_eq!(first_prefix_match(&models, "llama3"), Some(0));
    assert_eq!(first_prefix_match(&models, ""), Some(0));
}

#[test]
fn default_socket_locations() {
    assert_eq!(socket_path_for(Some("/run/user/1000"), Some("/tmp/x"), 5), "/run/user/1000/prefetch.sock");
    assert_eq!(socket_path_for(None, Some("/var/folders/t/"), 5), "/var/folders/t/prefetch.sock");
    assert_eq!(socket_path_for(None, None, 4242), "/tmp/prefetch-4242.sock");
}

#[test]
fn socket_path_is_never_empty_and_names_prefetch() {
    for (rt, tmp) in [(Some("/run/user/1"), None), (None, Some("/tmp")), (None, None)] {
        let p = socket_path_for(rt, tmp, 1);
        assert!(!p.is_empty());
        let file = p.rsplit('/').next().unwrap();
        assert!(!file.is_empty());
        assert!(file.contains("prefetch"));
    }
}

#[test]
fn permissive_modes() {
    assert!(!group_or_other_access(0o700));
    assert!(!group_or_other_access(OWNER_ONLY_MODE));
    assert!(group_or_other_access(0o755));
    assert!(group_or_other_access(0o701));
    assert!(group_or_other_access(0o140770));
}

#[test]
fn default_directories() {
    assert_eq!(ollama_models_dir_from(Some("/srv/models"), Some("/home/u")), "/srv/models");
    assert_eq!(ollama_models_dir_from(None, Some("/home/u")), "/home/u/.ollama/models");
    assert_eq!(ollama_models_dir_from(None, None), "/tmp/.ollama/models");
    assert_eq!(fallback_config_path(Some("/home/u")), "/home/u/.config/prefetch/config.toml");
    assert_eq!(fallback_data_dir(None), "/tmp/.local/share/prefetch");
    assert_eq!(config_path_in("/home/u/.config/prefetch"), "/home/u/.config/prefetch/config.toml");
}

#[test]
fn configuration_defaults() {
    let c = AppConfig::defaults_for("/home/u/.local/share/prefetch", "/home/u/.ollama/models".to_string());
    assert_eq!(c.general.log_level, "info");
    assert_eq!(c.general.db_path, "/home/u/.local/share/prefetch/history.db");
    assert_eq!(c.prefetch.strategy, "inference-order");
    assert_eq!(c.prefetch.first_n_layers, 8);
    assert_eq!(c.prefetch.chunk_size_mb, 64);
    assert_eq!(c.memory.max_cache_percent, 50);
    assert_eq!(c.memory.min_free_ram_gb, 2);
    assert_eq!(c.watch.directories, vec!["/home/u/.ollama/models".to_string()]);
    assert_eq!(c.watch.poll_interval_secs, 300);
    assert!(c.prediction.enabled);
    assert_eq!(c.prediction.lookahead_minutes, 30);
    assert_eq!(c.prediction.min_frequency, 3);
    let p = PrefetchConfig::default();
    assert_eq!(p.first_n_layers, 8);
    let m = MemoryConfig::default();
    assert_eq!(m.min_free_ram_gb, 2);
    let pr = PredictionConfig::default();
    assert_eq!(pr.lookahead_minutes, 30);
    let g = GeneralConfig::in_data_dir("/d");
    assert_eq!(g.db_path, "/d/history.db");
    let w = WatchConfig::watching("/m".to_string());
    assert_eq!(w.poll_interval_secs, 300);
}

#[test]
fn empty_directories_leave_the_name() {
    assert_eq!(socket_path_for(Some(""), Some("/tmp"), 5), "prefetch.sock");
    assert_eq!(socket_path_for(None, Some(""), 5), "prefetch.sock");
    assert_eq!(config_path_in(""), "config.toml");
    assert_eq!(ollama_models_dir_from(None, Some("")), ".ollama/models");
}
