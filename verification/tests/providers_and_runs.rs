use prefetch::cache_status::status_from_residency;
use prefetch::engine::{plan_run, select_segments, PrefetchRun, RunAction};
use prefetch::gguf_provider::GgufProvider;
use prefetch::providers::manifest::{
    default_target, layout_from_manifest, manifest_path_for, manifest_target, ManifestFile, ManifestProvider,
    ManifestSegment,
};
use prefetch::providers::{
    first_layout, search_goes_on, FileLayout, FileProvider, ProviderAnswer, ProviderError, ProviderRegistry, Segment,
};
use prefetch::strategy::{MemoryBudget, PrefetchStrategy};
use prefetch::strmap::StrMap;

fn seg(name: &str, offset: u64, length: u64, priority: u32) -> Segment {
    Segment { name: name.to_string(), offset, length, priority }
}

fn layout(segments: Vec<Segment>) -> FileLayout {
    FileLayout { file_size: 10_000, format_name: "test".to_string(), segments, metadata: StrMap::new() }
}

#[test]
fn ordered_segments_are_a_stable_priority_sort() {
    let l = layout(vec![seg("c", 200, 10, 2), seg("a", 0, 10, 0), seg("b1", 100, 10, 1), seg("b2", 150, 10, 1)]);
    let names: Vec<&str> = l.ordered_segments().iter().map(|s| s.name.as_str()).collect();
    assert_eq!(names, vec!["a", "b1", "b2", "c"]);
    assert_eq!(l.total_segment_bytes(), 40);
}

#[test]
fn select_segments_by_strategy() {
    let l = layout(vec![seg("x", 300, 10, 9), seg("emb", 0, 10, 0), seg("b0", 10, 10, 100), seg("b1", 20, 10, 101)]);
    let all: Vec<&str> =
        select_segments(&l, PrefetchStrategy::InferenceOrder).iter().map(|s| s.name.as_str()).collect();
    assert_eq!(all, vec!["emb", "x", "b0", "b1"]);
    let first: Vec<&str> =
        select_segments(&l, PrefetchStrategy::FirstNLayers(2)).iter().map(|s| s.name.as_str()).collect();
    assert_eq!(first, vec!["emb", "x"]);
    let one: Vec<&str> =
        select_segments(&l, PrefetchStrategy::FirstNLayers(1)).iter().map(|s| s.name.as_str()).collect();
    assert_eq!(one, vec!["emb"]);
    assert!(select_segments(&l, PrefetchStrategy::FirstNLayers(0)).is_empty());
    let many = select_segments(&l, PrefetchStrategy::FirstNLayers(10));
    assert_eq!(many.len(), 4);
    let max = select_segments(&l, PrefetchStrategy::FirstNLayers(u32::MAX));
    assert_eq!(max.len(), 4);
}

fn run_to_end(run: &mut PrefetchRun, budget: &MemoryBudget) -> Vec<RunAction> {
    let mut actions = Vec::new();
    loop {
        let a = run.advance(budget);
        let done = a == RunAction::Finished;
        actions.push(a);
        if done {
            break;
        }
    }
    actions
}

#[test]
fn sequential_run_advises_the_whole_file_in_chunks() {
    let budget = MemoryBudget { force: true, ..MemoryBudget::default() };
    let mut run = PrefetchRun::sequential(150, 64);
    let actions = run_to_end(&mut run, &budget);
    assert_eq!(
        actions,
        vec![
            RunAction::Begin,
            RunAction::Advise { offset: 0, length: 64 },
            RunAction::Advise { offset: 64, length: 64 },
            RunAction::Advise { offset: 128, length: 22 },
            RunAction::Complete,
            RunAction::Finished,
        ]
    );
    let p = run.progress();
    assert_eq!(p.bytes_advised, 150);
    assert_eq!(p.total_bytes, 150);
    assert_eq!(p.layers_completed, 1);
    assert_eq!(p.current_layer, "sequential");
    assert!(!run.is_budget_limited());
    assert!(run.is_finished());
}

#[test]
fn sequential_run_advises_size_over_chunk_rounded_up_times() {
    let budget = MemoryBudget { force: true, ..MemoryBudget::default() };
    for (size, chunk, expected) in [(150u64, 64u64, 3usize), (128, 64, 2), (1, 64, 1), (0, 64, 0), (1000, 1, 1000), (65, 64, 2)] {
        let mut run = PrefetchRun::sequential(size, chunk);
        let actions = run_to_end(&mut run, &budget);
        let advised = actions.iter().filter(|a| matches!(a, RunAction::Advise { .. })).count();
        assert_eq!(advised, expected);
        assert_eq!(advised as u64, (size + chunk - 1) / chunk);
    }
}

#[test]
fn empty_file_completes_without_advice() {
    let budget = MemoryBudget { force: true, ..MemoryBudget::default() };
    let mut run = PrefetchRun::sequential(0, 64);
    let actions = run_to_end(&mut run, &budget);
    assert_eq!(actions, vec![RunAction::Begin, RunAction::Complete, RunAction::Finished]);
}

#[test]
fn byte_budget_stops_a_sequential_run_before_the_next_chunk() {
    let budget = MemoryBudget { max_bytes: Some(100), min_free_ram: 0, force: false };
    let mut run = PrefetchRun::sequential(1000, 64);
    let actions = run_to_end(&mut run, &budget);
    assert_eq!(
        actions,
        vec![
            RunAction::Begin,
            RunAction::Advise { offset: 0, length: 64 },
            RunAction::Advise { offset: 64, length: 64 },
            RunAction::Finished,
        ]
    );
    assert!(run.is_budget_limited());
    assert_eq!(run.progress().bytes_advised, 128);
    assert_eq!(run.progress().layers_completed, 1);
}

#[test]
fn structured_run_warms_segments_in_order() {
    let l = layout(vec![seg("late", 1000, 30, 5), seg("early", 0, 100, 0)]);
    let selected = select_segments(&l, PrefetchStrategy::InferenceOrder);
    let mut run = PrefetchRun::structured(&selected, 64);
    let budget = MemoryBudget { force: true, ..MemoryBudget::default() };
    let actions = run_to_end(&mut run, &budget);
    assert_eq!(
        actions,
        vec![
            RunAction::Begin,
            RunAction::Advise { offset: 0, length: 64 },
            RunAction::Advise { offset: 64, length: 36 },
            RunAction::Complete,
            RunAction::Begin,
            RunAction::Advise { offset: 1000, length: 30 },
            RunAction::Complete,
            RunAction::Finished,
        ]
    );
    let result = run.finish(status_from_residency(2000, &vec![true, false], 1024, None));
    assert_eq!(result.progress.bytes_advised, 130);
    assert_eq!(result.progress.total_bytes, 130);
    assert_eq!(result.progress.layers_completed, 2);
    assert_eq!(result.progress.total_layers, 2);
    assert!(!result.budget_limited);
    assert_eq!(result.cache_status.cached_pages, 1);
}

#[test]
fn byte_budget_stops_a_structured_run_at_a_segment() {
    let l = layout(vec![seg("a", 0, 100, 0), seg("b", 100, 100, 1), seg("c", 200, 100, 2)]);
    let selected = select_segments(&l, PrefetchStrategy::InferenceOrder);
    let mut run = PrefetchRun::structured(&selected, 1 << 20);
    assert_eq!(run.budget_check(), Some(0));
    let budget = MemoryBudget { max_bytes: Some(150), min_free_ram: 0, force: false };
    let actions = run_to_end(&mut run, &budget);
    assert_eq!(
        actions,
        vec![
            RunAction::Begin,
            RunAction::Advise { offset: 0, length: 100 },
            RunAction::Complete,
            RunAction::Begin,
            RunAction::Advise { offset: 100, length: 100 },
            RunAction::Complete,
            RunAction::Finished,
        ]
    );
    assert!(run.is_budget_limited());
    assert_eq!(run.progress().current_layer, "c");
    assert_eq!(run.progress().layers_completed, 2);
}

#[test]
fn step_with_an_explicit_budget_answer() {
    let mut run = PrefetchRun::sequential(10, 4);
    assert_eq!(run.budget_check(), None);
    assert_eq!(run.step(false), RunAction::Begin);
    assert_eq!(run.budget_check(), Some(0));
    assert_eq!(run.step(true), RunAction::Advise { offset: 0, length: 4 });
    assert_eq!(run.budget_check(), Some(4));
    assert_eq!(run.step(false), RunAction::Finished);
    assert!(run.is_budget_limited());
    assert_eq!(run.step(true), RunAction::Finished);
}

#[test]
fn manifest_paths_round_trip() {
    let m = manifest_path_for("/data/mydb.dat");
    assert_eq!(m, "/data/mydb.dat.prefetch.toml");
    assert_eq!(default_target(&m), Some("/data/mydb.dat".to_string()));
    assert_eq!(default_target("/data/other.toml"), None);
}

#[test]
fn manifest_provider_recognises_manifests() {
    let p = ManifestProvider;
    assert_eq!(p.name(), "manifest");
    assert!(p.can_handle("/data/mydb.dat.prefetch.toml"));
    assert!(!p.can_handle("/data/config.toml"));
    assert!(!p.can_handle("/data/mydb.prefetch.json"));
}

#[test]
fn layout_from_manifest_defaults() {
    let manifest = ManifestFile {
        format: None,
        file: Some("/data/mydb.dat".to_string()),
        segments: vec![
            ManifestSegment { name: "index".to_string(), offset: 0, length: 4096, priority: Some(5) },
            ManifestSegment { name: "data".to_string(), offset: 4096, length: 100, priority: None },
        ],
    };
    let l = layout_from_manifest(manifest, 8192);
    assert_eq!(l.file_size, 8192);
    assert_eq!(l.format_name, "custom");
    assert_eq!(l.segments[0].priority, 5);
    assert_eq!(l.segments[1].priority, 1);
    assert_eq!(l.segments[1].name, "data");
    assert_eq!(l.metadata.get("target_file").map(|s| s.as_str()), Some("/data/mydb.dat"));
}

struct Fixed {
    accepts: bool,
    fails: bool,
    label: &'static str,
}

impl FileProvider for Fixed {
    fn name(&self) -> String {
        self.label.to_string()
    }
    fn can_handle(&self, _path: &str) -> bool {
        self.accepts
    }
    fn analyze(&self, _path: &str) -> Result<FileLayout, ProviderError> {
        if self.fails {
            Err(ProviderError { message: "bad".to_string() })
        } else {
            let mut l = layout(vec![]);
            l.format_name = self.label.to_string();
            Ok(l)
        }
    }
}

#[test]
fn registry_tries_providers_in_order() {
    let mut r = ProviderRegistry::new();
    assert!(r.analyze("/f", None).is_none());
    r.register(Box::new(Fixed { accepts: false, fails: false, label: "no" }));
    r.register(Box::new(Fixed { accepts: true, fails: true, label: "broken" }));
    r.register(Box::new(Fixed { accepts: true, fails: false, label: "yes" }));
    r.register(Box::new(Fixed { accepts: true, fails: false, label: "later" }));
    assert_eq!(r.provider_names(), vec!["no", "broken", "yes", "later"]);
    assert_eq!(r.analyze("/f", None).unwrap().format_name, "yes");
    let from_manifest = layout(vec![seg("m", 0, 1, 0)]);
    assert_eq!(r.analyze("/f", Some(from_manifest)).unwrap().format_name, "test");
    let d = ProviderRegistry::default();
    assert!(d.provider_names().is_empty());
}

#[test]
fn gguf_provider_detection() {
    let p = GgufProvider;
    assert_eq!(p.name(), "gguf");
    assert!(p.can_handle("/models/x.gguf", None));
    assert!(p.can_handle("/blobs/sha256-abc", Some(b"GGUF\x03\x00")));
    assert!(!p.can_handle("/blobs/sha256-abc", Some(b"GGU")));
    assert!(!p.can_handle("/blobs/sha256-abc", Some(b"ABCD")));
    assert!(!p.can_handle("/models/x.bin", None));
}

#[test]
fn manifest_targets() {
    assert_eq!(manifest_target("/data/db.prefetch.toml", Some("/abs/db.dat")), Some("/abs/db.dat".to_string()));
    assert_eq!(manifest_target("/data/db.prefetch.toml", Some("db.dat")), Some("/data/db.dat".to_string()));
    assert_eq!(manifest_target("db.prefetch.toml", Some("db.dat")), Some("db.dat".to_string()));
    assert_eq!(manifest_target("/data/db.prefetch.toml", None), Some("/data/db".to_string()));
    assert_eq!(manifest_target("/data/db.toml", None), None);
}

#[test]
fn memory_reading_budget_refuses_an_impossible_minimum() {
    let b = MemoryBudget { max_bytes: None, min_free_ram: u64::MAX, force: false };
    assert!(!b.should_continue(0));
}

#[test]
fn first_layout_picks_the_first_analysis() {
    let answers = vec![
        ProviderAnswer::Declined,
        ProviderAnswer::Failed(ProviderError { message: "bad".to_string() }),
        ProviderAnswer::Analyzed(layout(vec![seg("one", 0, 1, 0)])),
        ProviderAnswer::Analyzed(layout(vec![seg("two", 0, 1, 0)])),
    ];
    assert!(search_goes_on(&vec![], 3));
    assert!(!search_goes_on(&vec![], 0));
    let got = first_layout(answers).unwrap();
    assert_eq!(got.segments[0].name, "one");
    assert!(first_layout(vec![ProviderAnswer::Declined]).is_none());
    assert!(first_layout(vec![]).is_none());
    assert!(!search_goes_on(&vec![ProviderAnswer::Declined], 1));
    assert!(search_goes_on(&vec![ProviderAnswer::Declined], 2));
    assert!(!search_goes_on(&vec![ProviderAnswer::Analyzed(layout(vec![]))], 2));
}

#[test]
fn plan_run_by_strategy() {
    let l = layout(vec![seg("b", 100, 50, 1), seg("a", 0, 100, 0)]);
    let budget = MemoryBudget { force: true, ..MemoryBudget::default() };
    let mut seq = plan_run(PrefetchStrategy::Sequential, Some(&l), 300, 1000).unwrap();
    assert_eq!(run_to_end(&mut seq, &budget)[1], RunAction::Advise { offset: 0, length: 300 });
    let mut none = plan_run(PrefetchStrategy::InferenceOrder, None, 300, 1000).unwrap();
    assert_eq!(none.progress().total_bytes, 300);
    assert_eq!(run_to_end(&mut none, &budget)[1], RunAction::Advise { offset: 0, length: 300 });
    let mut first = plan_run(PrefetchStrategy::FirstNLayers(1), Some(&l), 300, 1000).unwrap();
    assert_eq!(first.progress().total_bytes, 100);
    assert_eq!(
        run_to_end(&mut first, &budget),
        vec![RunAction::Begin, RunAction::Advise { offset: 0, length: 100 }, RunAction::Complete, RunAction::Finished]
    );
    let huge = layout(vec![seg("x", u64::MAX - 1, 5, 0)]);
    assert!(plan_run(PrefetchStrategy::InferenceOrder, Some(&huge), 300, 1000).is_none());
}
