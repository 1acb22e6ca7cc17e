use prefetch::cache_status::{status_from_residency, CacheStatus};
use prefetch::platform::{chunk_ranges, residency_from, LinuxBackend, MacOSBackend, RDADVISE_CHUNK};
use prefetch::progress::ProgressTracker;
use prefetch::providers::{FileLayout, Segment};
use prefetch::strategy::{MemoryBudget, PrefetchStrategy};
use prefetch::strmap::StrMap;

#[test]
fn parses_strategy_names() {
    assert_eq!(PrefetchStrategy::from_str_with_layers("inference-order", None).unwrap(), PrefetchStrategy::InferenceOrder);
    assert_eq!(PrefetchStrategy::from_str_with_layers("sequential", Some(3)).unwrap(), PrefetchStrategy::Sequential);
    assert_eq!(PrefetchStrategy::from_str_with_layers("first-n-layers", None).unwrap(), PrefetchStrategy::FirstNLayers(8));
    assert_eq!(PrefetchStrategy::from_str_with_layers("first-n-layers", Some(3)).unwrap(), PrefetchStrategy::FirstNLayers(3));
    let e = PrefetchStrategy::from_str_with_layers("random", None).unwrap_err();
    assert_eq!(e.strategy, "random");
}

#[test]
fn strategy_display_names() {
    assert_eq!(PrefetchStrategy::InferenceOrder.to_string(), "inference-order");
    assert_eq!(PrefetchStrategy::Sequential.to_string(), "sequential");
    assert_eq!(PrefetchStrategy::FirstNLayers(12).to_string(), "first-12-layers");
}

#[test]
fn budget_decisions() {
    let d = MemoryBudget::default();
    assert_eq!(d.min_free_ram, 2 * 1024 * 1024 * 1024);
    assert_eq!(d.max_bytes, None);
    assert!(!d.force);
    let gb = 1024 * 1024 * 1024u64;
    assert!(d.should_continue_with(0, 3 * gb, 0));
    assert!(!d.should_continue_with(0, gb, 0));
    assert!(!d.should_continue_with(0, 0, gb));
    assert!(d.should_continue_with(0, 0, 0));
    let capped = MemoryBudget { max_bytes: Some(100), min_free_ram: 0, force: false };
    assert!(!capped.should_continue_with(100, 8 * gb, 0));
    assert!(capped.should_continue_with(99, 8 * gb, 0));
    assert!(!capped.should_continue(100));
    let forced = MemoryBudget { max_bytes: Some(1), min_free_ram: u64::MAX, force: true };
    assert!(forced.should_continue_with(50, 1, 1));
    assert!(forced.should_continue(50));
}

#[test]
fn progress_tracker_counts() {
    let mut t = ProgressTracker::new(1000, 3);
    t.set_current_layer("block.0".to_string());
    t.add_bytes(100);
    t.add_bytes(50);
    t.complete_layer();
    let s = t.snapshot();
    assert_eq!(s.current_layer, "block.0");
    assert_eq!(s.bytes_advised, 150);
    assert_eq!(t.bytes_advised(), 150);
    assert_eq!(s.total_bytes, 1000);
    assert_eq!(s.layers_completed, 1);
    assert_eq!(s.total_layers, 3);
}

#[test]
fn residency_counts_per_segment() {
    let layout = FileLayout {
        file_size: 5 * 4096,
        format_name: "t".to_string(),
        segments: vec![
            Segment { name: "head".to_string(), offset: 0, length: 100, priority: 0 },
            Segment { name: "body".to_string(), offset: 4096, length: 8192, priority: 1 },
            Segment { name: "tail".to_string(), offset: 4 * 4096 + 10, length: 10 * 4096, priority: 2 },
            Segment { name: "beyond".to_string(), offset: 9 * 4096, length: 5, priority: 3 },
        ],
        metadata: StrMap::new(),
    };
    let res = vec![true, false, true, true, false];
    let s = status_from_residency(5 * 4096, &res, 4096, Some(&layout));
    assert_eq!(s.file_size, 5 * 4096);
    assert_eq!(s.total_pages, 5);
    assert_eq!(s.cached_pages, 3);
    let per: Vec<(&str, u64, usize, usize)> =
        s.layer_status.iter().map(|l| (l.layer_name.as_str(), l.total_bytes, l.total_pages, l.cached_pages)).collect();
    assert_eq!(
        per,
        vec![("head", 100, 1, 1), ("body", 8192, 2, 1), ("tail", 40960, 1, 0), ("beyond", 5, 0, 0)]
    );
    let none = status_from_residency(10, &vec![true], 4096, None);
    assert!(none.layer_status.is_empty());
}

#[test]
fn cached_bytes_is_proportional() {
    let s = CacheStatus { file_size: 1000, total_pages: 4, cached_pages: 1, layer_status: vec![] };
    assert_eq!(s.cached_bytes(), 250);
    let s = CacheStatus { file_size: 1000, total_pages: 3, cached_pages: 2, layer_status: vec![] };
    assert_eq!(s.cached_bytes(), 666);
    let s = CacheStatus { file_size: 1000, total_pages: 0, cached_pages: 0, layer_status: vec![] };
    assert_eq!(s.cached_bytes(), 0);
    let s = CacheStatus { file_size: u64::MAX, total_pages: 2, cached_pages: 2, layer_status: vec![] };
    assert_eq!(s.cached_bytes(), u64::MAX);
}

#[test]
fn chunks_cover_a_range() {
    assert_eq!(chunk_ranges(10, 25, 10), vec![(10, 10), (20, 10), (30, 5)]);
    assert_eq!(chunk_ranges(0, 20, 10), vec![(0, 10), (10, 10)]);
    assert!(chunk_ranges(5, 0, 10).is_empty());
    let big = chunk_ranges(0, 3 * RDADVISE_CHUNK + 1, RDADVISE_CHUNK);
    assert_eq!(big.len(), 4);
    assert_eq!(big[3], (3 * RDADVISE_CHUNK, 1));
}

#[test]
fn residency_bits() {
    assert_eq!(residency_from(&vec![0, 1, 2, 3, 0x81]), vec![false, true, false, true, true]);
}

#[test]
fn page_arithmetic() {
    let l = LinuxBackend::with_page_size(4096);
    assert_eq!(l.page_size(), 4096);
    assert_eq!(l.pages_for(0), 0);
    assert_eq!(l.pages_for(1), 1);
    assert_eq!(l.pages_for(4096), 1);
    assert_eq!(l.pages_for(4097), 2);
    assert_eq!(l.pages_for(usize::MAX), usize::MAX / 4096 + 1);
    let m = MacOSBackend::with_page_size(16384);
    assert_eq!(m.pages_for(16385), 2);
    assert_eq!(m.aligned_range(16384 * 3 + 100, 50), (16384 * 3, 150));
    assert_eq!(m.aligned_range(0, 50), (0, 50));
}

#[test]
fn segments_fit_check() {
    let ok = vec![Segment { name: "a".to_string(), offset: 0, length: 10, priority: 0 }];
    assert!(prefetch::cache_status::check_segments_fit(&ok, 4096));
    let far = vec![Segment { name: "b".to_string(), offset: u64::MAX - 100, length: 50, priority: 0 }];
    assert!(!prefetch::cache_status::check_segments_fit(&far, 4096));
    assert!(prefetch::cache_status::check_segments_fit(&far, 1));
}
