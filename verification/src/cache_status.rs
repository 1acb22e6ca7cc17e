//! Page cache residency of a file, overall and per segment.
use vstd::prelude::*;
use crate::providers::{FileLayout, Segment};

verus! {

/// Page cache residency status for a file.
pub struct CacheStatus {
    /// Total file size in bytes.
    pub file_size: u64,
    /// Number of pages total.
    pub total_pages: usize,
    /// Number of pages currently in cache.
    pub cached_pages: usize,
    /// Per-segment cache status (where a layout is known).
    pub layer_status: Vec<LayerCacheStatus>,
}

/// The bytes of a file of `file_size` bytes that `cached` of its `total`
/// pages hold, in proportion, rounded down (0 for a file of no pages; at
/// most `u64::MAX`).
pub open spec fn spec_cached_bytes(file_size: u64, cached: usize, total: usize) -> int {
    if total == 0 {
        0
    } else {
        let b = (file_size * cached) / (total as int);
        if b > u64::MAX {
            u64::MAX as int
        } else {
            b
        }
    }
}

impl CacheStatus {
    /// Bytes currently cached: the file size in proportion to the pages
    /// cached.
    pub fn cached_bytes(&self) -> (r: u64)
        ensures
            r == spec_cached_bytes(self.file_size, self.cached_pages, self.total_pages),
            self.cached_pages <= self.total_pages ==> r <= self.file_size,
    {
        if self.total_pages == 0 {
            return 0;
        }
        proof {
            let f = self.file_size as int;
            let c = self.cached_pages as int;
            let t = self.total_pages as int;
            if c <= t {
                assert((f * c) / t <= f) by (nonlinear_arith)
                    requires
                        0 <= c <= t,
                        t > 0,
                        f >= 0,
                ;
            }
        }
        let f = self.file_size as u128;
        let c = self.cached_pages as u128;
        assert(f * c <= u64::MAX as int * u64::MAX as int) by (nonlinear_arith)
            requires
                f <= u64::MAX,
                c <= u64::MAX,
        ;
        let b = (f * c) / (self.total_pages as u128);
        if b > u64::MAX as u128 {
            u64::MAX
        } else {
            b as u64
        }
    }
}

/// Cache status for a single segment.
pub struct LayerCacheStatus {
    pub layer_name: String,
    pub total_bytes: u64,
    pub total_pages: usize,
    pub cached_pages: usize,
}

/// The number of `true` entries.
pub open spec fn count_true(s: Seq<bool>) -> nat
    decreases s.len(),
{
    if s.len() == 0 {
        0
    } else {
        count_true(s.drop_last()) + if s.last() { 1nat } else { 0nat }
    }
}

/// Never more pages cached than there are pages.
pub proof fn lemma_count_true_bound(s: Seq<bool>)
    ensures
        count_true(s) <= s.len(),
    decreases s.len(),
{
    if s.len() > 0 {
        lemma_count_true_bound(s.drop_last());
    }
}

/// The first page of a segment.
pub open spec fn first_page(seg: Segment, page_size: u64) -> int {
    seg.offset as int / page_size as int
}

/// The page after the segment's last (rounding its end up), capped at `total`.
pub open spec fn end_page(seg: Segment, page_size: u64, total: int) -> int {
    let e = (seg.offset + seg.length + page_size - 1) / (page_size as int);
    if e < total { e } else { total }
}

/// The residency of a segment's pages (empty where the segment starts at
/// or after its capped end).
pub open spec fn segment_pages(seg: Segment, page_size: u64, residency: Seq<bool>) -> Seq<bool> {
    let a = first_page(seg, page_size);
    let b = end_page(seg, page_size, residency.len() as int);
    if a < b { residency.subrange(a, b) } else { Seq::empty() }
}

/// Every segment's end, rounded up to a page, stays within `u64`.
pub open spec fn segments_fit(segs: Seq<Segment>, page_size: u64) -> bool {
    forall|i: int| 0 <= i < segs.len() ==> #[trigger] segs[i].offset + segs[i].length + page_size - 1 <= u64::MAX
}

/// Whether every segment's end, rounded up to a page of `page_size` bytes,
/// stays within `u64`: the condition under which `status_from_residency`
/// gives a per-segment breakdown.
pub fn check_segments_fit(segs: &Vec<Segment>, page_size: u64) -> (r: bool)
    requires
        page_size > 0,
    ensures
        r == segments_fit(segs@, page_size),
{
    let mut i: usize = 0;
    while i < segs.len()
        invariant
            page_size > 0,
            i <= segs@.len(),
            forall|j: int| 0 <= j < i ==> #[trigger] segs@[j].offset + segs@[j].length + page_size - 1 <= u64::MAX,
        decreases segs@.len() - i,
    {
        let s = &segs[i];
        if s.offset > u64::MAX - s.length || s.offset + s.length > u64::MAX - (page_size - 1) {
            return false;
        }
        i += 1;
    }
    true
}

/// `st` is the status of segment `seg`.
pub open spec fn layer_status_of(st: LayerCacheStatus, seg: Segment, page_size: u64, residency: Seq<bool>) -> bool {
    &&& st.layer_name@ == seg.name@
    &&& st.total_bytes == seg.length
    &&& st.total_pages == segment_pages(seg, page_size, residency).len()
    &&& st.cached_pages == count_true(segment_pages(seg, page_size, residency))
}

fn count_resident(residency: &Vec<bool>, from: usize, to: usize) -> (r: usize)
    requires
        from <= to <= residency@.len(),
    ensures
        r == count_true(residency@.subrange(from as int, to as int)),
{
    let mut n: usize = 0;
    let mut i = from;
    while i < to
        invariant
            from <= i <= to <= residency@.len(),
            n == count_true(residency@.subrange(from as int, i as int)),
            n <= i - from,
        decreases to - i,
    {
        proof {
            assert(residency@.subrange(from as int, i + 1).drop_last() =~= residency@.subrange(
                from as int,
                i as int,
            ));
        }
        if residency[i] {
            n += 1;
        }
        i += 1;
    }
    n
}

/// The cache status of a file of `file_size` bytes from the residency of
/// its pages (one entry per page of `page_size` bytes), with a per-segment
/// breakdown where a layout is given.
pub fn status_from_residency(
    file_size: u64,
    residency: &Vec<bool>,
    page_size: u64,
    layout: Option<&FileLayout>,
) -> (r: CacheStatus)
    requires
        page_size > 0,
        layout matches Some(l) ==> segments_fit(l.segments@, page_size),
    ensures
        r.file_size == file_size,
        r.total_pages == residency@.len(),
        r.cached_pages == count_true(residency@),
        r.cached_pages <= r.total_pages,
        forall|i: int|
            0 <= i < r.layer_status@.len() ==> (#[trigger] r.layer_status@[i]).cached_pages
                <= r.layer_status@[i].total_pages,
        match layout {
            Some(l) => r.layer_status@.len() == l.segments@.len() && forall|i: int|
                0 <= i < l.segments@.len() ==> layer_status_of(
                    #[trigger] r.layer_status@[i],
                    l.segments@[i],
                    page_size,
                    residency@,
                ),
            None => r.layer_status@.len() == 0,
        },
{
    let total_pages = residency.len();
    let cached_pages = count_resident(residency, 0, total_pages);
    proof {
        assert(residency@.subrange(0, total_pages as int) =~= residency@);
        lemma_count_true_bound(residency@);
    }
    let mut layer_status: Vec<LayerCacheStatus> = Vec::new();
    if let Some(l) = layout {
        let mut i: usize = 0;
        while i < l.segments.len()
            invariant
                i <= l.segments@.len(),
                page_size > 0,
                total_pages == residency@.len(),
                segments_fit(l.segments@, page_size),
                layer_status@.len() == i,
                forall|j: int|
                    0 <= j < i ==> layer_status_of(
                        #[trigger] layer_status@[j],
                        l.segments@[j],
                        page_size,
                        residency@,
                    ),
                forall|j: int|
                    0 <= j < i ==> (#[trigger] layer_status@[j]).cached_pages <= layer_status@[j].total_pages,
            decreases l.segments@.len() - i,
        {
            let seg = &l.segments[i];
            proof {
                assert(seg.offset + seg.length + page_size - 1 <= u64::MAX);
            }
            let start_page = seg.offset / page_size;
            let end = seg.offset + seg.length;
            let mut end_pg = (end + (page_size - 1)) / page_size;
            if end_pg > total_pages as u64 {
                end_pg = total_pages as u64;
            }
            let (pages, cached) = if start_page < end_pg {
                let a = start_page as usize;
                let b = end_pg as usize;
                proof {
                    lemma_count_true_bound(residency@.subrange(a as int, b as int));
                }
                (b - a, count_resident(residency, a, b))
            } else {
                (0, 0)
            };
            layer_status.push(
                LayerCacheStatus {
                    layer_name: seg.name.clone(),
                    total_bytes: seg.length,
                    total_pages: pages,
                    cached_pages: cached,
                },
            );
            i += 1;
        }
    }
    CacheStatus { file_size, total_pages, cached_pages, layer_status }
}

} // verus!
