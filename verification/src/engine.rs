//! The decisions of a prefetch run: which segments to warm, in which
//! chunks, and where the memory budget stops the run.
//!
//! The advice to the kernel itself is made by the caller: a run hands out
//! one action at a time, and the caller performs it and asks for the next.
use vstd::prelude::*;
use crate::cache_status::CacheStatus;
use crate::order::is_stable_order;
use crate::progress::{PrefetchProgress, ProgressTracker, TrackerView};
use crate::providers::{lemma_total_length_prefix, priority_keys, total_length, FileLayout, Segment};
use crate::strategy::{spec_should_continue, MemoryBudget, PrefetchStrategy};

verus! {

/// Result of a completed prefetch operation.
pub struct PrefetchResult {
    pub progress: PrefetchProgress,
    pub cache_status: CacheStatus,
    pub budget_limited: bool,
}

/// How many of `n` segments a strategy warms: all of them, or for
/// `FirstNLayers(k)` only the first `k`.
pub open spec fn selected_count(strategy: PrefetchStrategy, n: nat) -> nat {
    match strategy {
        PrefetchStrategy::FirstNLayers(k) => if k < n {
            k as nat
        } else {
            n
        },
        _ => n,
    }
}

/// The segments a structure-aware prefetch warms, in the order it warms
/// them: the layout's segments in stable priority order, cut after the
/// first `k` for `FirstNLayers(k)`.
pub fn select_segments(layout: &FileLayout, strategy: PrefetchStrategy) -> (r: Vec<&Segment>)
    ensures
        r@.len() == selected_count(strategy, layout.segments@.len()),
        exists|p: Seq<usize>|
            is_stable_order(priority_keys(layout.segments@), p) && forall|i: int|
                0 <= i < r@.len() ==> *r@[i] == layout.segments@[#[trigger] p[i] as int],
{
    let mut ordered = layout.ordered_segments();
    let ghost full = ordered@;
    if let PrefetchStrategy::FirstNLayers(k) = strategy {
        let keep: u64 = k as u64;
        if keep < ordered.len() as u64 {
            ordered.truncate(keep as usize);
        }
    }
    proof {
        let p = choose|p: Seq<usize>|
            is_stable_order(priority_keys(layout.segments@), p) && forall|i: int|
                0 <= i < full.len() ==> *full[i] == layout.segments@[#[trigger] p[i] as int];
        assert forall|i: int| 0 <= i < ordered@.len() implies *ordered@[i]
            == layout.segments@[#[trigger] p[i] as int] by {
            assert(ordered@[i] == full[i]);
        }
    }
    ordered
}

/// What the driver of a run does next.
#[derive(Debug, PartialEq, Eq, Structural)]
pub enum RunAction {
    /// A segment was begun: its name is now the current layer.
    Begin,
    /// Advise the kernel that the bytes `[offset, offset + length)` will be needed.
    Advise { offset: u64, length: u64 },
    /// The current segment is complete.
    Complete,
    /// The run is over.
    Finished,
}

/// The state of a run.
pub struct RunView {
    /// The segments to warm, in order.
    pub segments: Seq<Segment>,
    /// Whether the budget is read before every chunk (a sequential run), or
    /// once as each segment begins (a structure-aware run).
    pub check_each_chunk: bool,
    /// The largest chunk advised at once.
    pub chunk_size: u64,
    /// The current segment.
    pub seg: nat,
    /// Where the next chunk of the current segment starts.
    pub pos: u64,
    /// Whether the current segment has been begun.
    pub started: bool,
    pub finished: bool,
    pub budget_limited: bool,
    pub progress: TrackerView,
    /// How many chunks the run has advised.
    pub chunks: nat,
    /// How many of them belong to the current segment.
    pub seg_chunks: nat,
}

/// `a / c` rounded up: the number of chunks of `c` bytes that `a` bytes take.
pub open spec fn ceil_div(a: int, c: int) -> int {
    (a + c - 1) / c
}

/// The number of chunks of `c` bytes that the segments take, each cut
/// separately.
pub open spec fn chunk_count(segs: Seq<Segment>, c: u64) -> int
    decreases segs.len(),
{
    if segs.len() == 0 {
        0
    } else {
        chunk_count(segs.drop_last(), c) + ceil_div(segs.last().length as int, c as int)
    }
}

/// The end of a segment.
pub open spec fn seg_end(s: Segment) -> int {
    s.offset + s.length
}

/// Every segment's end fits in `u64`, and so does their total length.
pub open spec fn segments_fit(segs: Seq<Segment>) -> bool {
    &&& forall|i: int| 0 <= i < segs.len() ==> #[trigger] seg_end(segs[i]) <= u64::MAX
    &&& total_length(segs) <= u64::MAX
}

/// The well-formedness of a run: the bytes advised so far are exactly the
/// completed segments and the part of the current one already advised.
pub open spec fn run_wf(v: RunView) -> bool {
    &&& v.chunk_size > 0
    &&& segments_fit(v.segments)
    &&& v.progress.total_bytes == total_length(v.segments)
    &&& v.progress.total_layers == v.segments.len()
    &&& v.seg <= v.segments.len()
    &&& v.started ==> v.seg < v.segments.len() && v.segments[v.seg as int].offset <= v.pos <= seg_end(
        v.segments[v.seg as int],
    )
    &&& v.progress.bytes_advised == total_length(v.segments.take(v.seg as int)) + if v.started {
        v.pos - v.segments[v.seg as int].offset
    } else {
        0
    }
    &&& !v.finished ==> v.progress.layers_completed == v.seg
    &&& v.finished ==> v.progress.layers_completed <= v.segments.len()
    &&& v.budget_limited ==> v.finished
    &&& v.finished && !v.budget_limited ==> v.seg == v.segments.len()
        && v.progress.layers_completed == v.segments.len()
    &&& !v.started ==> v.seg_chunks == 0
    &&& v.started && v.pos < seg_end(v.segments[v.seg as int]) ==> v.pos - v.segments[v.seg as int].offset
        == v.seg_chunks * v.chunk_size
    &&& v.started && v.pos == seg_end(v.segments[v.seg as int]) ==> v.seg_chunks == ceil_div(
        v.segments[v.seg as int].length as int,
        v.chunk_size as int,
    )
    &&& v.chunks == chunk_count(v.segments.take(v.seg as int), v.chunk_size) + v.seg_chunks
}

/// Where the next step of a run reads the memory budget: with the bytes
/// advised so far, before a chunk of a sequential run, or as a segment of
/// a structure-aware run begins.
pub open spec fn budget_check_at(v: RunView) -> Option<u64> {
    if !v.finished && v.seg < v.segments.len() && (if v.started {
        v.pos < seg_end(v.segments[v.seg as int]) && v.check_each_chunk
    } else {
        !v.check_each_chunk
    }) {
        Some(v.progress.bytes_advised)
    } else {
        None
    }
}

/// The next chunk's length: a full chunk, or what is left of the segment.
pub open spec fn chunk_len(v: RunView) -> u64 {
    let left = seg_end(v.segments[v.seg as int]) - v.pos;
    if v.chunk_size < left {
        v.chunk_size
    } else {
        left as u64
    }
}

/// One step of a run, given the budget's answer `ok` (read only where
/// `budget_check_at` says so).
pub open spec fn run_step(v: RunView, ok: bool) -> (RunView, RunAction) {
    if v.finished {
        (v, RunAction::Finished)
    } else if v.seg >= v.segments.len() {
        (RunView { finished: true, ..v }, RunAction::Finished)
    } else {
        let s = v.segments[v.seg as int];
        if !v.started {
            let named = RunView {
                started: true,
                pos: s.offset,
                progress: TrackerView { current_layer: s.name@, ..v.progress },
                ..v
            };
            if !v.check_each_chunk && !ok {
                (RunView { finished: true, budget_limited: true, ..named }, RunAction::Finished)
            } else {
                (named, RunAction::Begin)
            }
        } else if v.pos < seg_end(s) {
            if v.check_each_chunk && !ok {
                (
                    RunView {
                        finished: true,
                        budget_limited: true,
                        progress: TrackerView {
                            layers_completed: (v.progress.layers_completed + 1) as usize,
                            ..v.progress
                        },
                        ..v
                    },
                    RunAction::Finished,
                )
            } else {
                let len = chunk_len(v);
                (
                    RunView {
                        pos: (v.pos + len) as u64,
                        progress: TrackerView {
                            bytes_advised: (v.progress.bytes_advised + len) as u64,
                            ..v.progress
                        },
                        chunks: v.chunks + 1,
                        seg_chunks: v.seg_chunks + 1,
                        ..v
                    },
                    RunAction::Advise { offset: v.pos, length: len },
                )
            }
        } else {
            (
                RunView {
                    seg: v.seg + 1,
                    started: false,
                    seg_chunks: 0,
                    progress: TrackerView {
                        layers_completed: (v.progress.layers_completed + 1) as usize,
                        ..v.progress
                    },
                    ..v
                },
                RunAction::Complete,
            )
        }
    }
}

/// What is left to do in a run: it falls with every step until the run is
/// finished.
pub open spec fn steps_left(v: RunView) -> int {
    if v.finished {
        0
    } else {
        1 + (total_length(v.segments) - v.progress.bytes_advised) + 2 * (v.segments.len() - v.seg) + if v.started {
            0int
        } else {
            1int
        }
    }
}

/// A prefetch run in progress.
pub struct PrefetchRun {
    segments: Vec<Segment>,
    check_each_chunk: bool,
    chunk_size: u64,
    seg: usize,
    pos: u64,
    started: bool,
    finished: bool,
    budget_limited: bool,
    tracker: ProgressTracker,
    chunks: Ghost<nat>,
    seg_chunks: Ghost<nat>,
}

impl View for PrefetchRun {
    type V = RunView;

    closed spec fn view(&self) -> RunView {
        RunView {
            segments: self.segments@,
            check_each_chunk: self.check_each_chunk,
            chunk_size: self.chunk_size,
            seg: self.seg as nat,
            pos: self.pos,
            started: self.started,
            finished: self.finished,
            budget_limited: self.budget_limited,
            progress: self.tracker@,
            chunks: self.chunks@,
            seg_chunks: self.seg_chunks@,
        }
    }
}

/// The total length of the first `k + 1` segments is that of the first `k`
/// and the next one's length.
proof fn lemma_total_length_step(segs: Seq<Segment>, k: int)
    requires
        0 <= k < segs.len(),
    ensures
        total_length(segs.take(k + 1)) == total_length(segs.take(k)) + segs[k].length,
{
    assert(segs.take(k + 1).drop_last() =~= segs.take(k));
}

/// The chunk count of the first `k + 1` segments is that of the first `k`
/// and the next one's.
proof fn lemma_chunk_count_step(segs: Seq<Segment>, k: int, c: u64)
    requires
        0 <= k < segs.len(),
    ensures
        chunk_count(segs.take(k + 1), c) == chunk_count(segs.take(k), c) + ceil_div(
            segs[k].length as int,
            c as int,
        ),
{
    assert(segs.take(k + 1).drop_last() =~= segs.take(k));
}

/// Chunk counts never fall as segments are added.
proof fn lemma_chunk_count_prefix(segs: Seq<Segment>, k: int, c: u64)
    requires
        0 <= k <= segs.len(),
        c > 0,
    ensures
        0 <= chunk_count(segs.take(k), c) <= chunk_count(segs, c),
    decreases segs.len(),
{
    if segs.len() > 0 {
        assert(ceil_div(segs.last().length as int, c as int) >= 0) by (nonlinear_arith)
            requires
                c > 0,
                segs.last().length >= 0,
        ;
        if k < segs.len() {
            assert(segs.drop_last().take(k) =~= segs.take(k));
            lemma_chunk_count_prefix(segs.drop_last(), k, c);
        } else {
            assert(segs.take(k) =~= segs);
            lemma_chunk_count_prefix(segs.drop_last(), 0, c);
        }
    } else {
        assert(segs.take(k) =~= segs);
    }
}

/// What the chunk counter needs of rounding up.
proof fn lemma_ceil_facts(k: int, c: int, l: int, len: int)
    requires
        c > 0,
        k >= 0,
    ensures
        ceil_div(0, c) == 0,
        0 < l <= c ==> ceil_div(k * c + l, c) == k + 1,
        (k + 1) * c == k * c + c,
        k * c < len ==> k + 1 <= ceil_div(len, c),
{
    assert(ceil_div(0, c) == 0) by (nonlinear_arith)
        requires
            c > 0,
    ;
    if 0 < l <= c {
        assert(ceil_div(k * c + l, c) == k + 1) by (nonlinear_arith)
            requires
                c > 0,
                k >= 0,
                0 < l <= c,
        ;
    }
    assert((k + 1) * c == k * c + c) by (nonlinear_arith);
    if k * c < len {
        assert(k + 1 <= ceil_div(len, c)) by (nonlinear_arith)
            requires
                c > 0,
                k >= 0,
                k * c < len,
        ;
    }
}

/// A run advises at most as many chunks as its segments take, each cut
/// into chunks of the chunk size: for a sequential run over a file of `S`
/// bytes, at most `S / C` rounded up, where `C` is the chunk size.
pub proof fn lemma_chunks_bounded(v: RunView)
    requires
        run_wf(v),
    ensures
        v.chunks <= chunk_count(v.segments, v.chunk_size),
        v.segments.len() == 1 ==> v.chunks <= ceil_div(v.segments[0].length as int, v.chunk_size as int),
{
    let c = v.chunk_size;
    if v.seg < v.segments.len() {
        lemma_chunk_count_step(v.segments, v.seg as int, c);
        lemma_chunk_count_prefix(v.segments, v.seg + 1int, c);
        let s = v.segments[v.seg as int];
        if v.started && v.pos < seg_end(s) {
            lemma_ceil_facts(v.seg_chunks as int, c as int, 0, s.length as int);
        }
    } else {
        assert(v.segments.take(v.seg as int) =~= v.segments);
    }
    if v.segments.len() == 1 {
        assert(v.segments.drop_last() =~= Seq::<Segment>::empty());
        assert(chunk_count(Seq::<Segment>::empty(), c) == 0);
        assert(v.segments.last() == v.segments[0]);
        assert(chunk_count(v.segments, c) == ceil_div(v.segments[0].length as int, c as int));
    }
}

/// A run that finishes without being stopped by the budget has advised
/// every byte of every segment and completed every segment.
pub proof fn lemma_run_covers_segments(v: RunView)
    requires
        run_wf(v),
        v.finished,
        !v.budget_limited,
    ensures
        v.progress.bytes_advised == total_length(v.segments),
        v.progress.layers_completed == v.segments.len(),
{
    assert(v.segments.take(v.segments.len() as int) =~= v.segments);
}

/// Every step keeps a run well formed, and every step of an unfinished run
/// brings it closer to its end.
pub proof fn lemma_run_step_progress(v: RunView, ok: bool)
    requires
        run_wf(v),
    ensures
        run_wf(run_step(v, ok).0),
        !v.finished ==> 0 <= steps_left(run_step(v, ok).0) < steps_left(v),
        v.finished ==> run_step(v, ok).0 == v,
        budget_check_at(v) is None ==> run_step(v, ok) == run_step(v, true),
        run_step(v, true).0.budget_limited == v.budget_limited,
{
    lemma_total_length_prefix(v.segments, v.seg as int);
    if v.seg < v.segments.len() {
        lemma_total_length_step(v.segments, v.seg as int);
        lemma_total_length_prefix(v.segments, v.seg + 1int);
        assert(seg_end(v.segments[v.seg as int]) <= u64::MAX);
    }
    let w = run_step(v, ok).0;
    if !v.finished && v.seg < v.segments.len() {
        lemma_chunk_count_step(v.segments, v.seg as int, v.chunk_size);
        let s = v.segments[v.seg as int];
        let c = v.chunk_size as int;
        let k = v.seg_chunks as int;
        let len = if v.started && v.pos < seg_end(s) { chunk_len(v) as int } else { 0 };
        lemma_ceil_facts(k, c, len, s.length as int);
        if !v.started {
            lemma_ceil_facts(0, c, 0, 0);
        }
    }
    if !v.finished && v.seg >= v.segments.len() {
        assert(v.seg == v.segments.len());
        assert(!v.started);
        assert(v.segments.take(v.seg as int) =~= v.segments);
    }
}

/// Every chunk a run advises lies inside its current segment, right after
/// what was advised of it before, and is no longer than the chunk size
/// (nor empty).
pub proof fn lemma_advice_within_segment(v: RunView, ok: bool)
    requires
        run_wf(v),
        run_step(v, ok).1 is Advise,
    ensures
        ({
            let s = v.segments[v.seg as int];
            let (offset, length) = (run_step(v, ok).1->Advise_offset, run_step(v, ok).1->Advise_length);
            &&& 0 < length <= v.chunk_size
            &&& s.offset <= offset
            &&& offset + length <= seg_end(s)
            &&& offset - s.offset == v.progress.bytes_advised - total_length(v.segments.take(v.seg as int))
        }),
{
}

impl PrefetchRun {
    /// A sequential run over a whole file of `file_size` bytes: one segment
    /// named "sequential", with the budget read before every chunk.
    pub fn sequential(file_size: u64, chunk_size: u64) -> (r: Self)
        requires
            chunk_size > 0,
        ensures
            run_wf(r@),
            r@.segments.len() == 1,
            r@.segments[0].name@ == "sequential"@,
            r@.segments[0].offset == 0,
            r@.segments[0].length == file_size,
            r@.check_each_chunk,
            r@.chunk_size == chunk_size,
            r@.seg == 0,
            !r@.started,
            !r@.finished,
            !r@.budget_limited,
            r@.progress == (TrackerView {
                bytes_advised: 0,
                total_bytes: file_size,
                layers_completed: 0,
                total_layers: 1,
                current_layer: Seq::empty(),
            }),
    {
        let whole = Segment {
            name: String::from_str("sequential"),
            offset: 0,
            length: file_size,
            priority: 0,
        };
        let mut segments: Vec<Segment> = Vec::new();
        segments.push(whole);
        let r = PrefetchRun {
            segments,
            check_each_chunk: true,
            chunk_size,
            seg: 0,
            pos: 0,
            started: false,
            finished: false,
            budget_limited: false,
            tracker: ProgressTracker::new(file_size, 1),
            chunks: Ghost(0),
            seg_chunks: Ghost(0),
        };
        proof {
            assert(r@.segments.take(0) =~= Seq::<Segment>::empty());
            assert(r@.segments.drop_last() =~= Seq::<Segment>::empty());
            assert(total_length(r@.segments.drop_last()) == 0);
            assert(total_length(r@.segments) == file_size);
        }
        r
    }

    /// A structure-aware run over the given segments, in the given order,
    /// with the budget read as each segment begins.
    pub fn structured(selected: &Vec<&Segment>, chunk_size: u64) -> (r: Self)
        requires
            chunk_size > 0,
            segments_fit(selected@.map_values(|s: &Segment| *s)),
        ensures
            run_wf(r@),
            r@.segments == selected@.map_values(|s: &Segment| *s),
            !r@.check_each_chunk,
            r@.chunk_size == chunk_size,
            r@.seg == 0,
            !r@.started,
            !r@.finished,
            !r@.budget_limited,
            r@.progress == (TrackerView {
                bytes_advised: 0,
                total_bytes: total_length(r@.segments) as u64,
                layers_completed: 0,
                total_layers: selected@.len() as usize,
                current_layer: Seq::empty(),
            }),
    {
        let ghost want = selected@.map_values(|s: &Segment| *s);
        let mut segments: Vec<Segment> = Vec::new();
        let mut total: u64 = 0;
        let mut i: usize = 0;
        while i < selected.len()
            invariant
                i <= selected@.len(),
                want == selected@.map_values(|s: &Segment| *s),
                segments_fit(want),
                segments@ == want.take(i as int),
                total == total_length(want.take(i as int)),
            decreases selected@.len() - i,
        {
            let s = selected[i];
            proof {
                lemma_total_length_step(want, i as int);
                lemma_total_length_prefix(want, i + 1);
            }
            segments.push(
                Segment { name: s.name.clone(), offset: s.offset, length: s.length, priority: s.priority },
            );
            total = total + s.length;
            i += 1;
            proof {
                assert(segments@ =~= want.take(i as int));
            }
        }
        proof {
            assert(want.take(i as int) =~= want);
            assert(segments@.take(0) =~= Seq::<Segment>::empty());
        }
        PrefetchRun {
            segments,
            check_each_chunk: false,
            chunk_size,
            seg: 0,
            pos: 0,
            started: false,
            finished: false,
            budget_limited: false,
            tracker: ProgressTracker::new(total, selected.len()),
            chunks: Ghost(0),
            seg_chunks: Ghost(0),
        }
    }

    /// Where the next step reads the memory budget, and with how many bytes
    /// advised; `None` where it does not read it.
    pub fn budget_check(&self) -> (r: Option<u64>)
        requires
            run_wf(self@),
        ensures
            r == budget_check_at(self@),
    {
        if self.finished || self.seg >= self.segments.len() {
            return None;
        }
        let reads = if self.started {
            let s = &self.segments[self.seg];
            self.pos < s.offset + s.length && self.check_each_chunk
        } else {
            !self.check_each_chunk
        };
        if reads {
            Some(self.tracker.bytes_advised())
        } else {
            None
        }
    }

    /// Take one step, given the budget's answer where the step reads it.
    pub fn step(&mut self, budget_ok: bool) -> (a: RunAction)
        requires
            run_wf(old(self)@),
        ensures
            (final(self)@, a) == run_step(old(self)@, budget_ok),
            run_wf(final(self)@),
    {
        proof {
            lemma_run_step_progress(self@, budget_ok);
            lemma_total_length_prefix(self@.segments, self.seg as int);
            if self.seg < self.segments@.len() {
                lemma_total_length_step(self@.segments, self.seg as int);
                lemma_total_length_prefix(self@.segments, self.seg + 1);
                assert(seg_end(self@.segments[self.seg as int]) <= u64::MAX);
            }
        }
        if self.finished {
            return RunAction::Finished;
        }
        if self.seg >= self.segments.len() {
            self.finished = true;
            return RunAction::Finished;
        }
        let offset = self.segments[self.seg].offset;
        let end = offset + self.segments[self.seg].length;
        if !self.started {
            let name = self.segments[self.seg].name.clone();
            self.tracker.set_current_layer(name);
            self.started = true;
            self.pos = offset;
            if !self.check_each_chunk && !budget_ok {
                self.finished = true;
                self.budget_limited = true;
                return RunAction::Finished;
            }
            return RunAction::Begin;
        }
        if self.pos < end {
            if self.check_each_chunk && !budget_ok {
                self.tracker.complete_layer();
                self.finished = true;
                self.budget_limited = true;
                return RunAction::Finished;
            }
            let left = end - self.pos;
            let len = if self.chunk_size < left {
                self.chunk_size
            } else {
                left
            };
            let at = self.pos;
            self.pos = self.pos + len;
            self.tracker.add_bytes(len);
            self.chunks = Ghost(self.chunks@ + 1);
            self.seg_chunks = Ghost(self.seg_chunks@ + 1);
            return RunAction::Advise { offset: at, length: len };
        }
        self.tracker.complete_layer();
        self.seg = self.seg + 1;
        self.started = false;
        self.seg_chunks = Ghost(0);
        RunAction::Complete
    }

    /// Take one step, reading the memory budget where the step needs it.
    /// A forced budget never stops the run; a byte budget that has been
    /// reached always does.
    pub fn advance(&mut self, budget: &MemoryBudget) -> (a: RunAction)
        requires
            run_wf(old(self)@),
        ensures
            run_wf(final(self)@),
            match budget_check_at(old(self)@) {
                None => (final(self)@, a) == run_step(old(self)@, true),
                Some(b) => exists|available: u64, free: u64|
                    (final(self)@, a) == run_step(
                        old(self)@,
                        #[trigger] spec_should_continue(*budget, b, available, free),
                    ),
            },
            budget.force ==> (final(self)@, a) == run_step(old(self)@, true),
            budget_check_at(old(self)@) matches Some(b) ==> (budget.max_bytes matches Some(m) ==> (
            !budget.force && b >= m ==> (final(self)@, a) == run_step(old(self)@, false))),
    {
        let ghost before = self@;
        let ok = match self.budget_check() {
            Some(bytes) => budget.should_continue(bytes),
            None => true,
        };
        proof {
            lemma_run_step_progress(self@, ok);
        }
        let a = self.step(ok);
        proof {
            if let Some(b) = budget_check_at(before) {
                let (av, fr) = choose|av: u64, fr: u64| ok == #[trigger] spec_should_continue(*budget, b, av, fr);
                assert((self@, a) == run_step(before, spec_should_continue(*budget, b, av, fr)));
            }
        }
        a
    }

    /// Whether the run is over.
    pub fn is_finished(&self) -> (r: bool)
        ensures
            r == self@.finished,
    {
        self.finished
    }

    /// Whether the memory budget stopped the run.
    pub fn is_budget_limited(&self) -> (r: bool)
        ensures
            r == self@.budget_limited,
    {
        self.budget_limited
    }

    /// The progress so far.
    pub fn progress(&self) -> (r: PrefetchProgress)
        ensures
            r.current_layer@ == self@.progress.current_layer,
            r.bytes_advised == self@.progress.bytes_advised,
            r.total_bytes == self@.progress.total_bytes,
            r.layers_completed == self@.progress.layers_completed,
            r.total_layers == self@.progress.total_layers,
    {
        self.tracker.snapshot()
    }

    /// The result of the run, with the cache status read after it.
    pub fn finish(self, cache_status: CacheStatus) -> (r: PrefetchResult)
        ensures
            r.budget_limited == self@.budget_limited,
            r.progress.current_layer@ == self@.progress.current_layer,
            r.progress.bytes_advised == self@.progress.bytes_advised,
            r.progress.total_bytes == self@.progress.total_bytes,
            r.progress.layers_completed == self@.progress.layers_completed,
            r.progress.total_layers == self@.progress.total_layers,
            r.cache_status == cache_status,
    {
        PrefetchResult {
            progress: self.tracker.snapshot(),
            cache_status,
            budget_limited: self.budget_limited,
        }
    }
}

/// `v` is a run that has not started, over `segments`.
pub open spec fn fresh_run(v: RunView, segments: Seq<Segment>, check_each_chunk: bool, chunk_size: u64) -> bool {
    &&& run_wf(v)
    &&& v.segments == segments
    &&& v.check_each_chunk == check_each_chunk
    &&& v.chunk_size == chunk_size
    &&& v.seg == 0
    &&& !v.started
    &&& !v.finished
    &&& !v.budget_limited
    &&& v.progress.bytes_advised == 0
    &&& v.chunks == 0
    &&& v.progress.layers_completed == 0
    &&& v.progress.total_layers == segments.len()
}

/// The segments of `layout` in stable priority order `p`, cut to `count`.
pub open spec fn selected_by(layout: FileLayout, p: Seq<usize>, count: nat) -> Seq<Segment> {
    Seq::new(count, |i: int| layout.segments@[p[i] as int])
}

/// Whether every selected segment ends within `u64`, and so does their total.
fn selection_fits(selected: &Vec<&Segment>) -> (r: bool)
    ensures
        r == segments_fit(selected@.map_values(|s: &Segment| *s)),
{
    let ghost want = selected@.map_values(|s: &Segment| *s);
    let mut total: u64 = 0;
    let mut i: usize = 0;
    while i < selected.len()
        invariant
            i <= selected@.len(),
            want == selected@.map_values(|s: &Segment| *s),
            total == total_length(want.take(i as int)),
            forall|j: int| 0 <= j < i ==> #[trigger] seg_end(want[j]) <= u64::MAX,
        decreases selected@.len() - i,
    {
        let s = selected[i];
        proof {
            lemma_total_length_step(want, i as int);
            lemma_total_length_prefix(want, i + 1);
        }
        if s.offset > u64::MAX - s.length {
            assert(seg_end(want[i as int]) > u64::MAX);
            return false;
        }
        if total > u64::MAX - s.length {
            assert(total_length(want.take(i + 1)) > u64::MAX);
            return false;
        }
        total = total + s.length;
        i += 1;
    }
    proof {
        assert(want.take(i as int) =~= want);
    }
    true
}

/// The run a strategy makes of a file of `file_size` bytes: sequential for
/// `Sequential`, and where no provider gave a layout; otherwise
/// structure-aware over the segments the strategy selects from the layout.
/// `None` where those segments, or their total, reach beyond `u64`.
pub fn plan_run(strategy: PrefetchStrategy, layout: Option<&FileLayout>, file_size: u64, chunk_size: u64) -> (r:
    Option<PrefetchRun>)
    requires
        chunk_size > 0,
    ensures
        (strategy is Sequential || layout is None) ==> (r matches Some(run) && run@.segments.len() == 1
            && run@.segments[0].name@ == "sequential"@ && run@.segments[0].offset == 0
            && run@.segments[0].length == file_size && fresh_run(run@, run@.segments, true, chunk_size)),
        layout matches Some(l) ==> (strategy is Sequential || exists|p: Seq<usize>|
            is_stable_order(priority_keys(l.segments@), p) && match r {
                Some(run) => fresh_run(
                    run@,
                    selected_by(*l, p, selected_count(strategy, l.segments@.len())),
                    false,
                    chunk_size,
                ),
                None => !segments_fit(selected_by(*l, p, selected_count(strategy, l.segments@.len()))),
            }),
{
    match layout {
        Some(l) => {
            if let PrefetchStrategy::Sequential = strategy {
                return Some(PrefetchRun::sequential(file_size, chunk_size));
            }
            let selected = select_segments(l, strategy);
            let ghost sel = selected@.map_values(|s: &Segment| *s);
            proof {
                let p = choose|p: Seq<usize>|
                    is_stable_order(priority_keys(l.segments@), p) && forall|i: int|
                        0 <= i < selected@.len() ==> *selected@[i] == l.segments@[#[trigger] p[i] as int];
                assert(sel =~= selected_by(*l, p, selected_count(strategy, l.segments@.len())));
            }
            if selection_fits(&selected) {
                Some(PrefetchRun::structured(&selected, chunk_size))
            } else {
                None
            }
        },
        None => Some(PrefetchRun::sequential(file_size, chunk_size)),
    }
}

} // verus!
