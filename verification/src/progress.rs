//! Progress of a prefetch operation.
use vstd::prelude::*;
use std::time::{Duration, Instant};

verus! {

/// Progress update during a prefetch operation.
pub struct PrefetchProgress {
    /// Current layer being prefetched.
    pub current_layer: String,
    /// Bytes advised so far.
    pub bytes_advised: u64,
    /// Total bytes to advise.
    pub total_bytes: u64,
    /// Number of layer groups completed.
    pub layers_completed: usize,
    /// Total number of layer groups.
    pub total_layers: usize,
    /// Elapsed time since prefetch started.
    pub elapsed: Duration,
}

/// A point in time of the monotonic clock.
#[verifier::external_type_specification]
#[verifier::external_body]
pub struct ExInstant(Instant);

/// `std::time::Instant::now`: the current time; nothing is claimed of it.
pub assume_specification[ Instant::now ]() -> (r: Instant);

/// `std::time::Instant::elapsed`: the time since the instant; nothing is
/// claimed of it.
pub assume_specification[ Instant::elapsed ](i: &Instant) -> (r: Duration);

/// What a tracker has counted.
pub struct TrackerView {
    pub bytes_advised: u64,
    pub total_bytes: u64,
    pub layers_completed: usize,
    pub total_layers: usize,
    pub current_layer: Seq<char>,
}

/// Tracks prefetch progress over time.
pub struct ProgressTracker {
    start: Instant,
    bytes_advised: u64,
    total_bytes: u64,
    layers_completed: usize,
    total_layers: usize,
    current_layer: String,
}

impl View for ProgressTracker {
    type V = TrackerView;

    closed spec fn view(&self) -> TrackerView {
        TrackerView {
            bytes_advised: self.bytes_advised,
            total_bytes: self.total_bytes,
            layers_completed: self.layers_completed,
            total_layers: self.total_layers,
            current_layer: self.current_layer@,
        }
    }
}

impl ProgressTracker {
    /// A tracker started now, with nothing advised yet.
    pub fn new(total_bytes: u64, total_layers: usize) -> (r: Self)
        ensures
            r@ == (TrackerView {
                bytes_advised: 0,
                total_bytes,
                layers_completed: 0,
                total_layers,
                current_layer: Seq::empty(),
            }),
    {
        ProgressTracker {
            start: Instant::now(),
            bytes_advised: 0,
            total_bytes,
            layers_completed: 0,
            total_layers,
            current_layer: String::new(),
        }
    }

    /// The bytes advised so far.
    pub fn bytes_advised(&self) -> (r: u64)
        ensures
            r == self@.bytes_advised,
    {
        self.bytes_advised
    }

    pub fn set_current_layer(&mut self, name: String)
        ensures
            final(self)@ == (TrackerView { current_layer: name@, ..old(self)@ }),
    {
        self.current_layer = name;
    }

    pub fn add_bytes(&mut self, bytes: u64)
        requires
            old(self)@.bytes_advised + bytes <= u64::MAX,
        ensures
            final(self)@ == (TrackerView {
                bytes_advised: (old(self)@.bytes_advised + bytes) as u64,
                ..old(self)@
            }),
    {
        self.bytes_advised += bytes;
    }

    pub fn complete_layer(&mut self)
        requires
            old(self)@.layers_completed < usize::MAX,
        ensures
            final(self)@ == (TrackerView {
                layers_completed: (old(self)@.layers_completed + 1) as usize,
                ..old(self)@
            }),
    {
        self.layers_completed += 1;
    }

    /// The progress so far, with the time elapsed since the tracker started.
    pub fn snapshot(&self) -> (r: PrefetchProgress)
        ensures
            r.current_layer@ == self@.current_layer,
            r.bytes_advised == self@.bytes_advised,
            r.total_bytes == self@.total_bytes,
            r.layers_completed == self@.layers_completed,
            r.total_layers == self@.total_layers,
    {
        PrefetchProgress {
            current_layer: self.current_layer.clone(),
            bytes_advised: self.bytes_advised,
            total_bytes: self.total_bytes,
            layers_completed: self.layers_completed,
            total_layers: self.total_layers,
            elapsed: self.start.elapsed(),
        }
    }
}

} // verus!
