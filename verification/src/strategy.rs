//! Prefetch strategies and the memory budget.
use vstd::prelude::*;
use sysinfo::System;
use crate::text::{chars_eq_str, chars_of, decimal_string, spec_decimal};

verus! {

/// How to order the prefetching of a file's segments.
#[derive(Debug, Clone, Copy, PartialEq, Eq, Structural)]
pub enum PrefetchStrategy {
    /// Load in inference execution order (segments by priority).
    InferenceOrder,
    /// Load only the first N segments in priority order (for memory
    /// constrained systems).
    FirstNLayers(u32),
    /// Load the entire file sequentially from start to end.
    Sequential,
}

/// A strategy name that is not one of the known ones.
#[derive(Debug)]
pub struct StrategyError {
    pub strategy: String,
}

/// The name of a strategy, as the command line and logs write it.
pub open spec fn spec_strategy_name(s: PrefetchStrategy) -> Seq<char> {
    match s {
        PrefetchStrategy::InferenceOrder => "inference-order"@,
        PrefetchStrategy::FirstNLayers(n) => "first-"@ + spec_decimal(n as nat) + "-layers"@,
        PrefetchStrategy::Sequential => "sequential"@,
    }
}

impl PrefetchStrategy {
    /// Parse from a command-line name: `inference-order`, `sequential`, or
    /// `first-n-layers` (with `layers` blocks, 8 by default).
    pub fn from_str_with_layers(s: &str, layers: Option<u32>) -> (r: Result<Self, StrategyError>)
        ensures
            s@ == "inference-order"@ ==> r matches Ok(PrefetchStrategy::InferenceOrder),
            s@ == "sequential"@ ==> r matches Ok(PrefetchStrategy::Sequential),
            s@ == "first-n-layers"@ ==> (r matches Ok(PrefetchStrategy::FirstNLayers(n)) && n
                == match layers {
                Some(l) => l,
                None => 8,
            }),
            !(s@ == "inference-order"@ || s@ == "sequential"@ || s@ == "first-n-layers"@) ==> (r matches Err(
                e,
            ) && e.strategy@ == s@),
    {
        let v = chars_of(s);
        proof {
            reveal_strlit("inference-order");
            reveal_strlit("sequential");
            reveal_strlit("first-n-layers");
            assert("inference-order"@.len() != "sequential"@.len());
            assert("inference-order"@.len() != "first-n-layers"@.len());
            assert("sequential"@.len() != "first-n-layers"@.len());
        }
        if chars_eq_str(&v, "inference-order") {
            Ok(PrefetchStrategy::InferenceOrder)
        } else if chars_eq_str(&v, "sequential") {
            Ok(PrefetchStrategy::Sequential)
        } else if chars_eq_str(&v, "first-n-layers") {
            let n = match layers {
                Some(l) => l,
                None => 8,
            };
            Ok(PrefetchStrategy::FirstNLayers(n))
        } else {
            Err(StrategyError { strategy: s.to_owned() })
        }
    }

    /// The strategy's name: `inference-order`, `first-N-layers` or `sequential`.
    pub fn to_string(&self) -> (r: String)
        ensures
            r@ == spec_strategy_name(*self),
    {
        match self {
            PrefetchStrategy::InferenceOrder => "inference-order".to_owned(),
            PrefetchStrategy::FirstNLayers(n) => {
                let mut s = "first-".to_owned();
                let d = decimal_string(*n as u64);
                s.append(d.as_str());
                s.append("-layers");
                s
            },
            PrefetchStrategy::Sequential => "sequential".to_owned(),
        }
    }
}

/// Memory budget constraints for prefetching.
pub struct MemoryBudget {
    /// Maximum bytes to attempt to warm into cache (`None`: the whole file).
    pub max_bytes: Option<u64>,
    /// Minimum free system RAM (in bytes) to maintain.
    pub min_free_ram: u64,
    /// Skip all budget checks.
    pub force: bool,
}

impl Default for MemoryBudget {
    fn default() -> (r: Self)
        ensures
            r.max_bytes is None,
            r.min_free_ram == 2 * 1024 * 1024 * 1024,
            !r.force,
    {
        MemoryBudget { max_bytes: None, min_free_ram: 2 * 1024 * 1024 * 1024, force: false }
    }
}

/// Whether to go on prefetching after `bytes_warmed` bytes, given the
/// system's available and free memory.
pub open spec fn spec_should_continue(b: MemoryBudget, bytes_warmed: u64, available: u64, free: u64) -> bool {
    if b.force {
        true
    } else if b.max_bytes matches Some(max) && bytes_warmed >= max {
        false
    } else {
        let usable = if available > 0 { available } else { free };
        usable == 0 || usable >= b.min_free_ram
    }
}

/// The budget decision over raw memory readings: a forced budget always
/// goes on; a reached byte cap stops; otherwise the available memory
/// decides whenever it reads non-zero (go on exactly when it is at least
/// the minimum), and only where it reads zero does the free memory decide
/// in its place (go on when it also reads zero, as nothing is known, or
/// when it is at least the minimum).
pub proof fn lemma_budget_decision(b: MemoryBudget, bytes_warmed: u64, available: u64, free: u64)
    ensures
        b.force ==> spec_should_continue(b, bytes_warmed, available, free),
        !b.force && (b.max_bytes matches Some(max) && bytes_warmed >= max) ==> !spec_should_continue(
            b,
            bytes_warmed,
            available,
            free,
        ),
        !b.force && !(b.max_bytes matches Some(max) && bytes_warmed >= max) && available > 0
            ==> (spec_should_continue(b, bytes_warmed, available, free) <==> available >= b.min_free_ram),
        !b.force && !(b.max_bytes matches Some(max) && bytes_warmed >= max) && available == 0
            ==> (spec_should_continue(b, bytes_warmed, available, free) <==> (free == 0 || free
            >= b.min_free_ram)),
        !b.force && available > 0 ==> forall|other_free: u64|
            #[trigger] spec_should_continue(b, bytes_warmed, available, other_free)
                == spec_should_continue(b, bytes_warmed, available, free),
{
}

/// The system information handle of the `sysinfo` crate.
#[verifier::external_type_specification]
#[verifier::external_body]
pub struct ExSystem(sysinfo::System);

/// `sysinfo::System::new`: a handle with nothing loaded. Nothing is claimed of it.
pub assume_specification[ System::new ]() -> (r: System);

/// `sysinfo::System::refresh_memory`: reloads the memory figures. Nothing is claimed of them.
pub assume_specification[ System::refresh_memory ](s: &mut System);

/// `sysinfo::System::available_memory`: RAM available for (re)use, in bytes;
/// it depends on the machine's state, so nothing is claimed of it.
pub assume_specification[ System::available_memory ](s: &System) -> (r: u64);

/// `sysinfo::System::free_memory`: unallocated RAM, in bytes; it depends on
/// the machine's state, so nothing is claimed of it.
pub assume_specification[ System::free_memory ](s: &System) -> (r: u64);

impl MemoryBudget {
    /// The budget decision for given memory readings: forced budgets always
    /// continue; a reached byte budget stops; otherwise continue unless the
    /// usable memory (available, or free where available reads 0) is known
    /// and below the minimum.
    pub fn should_continue_with(&self, bytes_warmed: u64, available: u64, free: u64) -> (r: bool)
        ensures
            r == spec_should_continue(*self, bytes_warmed, available, free),
            self.force ==> r,
            !self.force && (self.max_bytes matches Some(max) && bytes_warmed >= max) ==> !r,
            !self.force && !(self.max_bytes matches Some(max) && bytes_warmed >= max) ==> (r <==> (
            available >= self.min_free_ram || (available == 0 && (free == 0 || free
                >= self.min_free_ram)))),
    {
        proof {
            lemma_budget_decision(*self, bytes_warmed, available, free);
        }
        if self.force {
            return true;
        }
        if let Some(max) = self.max_bytes {
            if bytes_warmed >= max {
                return false;
            }
        }
        let usable = if available > 0 {
            available
        } else {
            free
        };
        if usable == 0 {
            return true;
        }
        usable >= self.min_free_ram
    }

    /// Check whether to continue prefetching, reading the system's current
    /// memory: the decision of `should_continue_with` on those readings.
    pub fn should_continue(&self, bytes_warmed: u64) -> (r: bool)
        ensures
            exists|available: u64, free: u64|
                r == #[trigger] spec_should_continue(*self, bytes_warmed, available, free),
            self.force ==> r,
            !self.force && (self.max_bytes matches Some(max) && bytes_warmed >= max) ==> !r,
    {
        if self.force {
            assert(spec_should_continue(*self, bytes_warmed, 0, 0));
            return true;
        }
        if let Some(max) = self.max_bytes {
            if bytes_warmed >= max {
                assert(!spec_should_continue(*self, bytes_warmed, 0, 0));
                return false;
            }
        }
        let mut sys = System::new();
        sys.refresh_memory();
        let available = sys.available_memory();
        let free = sys.free_memory();
        let r = self.should_continue_with(bytes_warmed, available, free);
        assert(r == spec_should_continue(*self, bytes_warmed, available, free));
        r
    }
}

} // verus!
