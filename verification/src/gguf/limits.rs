//! Safety limits that keep a malicious file from exhausting resources.
use vstd::prelude::*;

verus! {

/// Maximum number of tensors allowed in a GGUF file.
pub const MAX_TENSOR_COUNT: u64 = 100_000;

/// Maximum number of metadata key-value pairs.
pub const MAX_METADATA_KV_COUNT: u64 = 100_000;

/// Maximum number of dimensions per tensor.
pub const MAX_TENSOR_DIMS: u32 = 16;

/// Maximum string length (1 MiB).
pub const MAX_STRING_LENGTH: u64 = 1048576;

/// Maximum array length in metadata values.
pub const MAX_ARRAY_LENGTH: u64 = 10_000_000;

} // verus!
