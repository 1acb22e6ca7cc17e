//! Lightweight GGUF file format parser.
//!
//! Parses only headers, metadata, and tensor info; tensor data is never read.
//! The parser works on the bytes of the file (typically a memory map of it).
pub mod header;
pub mod layout;
pub mod limits;
pub mod metadata;
pub mod properties;
pub mod tensor_info;
pub mod types;

use vstd::prelude::*;
use crate::gguf::header::{read_header, spec_read_header};
use crate::gguf::layout::{build_layout, layout_overflows, ModelLayout};
use crate::gguf::limits::{MAX_METADATA_KV_COUNT, MAX_TENSOR_COUNT};
use crate::gguf::metadata::{read_metadata, spec_as_u64, spec_read_metadata, MetaView};
use crate::gguf::tensor_info::{read_tensor_infos, spec_read_tensor_infos, TensorView};

verus! {

/// Errors produced while parsing a GGUF file.
#[derive(Debug, PartialEq, Eq)]
pub enum GgufError {
    Io(String),
    InvalidMagic(u32),
    UnsupportedVersion(u32),
    InvalidValueType(u32),
    InvalidGGMLType(u32),
    UnexpectedEof,
    StringTooLong(u64),
    TooManyTensors(u64),
    TooManyMetadataKVs(u64),
    TooManyDimensions(u32),
    ArrayTooLong(u64),
    IntegerOverflow,
}

/// `offset` rounded up to a multiple of `alignment` (unchanged for alignment 0).
pub open spec fn spec_align(offset: u64, alignment: u64) -> int {
    if alignment == 0 {
        offset as int
    } else {
        (offset + alignment - 1) / (alignment as int) * alignment
    }
}

/// Align an offset up to the given alignment boundary.
pub fn align_offset(offset: u64, alignment: u64) -> (r: u64)
    requires
        alignment == 0 || offset + alignment - 1 <= u64::MAX,
    ensures
        r == spec_align(offset, alignment),
        offset <= r,
        alignment > 0 ==> r % alignment == 0 && r - offset < alignment,
{
    if alignment == 0 {
        return offset;
    }
    let x = offset + (alignment - 1);
    proof {
        let q = (x as int) / (alignment as int);
        assert(q * alignment <= x && x - q * alignment < alignment) by (nonlinear_arith)
            requires
                alignment > 0,
                q == (x as int) / (alignment as int),
                x >= 0,
        ;
        assert((q * alignment) % (alignment as int) == 0) by (nonlinear_arith)
            requires
                alignment > 0,
                q >= 0,
        ;
    }
    x / alignment * alignment
}

/// The tensor data alignment: `general.alignment` as an unsigned integer, 32 otherwise.
pub open spec fn spec_alignment(m: Map<Seq<char>, MetaView>) -> u64 {
    if m.contains_key("general.alignment"@) {
        match spec_as_u64(m["general.alignment"@]) {
            Some(a) => a,
            None => 32,
        }
    } else {
        32
    }
}

/// What a GGUF file holds: its tensor descriptors, the offset of the tensor
/// data, and its metadata; or the error that parsing it meets first.
pub open spec fn spec_parse_gguf(s: Seq<u8>) -> Result<
    (Seq<TensorView>, u64, Map<Seq<char>, MetaView>),
    GgufError,
> {
    match spec_read_header(s) {
        Err(e) => Err(e),
        Ok(h) => if h.tensor_count > MAX_TENSOR_COUNT {
            Err(GgufError::TooManyTensors(h.tensor_count))
        } else if h.metadata_kv_count > MAX_METADATA_KV_COUNT {
            Err(GgufError::TooManyMetadataKVs(h.metadata_kv_count))
        } else {
            match spec_read_metadata(s.skip(24), h.metadata_kv_count as nat) {
                Err(e) => Err(e),
                Ok((m, n1)) => match spec_read_tensor_infos(
                    s.skip((24 + n1) as int),
                    h.tensor_count as nat,
                ) {
                    Err(e) => Err(e),
                    Ok((ts, n2)) => {
                        let pos = 24 + n1 + n2;
                        let a = spec_alignment(m);
                        if a > 0 && pos + a - 1 > u64::MAX {
                            Err(GgufError::IntegerOverflow)
                        } else if layout_overflows(ts, spec_align(pos as u64, a) as u64) {
                            Err(GgufError::IntegerOverflow)
                        } else {
                            Ok((ts, spec_align(pos as u64, a) as u64, m))
                        }
                    },
                },
            }
        },
    }
}

/// Parse the bytes of a GGUF file of `file_size` bytes into its model layout.
///
/// Reads only the header, metadata, and tensor info sections; tensor data
/// is never touched. Where aligning the data offset or computing the layer
/// groups' byte ranges would overflow `u64`, the result is `IntegerOverflow`.
pub fn parse_gguf(data: &[u8], file_size: u64) -> (r: Result<ModelLayout, GgufError>)
    ensures
        match spec_parse_gguf(data@) {
            Ok((ts, tdo, m)) => r matches Ok(l) && l.is_layout_of(ts, tdo, file_size, m),
            Err(e) => r matches Err(e2) && e2 == e,
        },
{
    let header = read_header(data)?;
    if header.tensor_count > MAX_TENSOR_COUNT {
        return Err(GgufError::TooManyTensors(header.tensor_count));
    }
    if header.metadata_kv_count > MAX_METADATA_KV_COUNT {
        return Err(GgufError::TooManyMetadataKVs(header.metadata_kv_count));
    }
    proof {
        assert(data@.len() >= 24);
    }
    let (metadata, p1) = read_metadata(data, 24, header.metadata_kv_count)?;
    let alignment: u64 = match metadata.get("general.alignment") {
        Some(v) => match v.as_u64() {
            Some(a) => a,
            None => 32,
        },
        None => 32,
    };
    proof {
        assert(data@.skip(p1 as int) =~= data@.skip(24 + (p1 - 24)));
    }
    let (tensors, p2) = read_tensor_infos(data, p1, header.tensor_count)?;
    let pos = p2 as u64;
    if alignment > 0 && pos > u64::MAX - (alignment - 1) {
        return Err(GgufError::IntegerOverflow);
    }
    let tensor_data_offset = align_offset(pos, alignment);
    build_layout(tensors, tensor_data_offset, file_size, metadata)
}

} // verus!
