//! The GGUF header and the little-endian primitive readers.
//!
//! Every reader takes the file bytes and a position, and returns the value
//! read and the position just past it. Its contract is given by a spec
//! function over the remaining bytes (`data@.skip(pos)`) that returns the
//! value and the number of bytes consumed.
use vstd::prelude::*;
use vstd::utf8::*;
use crate::gguf::GgufError;
use crate::gguf::limits::MAX_STRING_LENGTH;

verus! {

/// The GGUF magic number: "GGUF" read as a little-endian u32.
pub const GGUF_MAGIC: u32 = 0x46554747;

/// The GGUF file header.
#[derive(Debug, Clone, Copy, PartialEq, Eq, Structural)]
pub struct GgufHeader {
    pub version: u32,
    pub tensor_count: u64,
    pub metadata_kv_count: u64,
}

/// A spec-level read result: the value and the number of bytes consumed.
pub type SpecRead<T> = Result<(T, nat), GgufError>;

/// An exec-level read result: the value and the position after it.
pub type Read<T> = Result<(T, usize), GgufError>;

/// Moves a spec-level read result to absolute positions starting at `pos`.
pub open spec fn at<T>(r: SpecRead<T>, pos: usize) -> Read<T> {
    match r {
        Ok((v, n)) => Ok((v, (pos + n) as usize)),
        Err(e) => Err(e),
    }
}

/// The result of a read from `data` at `pos`: as the spec says, and the
/// new position stays within the data.
pub open spec fn read_matches<T>(data: Seq<u8>, pos: usize, spec: SpecRead<T>, r: Read<T>) -> bool {
    &&& r == at(spec, pos)
    &&& (spec matches Ok((_, n)) ==> pos + n <= data.len())
}

pub open spec fn le_u16(s: Seq<u8>) -> int {
    s[0] + 256 * s[1]
}

pub open spec fn le_u32(s: Seq<u8>) -> int {
    s[0] + 256 * s[1] + 65536 * s[2] + 16777216 * s[3]
}

pub open spec fn le_u64(s: Seq<u8>) -> int {
    le_u32(s) + 4294967296 * le_u32(s.skip(4))
}

/// Two's complement reinterpretation of 8, 16, 32 and 64 bits.
pub open spec fn to_i8(v: u8) -> i8 {
    if v < 128 { v as i8 } else { (v - 256) as i8 }
}

pub open spec fn to_i16(v: u16) -> i16 {
    if v < 32768 { v as i16 } else { (v - 65536) as i16 }
}

pub open spec fn to_i32(v: u32) -> i32 {
    if v < 0x8000_0000 { v as i32 } else { (v - 0x1_0000_0000) as i32 }
}

pub open spec fn to_i64(v: u64) -> i64 {
    if v < 0x8000_0000_0000_0000 { v as i64 } else { (v - 0x1_0000_0000_0000_0000) as i64 }
}

pub open spec fn spec_read_u8(s: Seq<u8>) -> SpecRead<u8> {
    if s.len() >= 1 { Ok((s[0], 1)) } else { Err(GgufError::UnexpectedEof) }
}

pub open spec fn spec_read_u16(s: Seq<u8>) -> SpecRead<u16> {
    if s.len() >= 2 { Ok((le_u16(s) as u16, 2)) } else { Err(GgufError::UnexpectedEof) }
}

pub open spec fn spec_read_u32(s: Seq<u8>) -> SpecRead<u32> {
    if s.len() >= 4 { Ok((le_u32(s) as u32, 4)) } else { Err(GgufError::UnexpectedEof) }
}

pub open spec fn spec_read_u64(s: Seq<u8>) -> SpecRead<u64> {
    if s.len() >= 8 { Ok((le_u64(s) as u64, 8)) } else { Err(GgufError::UnexpectedEof) }
}

pub open spec fn spec_read_i32(s: Seq<u8>) -> SpecRead<i32> {
    match spec_read_u32(s) {
        Ok((v, n)) => Ok((to_i32(v), n)),
        Err(e) => Err(e),
    }
}

pub open spec fn spec_read_i64(s: Seq<u8>) -> SpecRead<i64> {
    match spec_read_u64(s) {
        Ok((v, n)) => Ok((to_i64(v), n)),
        Err(e) => Err(e),
    }
}

pub open spec fn spec_read_bool(s: Seq<u8>) -> SpecRead<bool> {
    match spec_read_u8(s) {
        Ok((v, n)) => Ok((v != 0, n)),
        Err(e) => Err(e),
    }
}

/// What `String::from_utf8_lossy` makes of a byte sequence.
pub uninterp spec fn utf8_lossy(bytes: Seq<u8>) -> Seq<char>;

/// The characters of a GGUF string's bytes: their plain decoding where they
/// are valid UTF-8, and otherwise the lossy one, with invalid sequences
/// replaced by U+FFFD.
#[verifier::opaque]
pub open spec fn decoded(bytes: Seq<u8>) -> Seq<char> {
    if valid_utf8(bytes) {
        decode_utf8(bytes)
    } else {
        utf8_lossy(bytes)
    }
}

/// A GGUF string: a u64 length, then that many bytes, decoded lossily as UTF-8.
pub open spec fn spec_read_string(s: Seq<u8>) -> SpecRead<Seq<char>> {
    match spec_read_u64(s) {
        Err(e) => Err(e),
        Ok((len, _)) => if len > MAX_STRING_LENGTH {
            Err(GgufError::StringTooLong(len))
        } else if s.len() < 8 + len {
            Err(GgufError::UnexpectedEof)
        } else {
            Ok((decoded(s.subrange(8, 8 + len)), (8 + len) as nat))
        },
    }
}

/// The header at the start of a GGUF file.
pub open spec fn spec_read_header(s: Seq<u8>) -> Result<GgufHeader, GgufError> {
    match spec_read_u32(s) {
        Err(e) => Err(e),
        Ok((magic, _)) => if magic != GGUF_MAGIC {
            Err(GgufError::InvalidMagic(magic))
        } else {
            match spec_read_u32(s.skip(4)) {
                Err(e) => Err(e),
                Ok((version, _)) => if !(version == 2 || version == 3) {
                    Err(GgufError::UnsupportedVersion(version))
                } else {
                    match spec_read_u64(s.skip(8)) {
                        Err(e) => Err(e),
                        Ok((tensor_count, _)) => match spec_read_u64(s.skip(16)) {
                            Err(e) => Err(e),
                            Ok((metadata_kv_count, _)) => Ok(
                                GgufHeader { version, tensor_count, metadata_kv_count },
                            ),
                        },
                    }
                },
            }
        },
    }
}

/// Decodes bytes as UTF-8, replacing invalid sequences with U+FFFD.
///
/// Calls `String::from_utf8_lossy`. Trusted: the result is the named
/// function `utf8_lossy` of the bytes, and on valid UTF-8 it is the plain
/// decoding of the bytes, as the std documentation says.
#[verifier::external_body]
fn decode_utf8_lossy(bytes: &[u8]) -> (s: String)
    ensures
        s@ == utf8_lossy(bytes@),
        valid_utf8(bytes@) ==> s@ == decode_utf8(bytes@),
{
    String::from_utf8_lossy(bytes).into_owned()
}

pub fn read_u8(data: &[u8], pos: usize) -> (r: Read<u8>)
    requires
        pos <= data.len(),
    ensures
        read_matches(data@, pos, spec_read_u8(data@.skip(pos as int)), r),
{
    if data.len() - pos < 1 {
        return Err(GgufError::UnexpectedEof);
    }
    Ok((data[pos], pos + 1))
}

pub fn read_u16(data: &[u8], pos: usize) -> (r: Read<u16>)
    requires
        pos <= data.len(),
    ensures
        read_matches(data@, pos, spec_read_u16(data@.skip(pos as int)), r),
{
    if data.len() - pos < 2 {
        return Err(GgufError::UnexpectedEof);
    }
    let v: u16 = data[pos] as u16 + (data[pos + 1] as u16) * 256;
    Ok((v, pos + 2))
}

pub fn read_u32(data: &[u8], pos: usize) -> (r: Read<u32>)
    requires
        pos <= data.len(),
    ensures
        read_matches(data@, pos, spec_read_u32(data@.skip(pos as int)), r),
{
    if data.len() - pos < 4 {
        return Err(GgufError::UnexpectedEof);
    }
    let v: u32 = data[pos] as u32 + (data[pos + 1] as u32) * 256 + (data[pos + 2] as u32) * 65536
        + (data[pos + 3] as u32) * 16777216;
    Ok((v, pos + 4))
}

pub fn read_u64(data: &[u8], pos: usize) -> (r: Read<u64>)
    requires
        pos <= data.len(),
    ensures
        read_matches(data@, pos, spec_read_u64(data@.skip(pos as int)), r),
{
    if data.len() - pos < 8 {
        return Err(GgufError::UnexpectedEof);
    }
    let lo: u64 = data[pos] as u64 + (data[pos + 1] as u64) * 256 + (data[pos + 2] as u64) * 65536
        + (data[pos + 3] as u64) * 16777216;
    let hi: u64 = data[pos + 4] as u64 + (data[pos + 5] as u64) * 256 + (data[pos + 6] as u64)
        * 65536 + (data[pos + 7] as u64) * 16777216;
    let v: u64 = lo + hi * 4294967296;
    proof {
        let s = data@.skip(pos as int);
        assert(s.skip(4)[0] == data@[pos + 4]);
        assert(s.skip(4)[1] == data@[pos + 5]);
        assert(s.skip(4)[2] == data@[pos + 6]);
        assert(s.skip(4)[3] == data@[pos + 7]);
    }
    Ok((v, pos + 8))
}

pub fn read_i32(data: &[u8], pos: usize) -> (r: Read<i32>)
    requires
        pos <= data.len(),
    ensures
        read_matches(data@, pos, spec_read_i32(data@.skip(pos as int)), r),
{
    let (v, p) = read_u32(data, pos)?;
    let x: i32 = if v < 0x8000_0000 {
        v as i32
    } else {
        ((v - 0x8000_0000) as i32) - 0x7fff_ffff - 1
    };
    Ok((x, p))
}

pub fn read_i64(data: &[u8], pos: usize) -> (r: Read<i64>)
    requires
        pos <= data.len(),
    ensures
        read_matches(data@, pos, spec_read_i64(data@.skip(pos as int)), r),
{
    let (v, p) = read_u64(data, pos)?;
    let x: i64 = if v < 0x8000_0000_0000_0000 {
        v as i64
    } else {
        ((v - 0x8000_0000_0000_0000) as i64) - 0x7fff_ffff_ffff_ffff - 1
    };
    Ok((x, p))
}

pub fn read_bool(data: &[u8], pos: usize) -> (r: Read<bool>)
    requires
        pos <= data.len(),
    ensures
        read_matches(data@, pos, spec_read_bool(data@.skip(pos as int)), r),
{
    let (v, p) = read_u8(data, pos)?;
    Ok((v != 0, p))
}

/// Read a GGUF string: u64 length followed by that many bytes (no terminator).
pub fn read_string(data: &[u8], pos: usize) -> (r: Result<(String, usize), GgufError>)
    requires
        pos <= data.len(),
    ensures
        match spec_read_string(data@.skip(pos as int)) {
            Ok((s, n)) => r matches Ok((st, p)) && st@ == s && p == pos + n && p <= data.len(),
            Err(e) => r == Err::<(String, usize), GgufError>(e),
        },
{
    let (len, p) = read_u64(data, pos)?;
    if len > MAX_STRING_LENGTH {
        return Err(GgufError::StringTooLong(len));
    }
    if ((data.len() - p) as u64) < len {
        return Err(GgufError::UnexpectedEof);
    }
    let end = p + len as usize;
    let bytes = &data[p..end];
    proof {
        assert(bytes@ =~= data@.skip(pos as int).subrange(8, 8 + len));
    }
    let s = decode_utf8_lossy(bytes);
    proof {
        reveal(decoded);
    }
    Ok((s, end))
}

/// Read and validate the GGUF header at the start of the file.
pub fn read_header(data: &[u8]) -> (r: Result<GgufHeader, GgufError>)
    ensures
        r == spec_read_header(data@),
{
    let (magic, p) = read_u32(data, 0)?;
    if magic != GGUF_MAGIC {
        return Err(GgufError::InvalidMagic(magic));
    }
    let (version, p) = read_u32(data, p)?;
    if !(version == 2 || version == 3) {
        return Err(GgufError::UnsupportedVersion(version));
    }
    let (tensor_count, p) = read_u64(data, p)?;
    let (metadata_kv_count, _p) = read_u64(data, p)?;
    proof {
        assert(data@.skip(0) =~= data@);
        assert(data@.skip(4) =~= data@.skip(4int));
    }
    Ok(GgufHeader { version, tensor_count, metadata_kv_count })
}

} // verus!
