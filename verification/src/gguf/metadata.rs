//! GGUF metadata key-value pairs.
use vstd::prelude::*;
use crate::gguf::GgufError;
use crate::gguf::limits::{MAX_ARRAY_LENGTH, MAX_STRING_LENGTH};
use crate::gguf::header::{
    read_bool, read_i32, read_i64, read_string, read_u16, read_u32, read_u64, read_u8,
    spec_read_bool, spec_read_i32, spec_read_i64, spec_read_string, spec_read_u16, spec_read_u32,
    spec_read_u64, spec_read_u8, to_i16, to_i8, SpecRead, le_u16, le_u32, le_u64, decoded,
};
use crate::strmap::StrMap;

verus! {

pub const GGUF_TYPE_UINT8: u32 = 0;
pub const GGUF_TYPE_INT8: u32 = 1;
pub const GGUF_TYPE_UINT16: u32 = 2;
pub const GGUF_TYPE_INT16: u32 = 3;
pub const GGUF_TYPE_UINT32: u32 = 4;
pub const GGUF_TYPE_INT32: u32 = 5;
pub const GGUF_TYPE_FLOAT32: u32 = 6;
pub const GGUF_TYPE_BOOL: u32 = 7;
pub const GGUF_TYPE_STRING: u32 = 8;
pub const GGUF_TYPE_ARRAY: u32 = 9;
pub const GGUF_TYPE_UINT64: u32 = 10;
pub const GGUF_TYPE_INT64: u32 = 11;
pub const GGUF_TYPE_FLOAT64: u32 = 12;

/// A parsed GGUF metadata value. Floating-point values are kept as their
/// IEEE-754 bit patterns, exactly as stored in the file.
#[derive(Debug, PartialEq)]
pub enum MetadataValue {
    UInt8(u8),
    Int8(i8),
    UInt16(u16),
    Int16(i16),
    UInt32(u32),
    Int32(i32),
    Float32(u32),
    Bool(bool),
    String(String),
    Array(Vec<MetadataValue>),
    UInt64(u64),
    Int64(i64),
    Float64(u64),
}

/// The mathematical value of a metadata value.
pub enum MetaView {
    UInt8(u8),
    Int8(i8),
    UInt16(u16),
    Int16(i16),
    UInt32(u32),
    Int32(i32),
    Float32(u32),
    Bool(bool),
    String(Seq<char>),
    Array(Seq<MetaView>),
    UInt64(u64),
    Int64(i64),
    Float64(u64),
}

impl MetadataValue {
    pub open spec fn vv(&self) -> MetaView
        decreases self,
    {
        match self {
            MetadataValue::UInt8(v) => MetaView::UInt8(*v),
            MetadataValue::Int8(v) => MetaView::Int8(*v),
            MetadataValue::UInt16(v) => MetaView::UInt16(*v),
            MetadataValue::Int16(v) => MetaView::Int16(*v),
            MetadataValue::UInt32(v) => MetaView::UInt32(*v),
            MetadataValue::Int32(v) => MetaView::Int32(*v),
            MetadataValue::Float32(v) => MetaView::Float32(*v),
            MetadataValue::Bool(v) => MetaView::Bool(*v),
            MetadataValue::String(s) => MetaView::String(s@),
            MetadataValue::Array(a) => MetaView::Array(
                Seq::new(
                    a@.len(),
                    |i: int|
                        if 0 <= i < a@.len() {
                            a@[i].vv()
                        } else {
                            MetaView::Bool(false)
                        },
                ),
            ),
            MetadataValue::UInt64(v) => MetaView::UInt64(*v),
            MetadataValue::Int64(v) => MetaView::Int64(*v),
            MetadataValue::Float64(v) => MetaView::Float64(*v),
        }
    }

    /// Try to extract as u64 (works for all unsigned integer types, and for
    /// non-negative 32- and 64-bit signed integers).
    pub fn as_u64(&self) -> (r: Option<u64>)
        ensures
            r == spec_as_u64(self.vv()),
    {
        match self {
            MetadataValue::UInt8(v) => Some(*v as u64),
            MetadataValue::UInt16(v) => Some(*v as u64),
            MetadataValue::UInt32(v) => Some(*v as u64),
            MetadataValue::UInt64(v) => Some(*v),
            MetadataValue::Int32(v) => if *v >= 0 {
                Some(*v as u64)
            } else {
                None
            },
            MetadataValue::Int64(v) => if *v >= 0 {
                Some(*v as u64)
            } else {
                None
            },
            _ => None,
        }
    }

    /// Try to extract as string.
    pub fn as_str(&self) -> (r: Option<&str>)
        ensures
            match self.vv() {
                MetaView::String(s) => r matches Some(t) && t@ == s,
                _ => r is None,
            },
    {
        match self {
            MetadataValue::String(s) => Some(s.as_str()),
            _ => None,
        }
    }
}

pub open spec fn spec_as_u64(v: MetaView) -> Option<u64> {
    match v {
        MetaView::UInt8(x) => Some(x as u64),
        MetaView::UInt16(x) => Some(x as u64),
        MetaView::UInt32(x) => Some(x as u64),
        MetaView::UInt64(x) => Some(x),
        MetaView::Int32(x) => if x >= 0 { Some(x as u64) } else { None },
        MetaView::Int64(x) => if x >= 0 { Some(x as u64) } else { None },
        _ => None,
    }
}

/// The views of a sequence of values.
pub open spec fn views(a: Seq<MetadataValue>) -> Seq<MetaView> {
    Seq::new(a.len(), |i: int| a[i].vv())
}

/// Prefixes `acc` (read from `off` bytes) to the result of a later read.
pub open spec fn after<T>(acc: Seq<T>, off: nat, r: SpecRead<Seq<T>>) -> SpecRead<Seq<T>> {
    match r {
        Ok((vs, n)) => Ok((acc + vs, off + n)),
        Err(e) => Err(e),
    }
}

/// A value of the given type tag.
pub open spec fn spec_read_typed_value(s: Seq<u8>, ty: u32) -> SpecRead<MetaView>
    decreases s.len(), 0nat,
{
    if ty == GGUF_TYPE_UINT8 {
        match spec_read_u8(s) {
            Ok((v, n)) => Ok((MetaView::UInt8(v), n)),
            Err(e) => Err(e),
        }
    } else if ty == GGUF_TYPE_INT8 {
        match spec_read_u8(s) {
            Ok((v, n)) => Ok((MetaView::Int8(to_i8(v)), n)),
            Err(e) => Err(e),
        }
    } else if ty == GGUF_TYPE_UINT16 {
        match spec_read_u16(s) {
            Ok((v, n)) => Ok((MetaView::UInt16(v), n)),
            Err(e) => Err(e),
        }
    } else if ty == GGUF_TYPE_INT16 {
        match spec_read_u16(s) {
            Ok((v, n)) => Ok((MetaView::Int16(to_i16(v)), n)),
            Err(e) => Err(e),
        }
    } else if ty == GGUF_TYPE_UINT32 {
        match spec_read_u32(s) {
            Ok((v, n)) => Ok((MetaView::UInt32(v), n)),
            Err(e) => Err(e),
        }
    } else if ty == GGUF_TYPE_INT32 {
        match spec_read_i32(s) {
            Ok((v, n)) => Ok((MetaView::Int32(v), n)),
            Err(e) => Err(e),
        }
    } else if ty == GGUF_TYPE_FLOAT32 {
        match spec_read_u32(s) {
            Ok((v, n)) => Ok((MetaView::Float32(v), n)),
            Err(e) => Err(e),
        }
    } else if ty == GGUF_TYPE_BOOL {
        match spec_read_bool(s) {
            Ok((v, n)) => Ok((MetaView::Bool(v), n)),
            Err(e) => Err(e),
        }
    } else if ty == GGUF_TYPE_STRING {
        match spec_read_string(s) {
            Ok((v, n)) => Ok((MetaView::String(v), n)),
            Err(e) => Err(e),
        }
    } else if ty == GGUF_TYPE_UINT64 {
        match spec_read_u64(s) {
            Ok((v, n)) => Ok((MetaView::UInt64(v), n)),
            Err(e) => Err(e),
        }
    } else if ty == GGUF_TYPE_INT64 {
        match spec_read_i64(s) {
            Ok((v, n)) => Ok((MetaView::Int64(v), n)),
            Err(e) => Err(e),
        }
    } else if ty == GGUF_TYPE_FLOAT64 {
        match spec_read_u64(s) {
            Ok((v, n)) => Ok((MetaView::Float64(v), n)),
            Err(e) => Err(e),
        }
    } else if ty == GGUF_TYPE_ARRAY {
        match spec_read_u32(s) {
            Err(e) => Err(e),
            Ok((element_type, _)) => match spec_read_u64(s.skip(4)) {
                Err(e) => Err(e),
                Ok((len, _)) => if len > MAX_ARRAY_LENGTH {
                    Err(GgufError::ArrayTooLong(len))
                } else {
                    match spec_read_array(s.skip(12), element_type, len as nat) {
                        Ok((vs, n)) => Ok((MetaView::Array(vs), 12 + n)),
                        Err(e) => Err(e),
                    }
                },
            },
        }
    } else {
        Err(GgufError::InvalidValueType(ty))
    }
}

/// `n` values of the given type tag, one after the other.
pub open spec fn spec_read_array(s: Seq<u8>, ty: u32, n: nat) -> SpecRead<Seq<MetaView>>
    decreases s.len(), n + 1,
{
    if n == 0 {
        Ok((Seq::empty(), 0))
    } else {
        match spec_read_typed_value(s, ty) {
            Err(e) => Err(e),
            Ok((v, k)) => if k > s.len() {
                Err(GgufError::UnexpectedEof)
            } else {
                after(seq![v], k, spec_read_array(s.skip(k as int), ty, (n - 1) as nat))
            },
        }
    }
}

/// A value preceded by its u32 type tag.
pub open spec fn spec_read_value(s: Seq<u8>) -> SpecRead<MetaView> {
    match spec_read_u32(s) {
        Err(e) => Err(e),
        Ok((ty, _)) => match spec_read_typed_value(s.skip(4), ty) {
            Ok((v, n)) => Ok((v, 4 + n)),
            Err(e) => Err(e),
        },
    }
}

/// `n` key-value pairs: a string key, then a tagged value.
pub open spec fn spec_read_kvs(s: Seq<u8>, n: nat) -> SpecRead<Seq<(Seq<char>, MetaView)>>
    decreases n,
{
    if n == 0 {
        Ok((Seq::empty(), 0))
    } else {
        match spec_read_string(s) {
            Err(e) => Err(e),
            Ok((key, a)) => match spec_read_value(s.skip(a as int)) {
                Err(e) => Err(e),
                Ok((v, b)) => if a + b > s.len() {
                    Err(GgufError::UnexpectedEof)
                } else {
                    after(seq![(key, v)], a + b, spec_read_kvs(s.skip((a + b) as int), (n - 1) as nat))
                },
            },
        }
    }
}

/// The map made by inserting the pairs in order: a later pair wins.
pub open spec fn entries_map(es: Seq<(Seq<char>, MetaView)>) -> Map<Seq<char>, MetaView>
    decreases es.len(),
{
    if es.len() == 0 {
        Map::empty()
    } else {
        entries_map(es.drop_last()).insert(es.last().0, es.last().1)
    }
}

/// The mathematical view of a metadata map.
pub open spec fn meta_view(m: Map<Seq<char>, MetadataValue>) -> Map<Seq<char>, MetaView> {
    m.map_values(|v: MetadataValue| v.vv())
}

/// The metadata section: `count` pairs, as a map in which a later pair wins.
pub open spec fn spec_read_metadata(s: Seq<u8>, count: nat) -> SpecRead<Map<Seq<char>, MetaView>> {
    match spec_read_kvs(s, count) {
        Ok((es, n)) => Ok((entries_map(es), n)),
        Err(e) => Err(e),
    }
}

/// The unsigned little-endian number in the first `n` bytes of `s`.
pub open spec fn le_value(s: Seq<u8>, n: nat) -> int
    decreases n,
{
    if n == 0 {
        0
    } else {
        s[0] + 256 * le_value(s.drop_first(), (n - 1) as nat)
    }
}

/// The number of values that `n` bytes can hold: 256 to the `n`.
pub open spec fn byte_range(n: nat) -> int
    decreases n,
{
    if n == 0 {
        1
    } else {
        256 * byte_range((n - 1) as nat)
    }
}

/// The same `n` bytes read as a two's complement signed number: less the
/// range of `n` bytes where the top bit of the last byte is set.
pub open spec fn le_signed(s: Seq<u8>, n: nat) -> int {
    if s[n - 1] >= 128 {
        le_value(s, n) - byte_range(n)
    } else {
        le_value(s, n)
    }
}

/// The GGUF wire format of scalar metadata values: a value of a scalar type
/// tag takes exactly that type's width (1 byte for u8, i8 and bool; 2 for
/// u16 and i16; 4 for u32, i32 and f32; 8 for u64, i64 and f64), stored
/// little-endian, signed types in two's complement and floats as their
/// IEEE-754 bit patterns; where fewer bytes are left the read fails at the
/// end of the data.
pub proof fn lemma_scalar_wire_format(s: Seq<u8>)
    ensures
        s.len() >= 1 ==> spec_read_typed_value(s, GGUF_TYPE_UINT8) == SpecRead::<MetaView>::Ok((MetaView::UInt8(le_value(s, 1) as u8), 1nat)),
        s.len() >= 1 ==> spec_read_typed_value(s, GGUF_TYPE_INT8) == SpecRead::<MetaView>::Ok((MetaView::Int8(le_signed(s, 1) as i8), 1nat)),
        s.len() >= 1 ==> spec_read_typed_value(s, GGUF_TYPE_BOOL) == SpecRead::<MetaView>::Ok((MetaView::Bool(s[0] != 0), 1nat)),
        s.len() >= 2 ==> spec_read_typed_value(s, GGUF_TYPE_UINT16) == SpecRead::<MetaView>::Ok((MetaView::UInt16(le_value(s, 2) as u16), 2nat)),
        s.len() >= 2 ==> spec_read_typed_value(s, GGUF_TYPE_INT16) == SpecRead::<MetaView>::Ok((MetaView::Int16(le_signed(s, 2) as i16), 2nat)),
        s.len() >= 4 ==> spec_read_typed_value(s, GGUF_TYPE_UINT32) == SpecRead::<MetaView>::Ok((MetaView::UInt32(le_value(s, 4) as u32), 4nat)),
        s.len() >= 4 ==> spec_read_typed_value(s, GGUF_TYPE_INT32) == SpecRead::<MetaView>::Ok((MetaView::Int32(le_signed(s, 4) as i32), 4nat)),
        s.len() >= 4 ==> spec_read_typed_value(s, GGUF_TYPE_FLOAT32) == SpecRead::<MetaView>::Ok((MetaView::Float32(le_value(s, 4) as u32), 4nat)),
        s.len() >= 8 ==> spec_read_typed_value(s, GGUF_TYPE_UINT64) == SpecRead::<MetaView>::Ok((MetaView::UInt64(le_value(s, 8) as u64), 8nat)),
        s.len() >= 8 ==> spec_read_typed_value(s, GGUF_TYPE_INT64) == SpecRead::<MetaView>::Ok((MetaView::Int64(le_signed(s, 8) as i64), 8nat)),
        s.len() >= 8 ==> spec_read_typed_value(s, GGUF_TYPE_FLOAT64) == SpecRead::<MetaView>::Ok((MetaView::Float64(le_value(s, 8) as u64), 8nat)),
        s.len() < 1 ==> spec_read_typed_value(s, GGUF_TYPE_UINT8) == SpecRead::<MetaView>::Err(GgufError::UnexpectedEof)
            && spec_read_typed_value(s, GGUF_TYPE_INT8) == SpecRead::<MetaView>::Err(GgufError::UnexpectedEof)
            && spec_read_typed_value(s, GGUF_TYPE_BOOL) == SpecRead::<MetaView>::Err(GgufError::UnexpectedEof),
        s.len() < 2 ==> spec_read_typed_value(s, GGUF_TYPE_UINT16) == SpecRead::<MetaView>::Err(GgufError::UnexpectedEof)
            && spec_read_typed_value(s, GGUF_TYPE_INT16) == SpecRead::<MetaView>::Err(GgufError::UnexpectedEof),
        s.len() < 4 ==> spec_read_typed_value(s, GGUF_TYPE_UINT32) == SpecRead::<MetaView>::Err(GgufError::UnexpectedEof)
            && spec_read_typed_value(s, GGUF_TYPE_INT32) == SpecRead::<MetaView>::Err(GgufError::UnexpectedEof)
            && spec_read_typed_value(s, GGUF_TYPE_FLOAT32) == SpecRead::<MetaView>::Err(GgufError::UnexpectedEof),
        s.len() < 8 ==> spec_read_typed_value(s, GGUF_TYPE_UINT64) == SpecRead::<MetaView>::Err(GgufError::UnexpectedEof)
            && spec_read_typed_value(s, GGUF_TYPE_INT64) == SpecRead::<MetaView>::Err(GgufError::UnexpectedEof)
            && spec_read_typed_value(s, GGUF_TYPE_FLOAT64) == SpecRead::<MetaView>::Err(GgufError::UnexpectedEof),
{
    reveal_with_fuel(le_value, 10);
    reveal_with_fuel(byte_range, 10);
    if s.len() >= 2 {
        assert(s.drop_first()[0] == s[1]);
        assert(le_value(s, 2) == le_u16(s));
    }
    if s.len() >= 4 {
        assert(s.drop_first().drop_first()[0] == s[2]);
        assert(s.drop_first().drop_first().drop_first()[0] == s[3]);
        assert(le_value(s, 4) == le_u32(s));
    }
    if s.len() >= 8 {
        let t = s.skip(4);
        assert(t[0] == s[4] && t[1] == s[5] && t[2] == s[6] && t[3] == s[7]);
        assert(s.drop_first().drop_first().drop_first().drop_first() =~= t);
        assert(le_value(t, 4) == le_u32(t)) by {
            assert(t.drop_first()[0] == s[5]);
            assert(t.drop_first().drop_first()[0] == s[6]);
            assert(t.drop_first().drop_first().drop_first()[0] == s[7]);
        }
        assert(le_value(s, 8) == le_u64(s));
    }
}

/// The width in bytes of a scalar type tag's values; 0 for strings, arrays
/// and unknown tags.
pub open spec fn scalar_width(t: u32) -> nat {
    if t == GGUF_TYPE_UINT8 || t == GGUF_TYPE_INT8 || t == GGUF_TYPE_BOOL {
        1
    } else if t == GGUF_TYPE_UINT16 || t == GGUF_TYPE_INT16 {
        2
    } else if t == GGUF_TYPE_UINT32 || t == GGUF_TYPE_INT32 || t == GGUF_TYPE_FLOAT32 {
        4
    } else if t == GGUF_TYPE_UINT64 || t == GGUF_TYPE_INT64 || t == GGUF_TYPE_FLOAT64 {
        8
    } else {
        0
    }
}

/// A tagged value of a scalar type takes its 4-byte tag and then exactly
/// the type's width: the next key starts right after it.
pub proof fn lemma_tagged_scalar_width(s: Seq<u8>)
    requires
        s.len() >= 4 + scalar_width(le_value(s, 4) as u32),
        scalar_width(le_value(s, 4) as u32) > 0,
    ensures
        spec_read_value(s) matches Ok((_, n)) && n == 4 + scalar_width(le_value(s, 4) as u32),
{
    lemma_scalar_wire_format(s);
    lemma_scalar_wire_format(s.skip(4));
    assert(spec_read_u32(s) == SpecRead::<u32>::Ok((le_value(s, 4) as u32, 4nat)));
}

/// A little-endian number of `n` bytes is below the range of `n` bytes.
proof fn lemma_le_value_bound(s: Seq<u8>, n: nat)
    requires
        s.len() >= n,
    ensures
        0 <= le_value(s, n) < byte_range(n),
    decreases n,
{
    if n > 0 {
        lemma_le_value_bound(s.drop_first(), (n - 1) as nat);
    }
}

/// The framing of strings and arrays: a string is a u64 byte count, then
/// that many bytes (at most the string limit); an array is a u32 element
/// type tag and a u64 element count (at most the array limit), then its
/// elements one after another; `k` elements of a scalar type take exactly
/// `k` times the type's width.
pub proof fn lemma_string_and_array_wire_format(s: Seq<u8>, k: nat)
    ensures
        s.len() >= 8 && le_value(s, 8) <= MAX_STRING_LENGTH && s.len() >= 8 + le_value(s, 8)
            ==> spec_read_typed_value(s, GGUF_TYPE_STRING) == SpecRead::<MetaView>::Ok(
            (MetaView::String(decoded(s.subrange(8, 8 + le_value(s, 8)))), (8 + le_value(s, 8)) as nat),
        ),
        s.len() >= 8 && le_value(s, 8) > MAX_STRING_LENGTH ==> spec_read_typed_value(s, GGUF_TYPE_STRING)
            == SpecRead::<MetaView>::Err(GgufError::StringTooLong(le_value(s, 8) as u64)),
        s.len() >= 12 && le_value(s.skip(4), 8) > MAX_ARRAY_LENGTH ==> spec_read_typed_value(s, GGUF_TYPE_ARRAY)
            == SpecRead::<MetaView>::Err(GgufError::ArrayTooLong(le_value(s.skip(4), 8) as u64)),
        s.len() >= 12 + k * scalar_width(le_value(s, 4) as u32) && scalar_width(le_value(s, 4) as u32) > 0
            && le_value(s.skip(4), 8) == k && k <= MAX_ARRAY_LENGTH ==> (spec_read_typed_value(
            s,
            GGUF_TYPE_ARRAY,
        ) matches Ok((MetaView::Array(vs), n)) && vs.len() == k && n == 12 + k * scalar_width(
            le_value(s, 4) as u32,
        )),
{
    lemma_scalar_wire_format(s);
    lemma_scalar_wire_format(s.skip(4));
    reveal_with_fuel(byte_range, 10);
    if s.len() >= 8 {
        lemma_le_value_bound(s, 8);
    }
    if s.len() >= 12 {
        lemma_le_value_bound(s.skip(4), 8);
        lemma_le_value_bound(s, 4);
    }
    assert(s.len() >= 8 ==> spec_read_u64(s) == SpecRead::<u64>::Ok((le_value(s, 8) as u64, 8nat)));
    if s.len() >= 12 {
        assert(spec_read_u32(s) == SpecRead::<u32>::Ok((le_value(s, 4) as u32, 4nat)));
        assert(spec_read_u64(s.skip(4)) == SpecRead::<u64>::Ok((le_value(s.skip(4), 8) as u64, 8nat)));
        let t = le_value(s, 4) as u32;
        let w = scalar_width(t);
        if s.len() >= 12 + k * w && w > 0 && le_value(s.skip(4), 8) == k && k <= MAX_ARRAY_LENGTH {
            lemma_array_of_scalars(s.skip(12), t, k);
        }
    }
}

/// `k` values of a scalar type, read one after another, take exactly `k`
/// times the type's width.
pub proof fn lemma_array_of_scalars(s: Seq<u8>, t: u32, k: nat)
    requires
        scalar_width(t) > 0,
        s.len() >= k * scalar_width(t),
    ensures
        spec_read_array(s, t, k) matches Ok((vs, n)) && vs.len() == k && n == k * scalar_width(t),
    decreases k,
{
    let w = scalar_width(t);
    if k > 0 {
        assert(k * w == (k - 1) * w + w) by (nonlinear_arith);
        assert((k - 1) * w >= 0) by (nonlinear_arith)
            requires
                k >= 1,
        ;
        lemma_scalar_wire_format(s);
        assert(spec_read_typed_value(s, t) matches Ok((_, n)) && n == w);
        assert(s.skip(w as int).len() == s.len() - w);
        lemma_array_of_scalars(s.skip(w as int), t, (k - 1) as nat);
    }
}

pub proof fn lemma_after_assoc<T>(acc: Seq<T>, off: nat, v: Seq<T>, k: nat, r: SpecRead<Seq<T>>)
    ensures
        after(acc, off, after(v, k, r)) == after(acc + v, off + k, r),
{
    match r {
        Ok((vs, n)) => {
            assert(acc + (v + vs) =~= (acc + v) + vs);
        },
        Err(e) => {},
    }
}

/// Read a value of the given type tag at `pos`.
pub fn read_typed_value(data: &[u8], pos: usize, value_type: u32) -> (r: Result<
    (MetadataValue, usize),
    GgufError,
>)
    requires
        pos <= data.len(),
    ensures
        match spec_read_typed_value(data@.skip(pos as int), value_type) {
            Ok((v, n)) => r matches Ok((val, p)) && val.vv() == v && p == pos + n && p
                <= data.len(),
            Err(e) => r matches Err(e2) && e2 == e,
        },
    decreases data.len() - pos,
{
    let ghost s = data@.skip(pos as int);
    if value_type == GGUF_TYPE_UINT8 {
        let (v, p) = read_u8(data, pos)?;
        Ok((MetadataValue::UInt8(v), p))
    } else if value_type == GGUF_TYPE_INT8 {
        let (v, p) = read_u8(data, pos)?;
        let x: i8 = if v < 128 {
            v as i8
        } else {
            ((v - 128) as i8) - 127 - 1
        };
        Ok((MetadataValue::Int8(x), p))
    } else if value_type == GGUF_TYPE_UINT16 {
        let (v, p) = read_u16(data, pos)?;
        Ok((MetadataValue::UInt16(v), p))
    } else if value_type == GGUF_TYPE_INT16 {
        let (v, p) = read_u16(data, pos)?;
        let x: i16 = if v < 32768 {
            v as i16
        } else {
            ((v - 32768) as i16) - 32767 - 1
        };
        Ok((MetadataValue::Int16(x), p))
    } else if value_type == GGUF_TYPE_UINT32 {
        let (v, p) = read_u32(data, pos)?;
        Ok((MetadataValue::UInt32(v), p))
    } else if value_type == GGUF_TYPE_INT32 {
        let (v, p) = read_i32(data, pos)?;
        Ok((MetadataValue::Int32(v), p))
    } else if value_type == GGUF_TYPE_FLOAT32 {
        let (v, p) = read_u32(data, pos)?;
        Ok((MetadataValue::Float32(v), p))
    } else if value_type == GGUF_TYPE_BOOL {
        let (v, p) = read_bool(data, pos)?;
        Ok((MetadataValue::Bool(v), p))
    } else if value_type == GGUF_TYPE_STRING {
        let (v, p) = read_string(data, pos)?;
        Ok((MetadataValue::String(v), p))
    } else if value_type == GGUF_TYPE_UINT64 {
        let (v, p) = read_u64(data, pos)?;
        Ok((MetadataValue::UInt64(v), p))
    } else if value_type == GGUF_TYPE_INT64 {
        let (v, p) = read_i64(data, pos)?;
        Ok((MetadataValue::Int64(v), p))
    } else if value_type == GGUF_TYPE_FLOAT64 {
        let (v, p) = read_u64(data, pos)?;
        Ok((MetadataValue::Float64(v), p))
    } else if value_type == GGUF_TYPE_ARRAY {
        let (element_type, p) = read_u32(data, pos)?;
        let (len, p) = read_u64(data, p)?;
        proof {
            assert(data@.skip(pos + 4) =~= s.skip(4));
        }
        if len > MAX_ARRAY_LENGTH {
            return Err(GgufError::ArrayTooLong(len));
        }
        let ghost base = s.skip(12);
        proof {
            assert(data@.skip(p as int) =~= base);
            assert(spec_read_array(base, element_type, len as nat) == after(
                Seq::<MetaView>::empty(),
                0,
                spec_read_array(data@.skip(p as int), element_type, len as nat),
            )) by {
                match spec_read_array(base, element_type, len as nat) {
                    Ok((vs, n)) => {
                        assert(Seq::<MetaView>::empty() + vs =~= vs);
                    },
                    Err(e) => {},
                }
            }
        }
        let ghost whole = match spec_read_array(base, element_type, len as nat) {
            Ok((vs, n)) => Ok((MetaView::Array(vs), 12 + n)),
            Err(e) => Err(e),
        };
        assert(spec_read_typed_value(s, value_type) == whole);
        let mut elements: Vec<MetadataValue> = Vec::new();
        let mut q = p;
        let mut i: u64 = 0;
        while i < len
            invariant
                pos + 12 == p,
                p <= q <= data.len(),
                i <= len,
                pos <= data.len(),
                base == data@.skip(p as int),
                spec_read_typed_value(data@.skip(pos as int), value_type) == whole,
                whole == match spec_read_array(base, element_type, len as nat) {
                    Ok((vs, n)) => Ok((MetaView::Array(vs), 12 + n)),
                    Err(e) => Err(e),
                },
                elements@.len() == i,
                spec_read_array(base, element_type, len as nat) == after(
                    views(elements@),
                    (q - p) as nat,
                    spec_read_array(data@.skip(q as int), element_type, (len - i) as nat),
                ),
            decreases len - i,
        {
            let ghost rest = data@.skip(q as int);
            let r = read_typed_value(data, q, element_type);
            match r {
                Err(e) => {
                    assert(spec_read_array(rest, element_type, (len - i) as nat) == Err::<
                        (Seq<MetaView>, nat),
                        GgufError,
                    >(e));
                    return Err(e);
                },
                Ok((v, q2)) => {
                    proof {
                        let k = (q2 - q) as nat;
                        assert(rest.skip(k as int) =~= data@.skip(q2 as int));
                        lemma_after_assoc(
                            views(elements@),
                            (q - p) as nat,
                            seq![v.vv()],
                            k,
                            spec_read_array(data@.skip(q2 as int), element_type, (len - i - 1) as nat),
                        );
                    }
                    let ghost old_elems = elements@;
                    elements.push(v);
                    proof {
                        assert(views(elements@) =~= views(old_elems) + seq![v.vv()]);
                    }
                    q = q2;
                    i = i + 1;
                },
            }
        }
        proof {
            assert(views(elements@) + Seq::<MetaView>::empty() =~= views(elements@));
        }
        let ghost ev = views(elements@);
        assert(spec_read_array(data@.skip(q as int), element_type, 0) == Ok::<
            (Seq<MetaView>, nat),
            GgufError,
        >((Seq::empty(), 0)));
        proof {
            let a = elements@;
            assert(Seq::new(
                a.len(),
                |i: int|
                    if 0 <= i < a.len() {
                        a[i].vv()
                    } else {
                        MetaView::Bool(false)
                    },
            ) =~= views(a));
        }
        let result = MetadataValue::Array(elements);
        proof {
            let rv = result.vv();
            assert(rv is Array);
            let x = rv->Array_0;
            assert(x.len() == ev.len());
            assert(forall|i: int| 0 <= i < x.len() ==> x[i] == ev[i]);
            assert(x =~= ev);
            assert(result.vv() == MetaView::Array(ev));
            assert(whole == Ok::<(MetaView, nat), GgufError>((MetaView::Array(ev), (12 + (q - p)) as nat)));
        }
        Ok((result, q))
    } else {
        Err(GgufError::InvalidValueType(value_type))
    }
}

proof fn lemma_meta_view_insert(m: Map<Seq<char>, MetadataValue>, k: Seq<char>, v: MetadataValue)
    ensures
        meta_view(m.insert(k, v)) == meta_view(m).insert(k, v.vv()),
{
    assert(meta_view(m.insert(k, v)) =~= meta_view(m).insert(k, v.vv()));
}

proof fn lemma_kvs_step(s: Seq<u8>, n: nat)
    requires
        n > 0,
    ensures
        spec_read_kvs(s, n) == match spec_read_string(s) {
            Err(e) => Err(e),
            Ok((key, a)) => match spec_read_value(s.skip(a as int)) {
                Err(e) => Err(e),
                Ok((v, b)) => if a + b > s.len() {
                    Err(GgufError::UnexpectedEof)
                } else {
                    after(seq![(key, v)], a + b, spec_read_kvs(s.skip((a + b) as int), (n - 1) as nat))
                },
            },
        },
{
}

/// Read a single typed metadata value: its u32 type tag, then the value.
pub fn read_value(data: &[u8], pos: usize) -> (r: Result<(MetadataValue, usize), GgufError>)
    requires
        pos <= data.len(),
    ensures
        match spec_read_value(data@.skip(pos as int)) {
            Ok((v, n)) => r matches Ok((val, p)) && val.vv() == v && p == pos + n && p
                <= data.len(),
            Err(e) => r matches Err(e2) && e2 == e,
        },
{
    let (value_type, p) = read_u32(data, pos)?;
    proof {
        assert(data@.skip(p as int) =~= data@.skip(pos as int).skip(4));
    }
    read_typed_value(data, p, value_type)
}

/// Read all metadata key-value pairs. A later pair with the same key
/// replaces an earlier one.
#[verifier::rlimit(60)]
#[verifier::spinoff_prover]
pub fn read_metadata(data: &[u8], pos: usize, count: u64) -> (r: Result<
    (StrMap<MetadataValue>, usize),
    GgufError,
>)
    requires
        pos <= data.len(),
    ensures
        match spec_read_metadata(data@.skip(pos as int), count as nat) {
            Ok((m, n)) => r matches Ok((map, p)) && meta_view(map@) == m && p == pos + n && p
                <= data.len(),
            Err(e) => r matches Err(e2) && e2 == e,
        },
{
    let ghost base = data@.skip(pos as int);
    let ghost acc: Seq<(Seq<char>, MetaView)> = Seq::empty();
    let mut map: StrMap<MetadataValue> = StrMap::new();
    let mut q = pos;
    let mut i: u64 = 0;
    proof {
        match spec_read_kvs(base, count as nat) {
            Ok((es, n)) => {
                assert(acc + es =~= es);
            },
            Err(e) => {},
        }
        assert(meta_view(map@) =~= entries_map(acc));
    }
    while i < count
        invariant
            pos <= q <= data.len(),
            i <= count,
            base == data@.skip(pos as int),
            meta_view(map@) == entries_map(acc),
            spec_read_kvs(base, count as nat) == after(
                acc,
                (q - pos) as nat,
                spec_read_kvs(data@.skip(q as int), (count - i) as nat),
            ),
        decreases count - i,
    {
        let ghost rest = data@.skip(q as int);
        proof {
            lemma_kvs_step(rest, (count - i) as nat);
        }
        let (key, q1) = match read_string(data, q) {
            Ok(x) => x,
            Err(e) => {
                return Err(e);
            },
        };
        proof {
            assert(data@.skip(q1 as int) =~= rest.skip(q1 - q));
        }
        let (value, q2) = match read_value(data, q1) {
            Ok(x) => x,
            Err(e) => {
                return Err(e);
            },
        };
        let ghost entry = (key@, value.vv());
        proof {
            let k = (q2 - q) as nat;
            assert(rest.skip(k as int) =~= data@.skip(q2 as int));
            lemma_after_assoc(
                acc,
                (q - pos) as nat,
                seq![entry],
                k,
                spec_read_kvs(data@.skip(q2 as int), (count - i - 1) as nat),
            );
        }
        let ghost old_map = map@;
        let ghost kv = key@;
        let ghost vv = value;
        map.insert(key, value);
        proof {
            let new_acc = acc.push(entry);
            assert(new_acc.drop_last() =~= acc);
            assert(acc + seq![entry] =~= new_acc);
            lemma_meta_view_insert(old_map, kv, vv);
            acc = new_acc;
        }
        q = q2;
        i = i + 1;
    }
    proof {
        assert(acc + Seq::<(Seq<char>, MetaView)>::empty() =~= acc);
    }
    Ok((map, q))
}

} // verus!
