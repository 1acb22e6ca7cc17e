//! Tensor descriptors from the tensor info array.
use vstd::prelude::*;
use crate::gguf::GgufError;
use crate::gguf::limits::MAX_TENSOR_DIMS;
use crate::gguf::header::{
    le_u64, read_string, read_u32, read_u64, spec_read_string, spec_read_u32, spec_read_u64,
    SpecRead,
};
use crate::gguf::metadata::after;
use crate::gguf::types::GGMLType;

verus! {

/// Information about a single tensor in the GGUF file.
/// The `offset` is relative to the start of the tensor data section.
#[derive(Debug)]
pub struct TensorInfo {
    /// Tensor name (e.g., "blk.0.attn_q.weight", "token_embd.weight").
    pub name: String,
    /// Dimensions of the tensor.
    pub dimensions: Vec<u64>,
    /// The quantization / data type.
    pub ggml_type: GGMLType,
    /// Offset relative to the tensor data section start.
    pub offset: u64,
    /// Computed byte size based on dimensions and type.
    pub byte_size: u64,
}

/// The mathematical value of a tensor descriptor.
pub struct TensorView {
    pub name: Seq<char>,
    pub dimensions: Seq<u64>,
    pub ggml_type: GGMLType,
    pub offset: u64,
    pub byte_size: u64,
}

impl TensorInfo {
    pub open spec fn tv(&self) -> TensorView {
        TensorView {
            name: self.name@,
            dimensions: self.dimensions@,
            ggml_type: self.ggml_type,
            offset: self.offset,
            byte_size: self.byte_size,
        }
    }

    /// Total number of elements in the tensor (at least 1).
    pub fn n_elements(&self) -> (r: u64)
        requires
            checked_product(self.dimensions@) is Some,
        ensures
            r == max1(checked_product(self.dimensions@)->Some_0),
    {
        let mut acc: u64 = 1;
        let mut i: usize = 0;
        while i < self.dimensions.len()
            invariant
                i <= self.dimensions@.len(),
                checked_product(self.dimensions@) is Some,
                checked_product(self.dimensions@.take(i as int)) == Some(acc),
            decreases self.dimensions@.len() - i,
        {
            proof {
                lemma_checked_product_prefix(self.dimensions@, i as int + 1);
                assert(self.dimensions@.take(i + 1).drop_last() =~= self.dimensions@.take(i as int));
            }
            acc = acc * self.dimensions[i];
            i += 1;
        }
        proof {
            assert(self.dimensions@.take(i as int) =~= self.dimensions@);
        }
        if acc < 1 {
            1
        } else {
            acc
        }
    }
}

pub open spec fn max1(x: u64) -> u64 {
    if x < 1 { 1 } else { x }
}

/// The product of `d`, computed left to right with checked multiplication:
/// `None` as soon as a partial product leaves the `u64` range.
pub open spec fn checked_product(d: Seq<u64>) -> Option<u64>
    decreases d.len(),
{
    if d.len() == 0 {
        Some(1)
    } else {
        match checked_product(d.drop_last()) {
            Some(p) => if p * d.last() <= u64::MAX {
                Some((p * d.last()) as u64)
            } else {
                None
            },
            None => None,
        }
    }
}

/// A prefix of a sequence whose checked product exists has one too.
pub proof fn lemma_checked_product_prefix(d: Seq<u64>, k: int)
    requires
        0 <= k <= d.len(),
        checked_product(d) is Some,
    ensures
        checked_product(d.take(k)) is Some,
    decreases d.len(),
{
    if k < d.len() {
        assert(d.drop_last().take(k) =~= d.take(k));
        lemma_checked_product_prefix(d.drop_last(), k);
    } else {
        assert(d.take(k) =~= d);
    }
}

/// `n` little-endian u64 values in a row.
pub open spec fn u64s(s: Seq<u8>, n: nat) -> Seq<u64> {
    Seq::new(n, |i: int| le_u64(s.skip(8 * i)) as u64)
}

/// One tensor descriptor: name, dimension count and dimensions, type tag,
/// offset; its element count and byte size are computed with checked
/// arithmetic.
pub open spec fn spec_read_tensor_info(s: Seq<u8>) -> SpecRead<TensorView> {
    match spec_read_string(s) {
        Err(e) => Err(e),
        Ok((name, a)) => {
            let s1 = s.skip(a as int);
            match spec_read_u32(s1) {
                Err(e) => Err(e),
                Ok((n_dims, _)) => if n_dims > MAX_TENSOR_DIMS {
                    Err(GgufError::TooManyDimensions(n_dims))
                } else {
                    let s2 = s1.skip(4);
                    if s2.len() < 8 * n_dims {
                        Err(GgufError::UnexpectedEof)
                    } else {
                        let dims = u64s(s2, n_dims as nat);
                        let s3 = s2.skip(8 * n_dims);
                        match spec_read_u32(s3) {
                            Err(e) => Err(e),
                            Ok((type_id, _)) => match GGMLType::spec_from_u32(type_id) {
                                None => Err(GgufError::InvalidGGMLType(type_id)),
                                Some(t) => match spec_read_u64(s3.skip(4)) {
                                    Err(e) => Err(e),
                                    Ok((offset, _)) => match checked_product(dims) {
                                        None => Err(GgufError::IntegerOverflow),
                                        Some(p) => match t.spec_byte_size_checked(max1(p)) {
                                            None => Err(GgufError::IntegerOverflow),
                                            Some(b) => Ok(
                                                (
                                                    TensorView {
                                                        name,
                                                        dimensions: dims,
                                                        ggml_type: t,
                                                        offset,
                                                        byte_size: b,
                                                    },
                                                    (a + 4 + 8 * n_dims + 12) as nat,
                                                ),
                                            ),
                                        },
                                    },
                                },
                            },
                        }
                    }
                },
            }
        },
    }
}

/// `n` tensor descriptors, one after the other.
pub open spec fn spec_read_tensor_infos(s: Seq<u8>, n: nat) -> SpecRead<Seq<TensorView>>
    decreases n,
{
    if n == 0 {
        Ok((Seq::empty(), 0))
    } else {
        match spec_read_tensor_info(s) {
            Err(e) => Err(e),
            Ok((t, k)) => if k > s.len() {
                Err(GgufError::UnexpectedEof)
            } else {
                after(seq![t], k, spec_read_tensor_infos(s.skip(k as int), (n - 1) as nat))
            },
        }
    }
}

/// The views of a sequence of tensor descriptors.
pub open spec fn tensor_views(ts: Seq<TensorInfo>) -> Seq<TensorView> {
    Seq::new(ts.len(), |i: int| ts[i].tv())
}

/// Read one tensor descriptor.
#[verifier::rlimit(60)]
#[verifier::spinoff_prover]
pub fn read_tensor_info(data: &[u8], pos: usize) -> (r: Result<(TensorInfo, usize), GgufError>)
    requires
        pos <= data.len(),
    ensures
        match spec_read_tensor_info(data@.skip(pos as int)) {
            Ok((t, n)) => r matches Ok((ti, p)) && ti.tv() == t && p == pos + n && p
                <= data.len(),
            Err(e) => r matches Err(e2) && e2 == e,
        },
{
    let ghost s = data@.skip(pos as int);
    let (name, p1) = read_string(data, pos)?;
    proof {
        assert(data@.skip(p1 as int) =~= s.skip(p1 - pos));
    }
    let (n_dims, p2) = read_u32(data, p1)?;
    if n_dims > MAX_TENSOR_DIMS {
        return Err(GgufError::TooManyDimensions(n_dims));
    }
    let ghost s2 = data@.skip(p2 as int);
    proof {
        assert(s2 =~= s.skip(p1 - pos).skip(4));
    }
    if ((data.len() - p2) as u64) < 8 * (n_dims as u64) {
        return Err(GgufError::UnexpectedEof);
    }
    let mut dimensions: Vec<u64> = Vec::new();
    let mut q = p2;
    let mut i: u32 = 0;
    while i < n_dims
        invariant
            p2 <= data.len(),
            i <= n_dims <= MAX_TENSOR_DIMS,
            q == p2 + 8 * i,
            p2 + 8 * n_dims <= data.len(),
            s2 == data@.skip(p2 as int),
            dimensions@ =~= u64s(s2, i as nat),
        decreases n_dims - i,
    {
        let (d, q2) = read_u64(data, q)?;
        proof {
            assert(data@.skip(q as int) =~= s2.skip(8 * i));
        }
        dimensions.push(d);
        q = q2;
        i = i + 1;
    }
    proof {
        assert(data@.skip(q as int) =~= s2.skip(8 * n_dims));
    }
    let (type_id, p3) = read_u32(data, q)?;
    let ggml_type = match GGMLType::from_u32(type_id) {
        Some(t) => t,
        None => {
            return Err(GgufError::InvalidGGMLType(type_id));
        },
    };
    proof {
        assert(data@.skip(p3 as int) =~= s2.skip(8 * n_dims).skip(4));
    }
    let (offset, p4) = read_u64(data, p3)?;
    let mut acc: u64 = 1;
    let mut j: usize = 0;
    #[verifier::loop_isolation(false)]
    while j < dimensions.len()
        invariant
            j <= dimensions@.len(),
            checked_product(dimensions@.take(j as int)) == Some(acc),
        decreases dimensions@.len() - j,
    {
        proof {
            assert(dimensions@.take(j + 1).drop_last() =~= dimensions@.take(j as int));
        }
        match acc.checked_mul(dimensions[j]) {
            Some(x) => {
                acc = x;
            },
            None => {
                proof {
                    lemma_checked_product_none_extends(dimensions@, j as int + 1);
                    assert(dimensions@.take(dimensions@.len() as int) =~= dimensions@);
                }
                return Err(GgufError::IntegerOverflow);
            },
        }
        j += 1;
    }
    proof {
        assert(dimensions@.take(j as int) =~= dimensions@);
    }
    let n_elements: u64 = if acc < 1 {
        1
    } else {
        acc
    };
    let byte_size = match ggml_type.tensor_byte_size_checked(n_elements) {
        Some(b) => b,
        None => {
            return Err(GgufError::IntegerOverflow);
        },
    };
    Ok((TensorInfo { name, dimensions, ggml_type, offset, byte_size }, p4))
}

/// Once a prefix's checked product is `None`, so is that of every longer prefix.
pub proof fn lemma_checked_product_none_extends(d: Seq<u64>, k: int)
    requires
        0 <= k <= d.len(),
        checked_product(d.take(k)) is None,
    ensures
        checked_product(d) is None,
    decreases d.len() - k,
{
    if k < d.len() {
        assert(d.take(k + 1).drop_last() =~= d.take(k));
        lemma_checked_product_none_extends(d, k + 1);
    } else {
        assert(d.take(k) =~= d);
    }
}

/// Read all tensor info descriptors.
pub fn read_tensor_infos(data: &[u8], pos: usize, count: u64) -> (r: Result<
    (Vec<TensorInfo>, usize),
    GgufError,
>)
    requires
        pos <= data.len(),
    ensures
        match spec_read_tensor_infos(data@.skip(pos as int), count as nat) {
            Ok((ts, n)) => r matches Ok((v, p)) && tensor_views(v@) == ts && p == pos + n && p
                <= data.len(),
            Err(e) => r matches Err(e2) && e2 == e,
        },
{
    let ghost base = data@.skip(pos as int);
    let mut tensors: Vec<TensorInfo> = Vec::new();
    let mut q = pos;
    let mut i: u64 = 0;
    proof {
        match spec_read_tensor_infos(base, count as nat) {
            Ok((ts, n)) => {
                assert(tensor_views(tensors@) + ts =~= ts);
            },
            Err(e) => {},
        }
    }
    while i < count
        invariant
            pos <= q <= data.len(),
            i <= count,
            base == data@.skip(pos as int),
            spec_read_tensor_infos(base, count as nat) == after(
                tensor_views(tensors@),
                (q - pos) as nat,
                spec_read_tensor_infos(data@.skip(q as int), (count - i) as nat),
            ),
        decreases count - i,
    {
        let ghost rest = data@.skip(q as int);
        let (t, q2) = match read_tensor_info(data, q) {
            Ok(x) => x,
            Err(e) => {
                return Err(e);
            },
        };
        proof {
            let k = (q2 - q) as nat;
            assert(rest.skip(k as int) =~= data@.skip(q2 as int));
            crate::gguf::metadata::lemma_after_assoc(
                tensor_views(tensors@),
                (q - pos) as nat,
                seq![t.tv()],
                k,
                spec_read_tensor_infos(data@.skip(q2 as int), (count - i - 1) as nat),
            );
        }
        let ghost old_ts = tensors@;
        tensors.push(t);
        proof {
            assert(tensor_views(tensors@) =~= tensor_views(old_ts) + seq![tensors@.last().tv()]);
        }
        q = q2;
        i = i + 1;
    }
    proof {
        assert(tensor_views(tensors@) + Seq::<TensorView>::empty() =~= tensor_views(tensors@));
    }
    Ok((tensors, q))
}

} // verus!
