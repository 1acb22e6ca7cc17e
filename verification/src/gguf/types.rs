//! GGML tensor data types and their storage geometry.
use vstd::prelude::*;

verus! {

/// GGML tensor data types.
#[derive(Debug, Clone, Copy, PartialEq, Eq, Structural)]
#[allow(non_camel_case_types)]
pub enum GGMLType {
    F32,
    F16,
    Q4_0,
    Q4_1,
    Q5_0,
    Q5_1,
    Q8_0,
    Q8_1,
    Q2K,
    Q3K,
    Q4K,
    Q5K,
    Q6K,
    Q8K,
    IQ2XXS,
    IQ2XS,
    IQ3XXS,
    IQ1S,
    IQ4NL,
    IQ3S,
    IQ2S,
    IQ4XS,
    I8,
    I16,
    I32,
    I64,
    F64,
    IQ1M,
    BF16,
}

impl GGMLType {
    /// The integer tag of a type in a GGUF file.
    pub open spec fn tag(self) -> u32 {
        match self {
            GGMLType::F32 => 0,
            GGMLType::F16 => 1,
            GGMLType::Q4_0 => 2,
            GGMLType::Q4_1 => 3,
            GGMLType::Q5_0 => 6,
            GGMLType::Q5_1 => 7,
            GGMLType::Q8_0 => 8,
            GGMLType::Q8_1 => 9,
            GGMLType::Q2K => 10,
            GGMLType::Q3K => 11,
            GGMLType::Q4K => 12,
            GGMLType::Q5K => 13,
            GGMLType::Q6K => 14,
            GGMLType::Q8K => 15,
            GGMLType::IQ2XXS => 16,
            GGMLType::IQ2XS => 17,
            GGMLType::IQ3XXS => 18,
            GGMLType::IQ1S => 19,
            GGMLType::IQ4NL => 20,
            GGMLType::IQ3S => 21,
            GGMLType::IQ2S => 22,
            GGMLType::IQ4XS => 23,
            GGMLType::I8 => 24,
            GGMLType::I16 => 25,
            GGMLType::I32 => 26,
            GGMLType::I64 => 27,
            GGMLType::F64 => 28,
            GGMLType::IQ1M => 29,
            GGMLType::BF16 => 30,
        }
    }

    /// The tags that name a type: 0 to 30 except the removed 4 and 5.
    pub open spec fn is_known_tag(v: u32) -> bool {
        v <= 30 && v != 4 && v != 5
    }

    /// Elements per block.
    pub open spec fn spec_block_size(self) -> u64 {
        match self {
            GGMLType::F32 | GGMLType::F16 | GGMLType::BF16 | GGMLType::F64 => 1,
            GGMLType::I8 | GGMLType::I16 | GGMLType::I32 | GGMLType::I64 => 1,
            GGMLType::Q4_0 | GGMLType::Q4_1 | GGMLType::Q5_0 | GGMLType::Q5_1 => 32,
            GGMLType::Q8_0 | GGMLType::Q8_1 => 32,
            GGMLType::Q2K | GGMLType::Q3K | GGMLType::Q4K | GGMLType::Q5K | GGMLType::Q6K
            | GGMLType::Q8K => 256,
            GGMLType::IQ2XXS | GGMLType::IQ2XS | GGMLType::IQ2S => 256,
            GGMLType::IQ3XXS | GGMLType::IQ3S => 256,
            GGMLType::IQ1S | GGMLType::IQ1M => 256,
            GGMLType::IQ4NL | GGMLType::IQ4XS => 32,
        }
    }

    /// Bytes per block.
    pub open spec fn spec_type_size(self) -> u64 {
        match self {
            GGMLType::F32 => 4,
            GGMLType::F16 => 2,
            GGMLType::BF16 => 2,
            GGMLType::F64 => 8,
            GGMLType::I8 => 1,
            GGMLType::I16 => 2,
            GGMLType::I32 => 4,
            GGMLType::I64 => 8,
            GGMLType::Q4_0 => 18,
            GGMLType::Q4_1 => 20,
            GGMLType::Q5_0 => 22,
            GGMLType::Q5_1 => 24,
            GGMLType::Q8_0 => 34,
            GGMLType::Q8_1 => 36,
            GGMLType::Q2K => 84,
            GGMLType::Q3K => 110,
            GGMLType::Q4K => 144,
            GGMLType::Q5K => 176,
            GGMLType::Q6K => 210,
            GGMLType::Q8K => 292,
            GGMLType::IQ2XXS => 66,
            GGMLType::IQ2XS => 74,
            GGMLType::IQ2S => 82,
            GGMLType::IQ3XXS => 98,
            GGMLType::IQ3S => 110,
            GGMLType::IQ1S => 50,
            GGMLType::IQ1M => 56,
            GGMLType::IQ4NL => 18,
            GGMLType::IQ4XS => 18,
        }
    }

    /// Number of blocks needed for `n_elements` elements (rounded up).
    pub open spec fn spec_n_blocks(self, n_elements: u64) -> int {
        (n_elements + self.spec_block_size() - 1) / (self.spec_block_size() as int)
    }

    /// Byte size of a tensor of `n_elements` elements, as a mathematical integer.
    pub open spec fn spec_byte_size(self, n_elements: u64) -> int {
        self.spec_n_blocks(n_elements) * self.spec_type_size()
    }

    /// The checked computation: `None` where rounding up the element count or
    /// multiplying by the block size leaves the `u64` range.
    pub open spec fn spec_byte_size_checked(self, n_elements: u64) -> Option<u64> {
        if n_elements + self.spec_block_size() - 1 > u64::MAX {
            None
        } else if self.spec_byte_size(n_elements) > u64::MAX {
            None
        } else {
            Some(self.spec_byte_size(n_elements) as u64)
        }
    }

    /// The type named by an integer tag, if any.
    pub open spec fn spec_from_u32(v: u32) -> Option<GGMLType> {
        if Self::is_known_tag(v) {
            Some(choose|t: GGMLType| t.tag() == v)
        } else {
            None
        }
    }

    /// The integer tag that stands for this type in a GGUF file.
    pub fn type_tag(self) -> (r: u32)
        ensures
            r == self.tag(),
    {
        match self {
            GGMLType::F32 => 0,
            GGMLType::F16 => 1,
            GGMLType::Q4_0 => 2,
            GGMLType::Q4_1 => 3,
            GGMLType::Q5_0 => 6,
            GGMLType::Q5_1 => 7,
            GGMLType::Q8_0 => 8,
            GGMLType::Q8_1 => 9,
            GGMLType::Q2K => 10,
            GGMLType::Q3K => 11,
            GGMLType::Q4K => 12,
            GGMLType::Q5K => 13,
            GGMLType::Q6K => 14,
            GGMLType::Q8K => 15,
            GGMLType::IQ2XXS => 16,
            GGMLType::IQ2XS => 17,
            GGMLType::IQ3XXS => 18,
            GGMLType::IQ1S => 19,
            GGMLType::IQ4NL => 20,
            GGMLType::IQ3S => 21,
            GGMLType::IQ2S => 22,
            GGMLType::IQ4XS => 23,
            GGMLType::I8 => 24,
            GGMLType::I16 => 25,
            GGMLType::I32 => 26,
            GGMLType::I64 => 27,
            GGMLType::F64 => 28,
            GGMLType::IQ1M => 29,
            GGMLType::BF16 => 30,
        }
    }

    /// Parse a GGML type from its integer tag.
    pub fn from_u32(v: u32) -> (r: Option<Self>)
        ensures
            r == Self::spec_from_u32(v),
            r is Some <==> Self::is_known_tag(v),
            r matches Some(t) ==> t.tag() == v,
    {
        let r = match v {
            0 => Some(GGMLType::F32),
            1 => Some(GGMLType::F16),
            2 => Some(GGMLType::Q4_0),
            3 => Some(GGMLType::Q4_1),
            6 => Some(GGMLType::Q5_0),
            7 => Some(GGMLType::Q5_1),
            8 => Some(GGMLType::Q8_0),
            9 => Some(GGMLType::Q8_1),
            10 => Some(GGMLType::Q2K),
            11 => Some(GGMLType::Q3K),
            12 => Some(GGMLType::Q4K),
            13 => Some(GGMLType::Q5K),
            14 => Some(GGMLType::Q6K),
            15 => Some(GGMLType::Q8K),
            16 => Some(GGMLType::IQ2XXS),
            17 => Some(GGMLType::IQ2XS),
            18 => Some(GGMLType::IQ3XXS),
            19 => Some(GGMLType::IQ1S),
            20 => Some(GGMLType::IQ4NL),
            21 => Some(GGMLType::IQ3S),
            22 => Some(GGMLType::IQ2S),
            23 => Some(GGMLType::IQ4XS),
            24 => Some(GGMLType::I8),
            25 => Some(GGMLType::I16),
            26 => Some(GGMLType::I32),
            27 => Some(GGMLType::I64),
            28 => Some(GGMLType::F64),
            29 => Some(GGMLType::IQ1M),
            30 => Some(GGMLType::BF16),
            _ => None,
        };
        proof {
            lemma_tag_injective();
            if let Some(t) = r {
                assert(t.tag() == v);
            }
        }
        r
    }

    /// Block size for this type (number of elements per block).
    pub fn block_size(self) -> (r: u64)
        ensures
            r == self.spec_block_size(),
    {
        match self {
            GGMLType::F32 | GGMLType::F16 | GGMLType::BF16 | GGMLType::F64 => 1,
            GGMLType::I8 | GGMLType::I16 | GGMLType::I32 | GGMLType::I64 => 1,
            GGMLType::Q4_0 | GGMLType::Q4_1 | GGMLType::Q5_0 | GGMLType::Q5_1 => 32,
            GGMLType::Q8_0 | GGMLType::Q8_1 => 32,
            GGMLType::Q2K | GGMLType::Q3K | GGMLType::Q4K | GGMLType::Q5K | GGMLType::Q6K
            | GGMLType::Q8K => 256,
            GGMLType::IQ2XXS | GGMLType::IQ2XS | GGMLType::IQ2S => 256,
            GGMLType::IQ3XXS | GGMLType::IQ3S => 256,
            GGMLType::IQ1S | GGMLType::IQ1M => 256,
            GGMLType::IQ4NL | GGMLType::IQ4XS => 32,
        }
    }

    /// Bytes per block for this type.
    pub fn type_size(self) -> (r: u64)
        ensures
            r == self.spec_type_size(),
    {
        match self {
            GGMLType::F32 => 4,
            GGMLType::F16 => 2,
            GGMLType::BF16 => 2,
            GGMLType::F64 => 8,
            GGMLType::I8 => 1,
            GGMLType::I16 => 2,
            GGMLType::I32 => 4,
            GGMLType::I64 => 8,
            GGMLType::Q4_0 => 18,
            GGMLType::Q4_1 => 20,
            GGMLType::Q5_0 => 22,
            GGMLType::Q5_1 => 24,
            GGMLType::Q8_0 => 34,
            GGMLType::Q8_1 => 36,
            GGMLType::Q2K => 84,
            GGMLType::Q3K => 110,
            GGMLType::Q4K => 144,
            GGMLType::Q5K => 176,
            GGMLType::Q6K => 210,
            GGMLType::Q8K => 292,
            GGMLType::IQ2XXS => 66,
            GGMLType::IQ2XS => 74,
            GGMLType::IQ2S => 82,
            GGMLType::IQ3XXS => 98,
            GGMLType::IQ3S => 110,
            GGMLType::IQ1S => 50,
            GGMLType::IQ1M => 56,
            GGMLType::IQ4NL => 18,
            GGMLType::IQ4XS => 18,
        }
    }

    /// Byte size of a tensor with the given number of elements; `u64::MAX`
    /// where the checked computation overflows.
    pub fn tensor_byte_size(self, n_elements: u64) -> (r: u64)
        ensures
            r == match self.spec_byte_size_checked(n_elements) {
                Some(b) => b,
                None => u64::MAX,
            },
    {
        match self.tensor_byte_size_checked(n_elements) {
            Some(b) => b,
            None => u64::MAX,
        }
    }

    /// Byte size with checked arithmetic: `None` on overflow.
    pub fn tensor_byte_size_checked(self, n_elements: u64) -> (r: Option<u64>)
        ensures
            r == self.spec_byte_size_checked(n_elements),
    {
        let block_size = self.block_size();
        let rounded = match n_elements.checked_add(block_size - 1) {
            Some(x) => x,
            None => return None,
        };
        let n_blocks = rounded / block_size;
        n_blocks.checked_mul(self.type_size())
    }
}

/// The storage geometry of each type, from the layout of its block in
/// ggml: plain types store one element of their width per block; the
/// quantised types store, per block of 32 elements (or of 256 for the
/// k-quants and most i-quants), their packed quants and bit planes beside
/// their half-precision scales (2 bytes each) and packed sub-block scales.
pub proof fn lemma_block_layouts()
    ensures
        GGMLType::F32.spec_block_size() == 1int && GGMLType::F32.spec_type_size() == 32int / 8int,
        GGMLType::F16.spec_block_size() == 1int && GGMLType::F16.spec_type_size() == 16int / 8int,
        GGMLType::BF16.spec_block_size() == 1int && GGMLType::BF16.spec_type_size() == 16int / 8int,
        GGMLType::F64.spec_block_size() == 1int && GGMLType::F64.spec_type_size() == 64int / 8int,
        GGMLType::I8.spec_block_size() == 1int && GGMLType::I8.spec_type_size() == 8int / 8int,
        GGMLType::I16.spec_block_size() == 1int && GGMLType::I16.spec_type_size() == 16int / 8int,
        GGMLType::I32.spec_block_size() == 1int && GGMLType::I32.spec_type_size() == 32int / 8int,
        GGMLType::I64.spec_block_size() == 1int && GGMLType::I64.spec_type_size() == 64int / 8int,
        // scale d, then 32 four-bit quants
        GGMLType::Q4_0.spec_block_size() == 32int && GGMLType::Q4_0.spec_type_size() == 2int + 32int * 4int / 8int,
        // scale d and min m, then 32 four-bit quants
        GGMLType::Q4_1.spec_block_size() == 32int && GGMLType::Q4_1.spec_type_size() == 2int * 2int + 32int * 4int / 8int,
        // scale d, the 32 fifth bits, then 32 four-bit quants
        GGMLType::Q5_0.spec_block_size() == 32int && GGMLType::Q5_0.spec_type_size() == 2int + 32int / 8int + 32int * 4int / 8int,
        // scale d and min m, the 32 fifth bits, then 32 four-bit quants
        GGMLType::Q5_1.spec_block_size() == 32int && GGMLType::Q5_1.spec_type_size() == 2int * 2int + 32int / 8int + 32int * 4int
            / 8int,
        // scale d, then 32 eight-bit quants
        GGMLType::Q8_0.spec_block_size() == 32int && GGMLType::Q8_0.spec_type_size() == 2int + 32int,
        // scale d and sum s, then 32 eight-bit quants
        GGMLType::Q8_1.spec_block_size() == 32int && GGMLType::Q8_1.spec_type_size() == 2int * 2int + 32int,
        // 16 four-bit scale/min pairs, 256 two-bit quants, d and dmin
        GGMLType::Q2K.spec_block_size() == 256int && GGMLType::Q2K.spec_type_size() == 256int / 16int + 256int * 2int / 8int
            + 2int * 2int,
        // 256 high bits, 256 two-bit low quants, 12 bytes of six-bit scales, d
        GGMLType::Q3K.spec_block_size() == 256int && GGMLType::Q3K.spec_type_size() == 256int / 8int + 256int * 2int / 8int
            + 12int + 2int,
        // d and dmin, 12 bytes of six-bit scales and mins, 256 four-bit quants
        GGMLType::Q4K.spec_block_size() == 256int && GGMLType::Q4K.spec_type_size() == 2int * 2int + 12int + 256int * 4int
            / 8int,
        // d and dmin, 12 bytes of scales and mins, 256 fifth bits, 256 four-bit quants
        GGMLType::Q5K.spec_block_size() == 256int && GGMLType::Q5K.spec_type_size() == 2int * 2int + 12int + 256int / 8int
            + 256int * 4int / 8int,
        // 256 four-bit low quants, 256 two-bit high quants, 16 eight-bit scales, d
        GGMLType::Q6K.spec_block_size() == 256int && GGMLType::Q6K.spec_type_size() == 256int * 4int / 8int + 256int * 2int
            / 8int + 256int / 16int + 2int,
        // a 4-byte float scale, 256 eight-bit quants, 16 sums of 16 (2 bytes each)
        GGMLType::Q8K.spec_block_size() == 256int && GGMLType::Q8K.spec_type_size() == 4int + 256int + 256int / 16int
            * 2int,
        // d, then 256/8 sixteen-bit grid words
        GGMLType::IQ2XXS.spec_block_size() == 256int && GGMLType::IQ2XXS.spec_type_size() == 2int + 256int / 8int * 2int,
        // d, 256/8 sixteen-bit grid words, 256/32 scale bytes
        GGMLType::IQ2XS.spec_block_size() == 256int && GGMLType::IQ2XS.spec_type_size() == 2int + 256int / 8int * 2int
            + 256int / 32int,
        // d, 256/4 quant bytes, 256/32 high bytes, 256/32 scale bytes
        GGMLType::IQ2S.spec_block_size() == 256int && GGMLType::IQ2S.spec_type_size() == 2int + 256int / 4int + 256int
            / 32int + 256int / 32int,
        // d, then 3 * 256/8 bytes of grid indices and signs
        GGMLType::IQ3XXS.spec_block_size() == 256int && GGMLType::IQ3XXS.spec_type_size() == 2int + 3int * 256int / 8int,
        // d, 256/4 quant bytes, 256/32 high bytes, 256/8 sign bytes, 256/64 scale bytes
        GGMLType::IQ3S.spec_block_size() == 256int && GGMLType::IQ3S.spec_type_size() == 2int + 256int / 4int + 256int
            / 32int + 256int / 8int + 256int / 64int,
        // d, 256/8 quant bytes, 256/32 sixteen-bit high words
        GGMLType::IQ1S.spec_block_size() == 256int && GGMLType::IQ1S.spec_type_size() == 2int + 256int / 8int + 256int
            / 32int * 2int,
        // 256/8 quant bytes, 256/16 high bytes, 256/32 scale bytes
        GGMLType::IQ1M.spec_block_size() == 256int && GGMLType::IQ1M.spec_type_size() == 256int / 8int + 256int / 16int
            + 256int / 32int,
        // d, then 32 four-bit quants
        GGMLType::IQ4NL.spec_block_size() == 32int && GGMLType::IQ4NL.spec_type_size() == 2int + 32int * 4int / 8int,
        // sized with the IQ4_NL geometry: d, then 32 four-bit quants
        GGMLType::IQ4XS.spec_block_size() == 32int && GGMLType::IQ4XS.spec_type_size() == 2int + 32int * 4int / 8int,
{
}

/// A tensor of `k` whole blocks takes `k` times the bytes of one block,
/// where that fits in `u64`: e.g. a Q4_K tensor of `256 * k` elements takes
/// `144 * k` bytes.
pub proof fn lemma_whole_blocks_size(t: GGMLType, k: u64)
    requires
        (k + 1) * t.spec_block_size() <= u64::MAX + 1,
        k * t.spec_type_size() <= u64::MAX,
    ensures
        t.spec_byte_size_checked((k * t.spec_block_size()) as u64) == Some((k * t.spec_type_size()) as u64),
        t == GGMLType::Q4K ==> t.spec_byte_size_checked((256 * k) as u64) == Some((144 * k) as u64),
{
    let b = t.spec_block_size() as int;
    assert(b >= 1);
    assert(k * b <= u64::MAX) by (nonlinear_arith)
        requires
            (k + 1) * b <= u64::MAX + 1,
            b >= 1,
    ;
    assert((k * b + b - 1) / b == k) by (nonlinear_arith)
        requires
            b >= 1,
            k >= 0,
    ;
    assert(k * b + b - 1 == (k + 1) * b - 1) by (nonlinear_arith);
    lemma_block_layouts();
}

/// A tensor takes whole blocks: its byte size is `k` blocks' worth, where
/// `k` is the fewest blocks that hold its elements; the checked size is
/// `None` exactly where rounding up or the product leaves `u64`.
pub proof fn lemma_tensor_size_rounds_up(t: GGMLType, n: u64)
    ensures
        n + t.spec_block_size() - 1 > u64::MAX ==> t.spec_byte_size_checked(n) is None,
        n + t.spec_block_size() - 1 <= u64::MAX ==> exists|k: int|
            #![trigger k * t.spec_type_size()]
            0 <= k && (k - 1) * t.spec_block_size() < n <= k * t.spec_block_size() && (if k
                * t.spec_type_size() <= u64::MAX {
                t.spec_byte_size_checked(n) == Some((k * t.spec_type_size()) as u64)
            } else {
                t.spec_byte_size_checked(n) is None
            }),
{
    let b = t.spec_block_size() as int;
    lemma_block_layouts();
    if n + b - 1 <= u64::MAX {
        let k = (n + b - 1) / b;
        assert(0 <= k && (k - 1) * b < n <= k * b) by (nonlinear_arith)
            requires
                b >= 1,
                n >= 0,
                k == (n + b - 1) / b,
        ;
        assert(t.spec_n_blocks(n) == k);
        assert(k * t.spec_type_size() == t.spec_byte_size(n));
    }
}

/// Distinct types have distinct tags.
pub proof fn lemma_tag_injective()
    ensures
        forall|a: GGMLType, b: GGMLType| #[trigger] a.tag() == #[trigger] b.tag() ==> a == b,
{
}

/// The tag of a type names that type again, and every known tag names a type.
pub proof fn lemma_tag_round_trip(t: GGMLType, v: u32)
    ensures
        GGMLType::spec_from_u32(t.tag()) == Some(t),
        GGMLType::is_known_tag(v) ==> (GGMLType::spec_from_u32(v) matches Some(u) && u.tag() == v),
{
    lemma_tag_injective();
    if GGMLType::is_known_tag(v) {
        let w = if v == 0 { GGMLType::F32 } else if v == 1 { GGMLType::F16 } else if v == 2 {
            GGMLType::Q4_0 } else if v == 3 { GGMLType::Q4_1 } else if v == 6 { GGMLType::Q5_0
        } else if v == 7 { GGMLType::Q5_1 } else if v == 8 { GGMLType::Q8_0 } else if v == 9 {
            GGMLType::Q8_1 } else if v == 10 { GGMLType::Q2K } else if v == 11 { GGMLType::Q3K
        } else if v == 12 { GGMLType::Q4K } else if v == 13 { GGMLType::Q5K } else if v == 14 {
            GGMLType::Q6K } else if v == 15 { GGMLType::Q8K } else if v == 16 { GGMLType::IQ2XXS
        } else if v == 17 { GGMLType::IQ2XS } else if v == 18 { GGMLType::IQ3XXS } else if v
            == 19 { GGMLType::IQ1S } else if v == 20 { GGMLType::IQ4NL } else if v == 21 {
            GGMLType::IQ3S } else if v == 22 { GGMLType::IQ2S } else if v == 23 { GGMLType::IQ4XS
        } else if v == 24 { GGMLType::I8 } else if v == 25 { GGMLType::I16 } else if v == 26 {
            GGMLType::I32 } else if v == 27 { GGMLType::I64 } else if v == 28 { GGMLType::F64
        } else if v == 29 { GGMLType::IQ1M } else { GGMLType::BF16 };
        assert(w.tag() == v);
    }
    assert(t.tag() == t.tag());
}

} // verus!
