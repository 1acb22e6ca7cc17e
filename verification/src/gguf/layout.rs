//! Logical layer groups of a GGUF model, in inference order.
use vstd::prelude::*;
use crate::gguf::GgufError;
use crate::gguf::metadata::{meta_view, spec_as_u64, MetaView, MetadataValue};
use crate::strmap::StrMap;
use crate::gguf::tensor_info::{tensor_views, TensorInfo, TensorView};
use crate::order::{is_stable_order, lemma_stable_order_covers, lists, stable_order};
use crate::text::{
    chars_eq_str, chars_of, decimal_string, find_char, first_from, parse_u32, spec_decimal,
    spec_parse_u32, starts_with,
};

verus! {

/// The logical kind of a layer group.
#[derive(Debug, PartialEq, Eq, PartialOrd, Ord)]
pub enum LayerKind {
    /// Token embedding table: accessed first during inference.
    TokenEmbedding,
    /// A transformer block (attention + FFN). Index is the block number.
    TransformerBlock(u32),
    /// Output normalization layer.
    OutputNorm,
    /// Output projection / language model head.
    OutputHead,
    /// Anything that doesn't match known patterns.
    Other(String),
}

/// The mathematical value of a layer kind.
pub enum KindView {
    TokenEmbedding,
    TransformerBlock(u32),
    OutputNorm,
    OutputHead,
    Other(Seq<char>),
}

impl LayerKind {
    pub open spec fn kv(&self) -> KindView {
        match self {
            LayerKind::TokenEmbedding => KindView::TokenEmbedding,
            LayerKind::TransformerBlock(n) => KindView::TransformerBlock(*n),
            LayerKind::OutputNorm => KindView::OutputNorm,
            LayerKind::OutputHead => KindView::OutputHead,
            LayerKind::Other(s) => KindView::Other(s@),
        }
    }

    /// The inference execution order: lower values are accessed first.
    pub fn sort_key(&self) -> (r: (u32, u32))
        ensures
            r == spec_sort_key(self.kv()),
    {
        match self {
            LayerKind::TokenEmbedding => (0, 0),
            LayerKind::TransformerBlock(n) => (1, *n),
            LayerKind::OutputNorm => (2, 0),
            LayerKind::OutputHead => (3, 0),
            LayerKind::Other(_) => (4, 0),
        }
    }

    /// The display name: `token_embedding`, `block.N`, `output_norm`,
    /// `output_head` or `other(NAME)`.
    pub fn to_string(&self) -> (r: String)
        ensures
            r@ == spec_kind_name(self.kv()),
    {
        match self {
            LayerKind::TokenEmbedding => "token_embedding".to_owned(),
            LayerKind::TransformerBlock(n) => {
                let mut s = "block.".to_owned();
                let d = decimal_string(*n as u64);
                s.append(d.as_str());
                s
            },
            LayerKind::OutputNorm => "output_norm".to_owned(),
            LayerKind::OutputHead => "output_head".to_owned(),
            LayerKind::Other(name) => {
                let mut s = "other(".to_owned();
                s.append(name.as_str());
                s.append(")");
                s
            },
        }
    }

    /// Whether two kinds are the same.
    pub fn same(&self, other: &LayerKind) -> (r: bool)
        ensures
            r == (self.kv() == other.kv()),
    {
        match (self, other) {
            (LayerKind::TokenEmbedding, LayerKind::TokenEmbedding) => true,
            (LayerKind::TransformerBlock(a), LayerKind::TransformerBlock(b)) => *a == *b,
            (LayerKind::OutputNorm, LayerKind::OutputNorm) => true,
            (LayerKind::OutputHead, LayerKind::OutputHead) => true,
            (LayerKind::Other(a), LayerKind::Other(b)) => *a == *b,
            _ => false,
        }
    }
}

pub open spec fn spec_sort_key(k: KindView) -> (u32, u32) {
    match k {
        KindView::TokenEmbedding => (0, 0),
        KindView::TransformerBlock(n) => (1, n),
        KindView::OutputNorm => (2, 0),
        KindView::OutputHead => (3, 0),
        KindView::Other(_) => (4, 0),
    }
}

/// The sort key as one integer, ordered as the key pairs are, lexicographically.
pub open spec fn key64(k: (u32, u32)) -> u64 {
    (k.0 * 4294967296 + k.1) as u64
}

pub open spec fn spec_kind_name(k: KindView) -> Seq<char> {
    match k {
        KindView::TokenEmbedding => "token_embedding"@,
        KindView::TransformerBlock(n) => "block."@ + spec_decimal(n as nat),
        KindView::OutputNorm => "output_norm"@,
        KindView::OutputHead => "output_head"@,
        KindView::Other(name) => "other("@ + name + ")"@,
    }
}

/// The block number of a name `blk.N.REST`, where `N` is what
/// `str::parse::<u32>` accepts.
pub open spec fn block_index(n: Seq<char>) -> Option<u32> {
    if n.len() >= 4 && n.take(4) == "blk."@ {
        let rest = n.skip(4);
        match first_from(rest, '.', 0) {
            Some(k) => spec_parse_u32(rest.take(k)),
            None => None,
        }
    } else {
        None
    }
}

/// The logical layer kind of a tensor name.
pub open spec fn spec_classify(n: Seq<char>) -> KindView {
    if n == "token_embd.weight"@ || n == "token_embd.bias"@ {
        KindView::TokenEmbedding
    } else if block_index(n) is Some {
        KindView::TransformerBlock(block_index(n)->Some_0)
    } else if n == "output_norm.weight"@ || n == "output_norm.bias"@ {
        KindView::OutputNorm
    } else if n == "output.weight"@ || n == "output.bias"@ {
        KindView::OutputHead
    } else {
        KindView::Other(n)
    }
}

#[verifier::rlimit(30)]
fn block_index_of(v: &Vec<char>) -> (r: Option<u32>)
    ensures
        r == block_index(v@),
{
    let prefix = chars_of("blk.");
    proof {
        reveal_strlit("blk.");
    }
    if !starts_with(v, &prefix) {
        return None;
    }
    let ghost rest = v@.skip(4);
    match find_char(v, '.', 4) {
        Some(k) => {
            proof {
                assert(first_from(rest, '.', 0) == Some((k - 4) as int)) by {
                    assert(forall|j: int| 0 <= j < rest.len() ==> rest[j] == v@[j + 4]);
                    let w = choose|w: int| 0 <= w < rest.len() && rest[w] == '.' && forall|j: int|
                        0 <= j < w ==> rest[j] != '.';
                    assert(rest[k - 4] == '.');
                    assert(forall|j: int| 0 <= j < k - 4 ==> rest[j] != '.') by {
                        assert(forall|j: int| 4 <= j < k ==> v@[j] != '.');
                    }
                    if w < k - 4 {
                        assert(v@[w + 4] == '.');
                    } else if w > k - 4 {
                        assert(rest[k - 4] != '.');
                    }
                }
                assert(rest.take(k - 4) =~= v@.subrange(4, k as int));
            }
            parse_u32(v, 4, k)
        },
        None => {
            proof {
                assert forall|j: int| 0 <= j < rest.len() implies rest[j] != '.' by {
                    assert(rest[j] == v@[j + 4]);
                }
            }
            None
        },
    }
}

/// Classify a tensor name into its logical layer kind.
pub fn classify_tensor(name: &str) -> (r: LayerKind)
    ensures
        r.kv() == spec_classify(name@),
{
    let v = chars_of(name);
    if chars_eq_str(&v, "token_embd.weight") || chars_eq_str(&v, "token_embd.bias") {
        return LayerKind::TokenEmbedding;
    }
    if let Some(b) = block_index_of(&v) {
        return LayerKind::TransformerBlock(b);
    }
    if chars_eq_str(&v, "output_norm.weight") || chars_eq_str(&v, "output_norm.bias") {
        return LayerKind::OutputNorm;
    }
    if chars_eq_str(&v, "output.weight") || chars_eq_str(&v, "output.bias") {
        return LayerKind::OutputHead;
    }
    LayerKind::Other(name.to_owned())
}

/// A group of tensors that belong to the same logical layer.
#[derive(Debug)]
pub struct LayerGroup {
    /// What kind of layer this is.
    pub kind: LayerKind,
    /// Indices into `ModelLayout::tensors`.
    pub tensor_indices: Vec<usize>,
    /// Start byte offset in the file (absolute).
    pub file_offset_start: u64,
    /// End byte offset in the file (absolute, exclusive).
    pub file_offset_end: u64,
    /// Total bytes for this layer group.
    pub total_bytes: u64,
}

/// The layer kind of tensor `j`.
pub open spec fn tensor_kind(ts: Seq<TensorView>, j: int) -> KindView {
    spec_classify(ts[j].name)
}

/// The positions below `m` of the tensors of kind `k`, in ascending order.
pub open spec fn kind_indices(ts: Seq<TensorView>, k: KindView, m: nat) -> Seq<usize>
    decreases m,
{
    if m == 0 {
        Seq::empty()
    } else {
        let prev = kind_indices(ts, k, (m - 1) as nat);
        if tensor_kind(ts, m - 1) == k {
            prev.push((m - 1) as usize)
        } else {
            prev
        }
    }
}

/// Tensor `j` is the first of its kind.
pub open spec fn is_first_of_kind(ts: Seq<TensorView>, j: int) -> bool {
    forall|i: int| 0 <= i < j ==> tensor_kind(ts, i) != tensor_kind(ts, j)
}

/// The positions below `m` that hold the first tensor of their kind, ascending.
pub open spec fn first_indices(ts: Seq<TensorView>, m: nat) -> Seq<usize>
    decreases m,
{
    if m == 0 {
        Seq::empty()
    } else {
        let prev = first_indices(ts, (m - 1) as nat);
        if is_first_of_kind(ts, m - 1) {
            prev.push((m - 1) as usize)
        } else {
            prev
        }
    }
}

/// The lowest absolute start offset of the tensors at `idx` (`u64::MAX` if none).
pub open spec fn span_start(ts: Seq<TensorView>, tdo: u64, idx: Seq<usize>) -> int
    decreases idx.len(),
{
    if idx.len() == 0 {
        u64::MAX as int
    } else {
        let s = span_start(ts, tdo, idx.drop_last());
        let x = tdo + ts[idx.last() as int].offset;
        if x < s { x } else { s }
    }
}

/// The highest absolute end offset of the tensors at `idx` (0 if none).
pub open spec fn span_end(ts: Seq<TensorView>, tdo: u64, idx: Seq<usize>) -> int
    decreases idx.len(),
{
    if idx.len() == 0 {
        0
    } else {
        let s = span_end(ts, tdo, idx.drop_last());
        let x = tdo + ts[idx.last() as int].offset + ts[idx.last() as int].byte_size;
        if x > s { x } else { s }
    }
}

/// The total byte size of the tensors at `idx`.
pub open spec fn span_total(ts: Seq<TensorView>, idx: Seq<usize>) -> int
    decreases idx.len(),
{
    if idx.len() == 0 {
        0
    } else {
        span_total(ts, idx.drop_last()) + ts[idx.last() as int].byte_size
    }
}

/// `g` is the group of the kind of tensor `f`.
pub open spec fn group_matches(ts: Seq<TensorView>, tdo: u64, g: LayerGroup, f: usize) -> bool {
    &&& g.kind.kv() == tensor_kind(ts, f as int)
    &&& g.tensor_indices@ == kind_indices(ts, tensor_kind(ts, f as int), ts.len())
    &&& g.file_offset_start == span_start(ts, tdo, g.tensor_indices@)
    &&& g.file_offset_end == span_end(ts, tdo, g.tensor_indices@)
    &&& g.total_bytes == span_total(ts, g.tensor_indices@)
}

/// The sort keys of the kinds of the tensors at `firsts`.
pub open spec fn group_keys(ts: Seq<TensorView>, firsts: Seq<usize>) -> Seq<u64> {
    Seq::new(firsts.len(), |i: int| key64(spec_sort_key(tensor_kind(ts, firsts[i] as int))))
}

/// `gs` holds one group per kind present among the tensors, in inference
/// order (by sort key, and kinds with equal keys by first appearance).
pub open spec fn groups_of(ts: Seq<TensorView>, tdo: u64, gs: Seq<LayerGroup>) -> bool {
    let firsts = first_indices(ts, ts.len());
    &&& gs.len() == firsts.len()
    &&& exists|p: Seq<usize>|
        is_stable_order(group_keys(ts, firsts), p) && forall|i: int|
            0 <= i < gs.len() ==> #[trigger] group_matches(ts, tdo, gs[i], firsts[p[i] as int])
}

/// Computing the groups' byte ranges overflows `u64`: some tensor ends past
/// `u64::MAX`, or some kind's total size exceeds it.
pub open spec fn layout_overflows(ts: Seq<TensorView>, tdo: u64) -> bool {
    exists|j: int|
        0 <= j < ts.len() && (tdo + ts[j].offset + ts[j].byte_size > u64::MAX || span_total(
            ts,
            kind_indices(ts, #[trigger] tensor_kind(ts, j), ts.len()),
        ) > u64::MAX)
}

/// Tensor `j` ends within the `u64` range.
pub open spec fn tensor_fits(ts: Seq<TensorView>, tdo: u64, j: int) -> bool {
    tdo + ts[j].offset + ts[j].byte_size <= u64::MAX
}

proof fn lemma_span_total_prefix(ts: Seq<TensorView>, idx: Seq<usize>, t: int)
    requires
        0 <= t <= idx.len(),
    ensures
        span_total(ts, idx.take(t)) <= span_total(ts, idx),
        span_total(ts, idx) >= 0,
    decreases idx.len(),
{
    if idx.len() > 0 {
        if t < idx.len() {
            assert(idx.drop_last().take(t) =~= idx.take(t));
            lemma_span_total_prefix(ts, idx.drop_last(), t);
        } else {
            assert(idx.take(t) =~= idx);
            lemma_span_total_prefix(ts, idx.drop_last(), 0);
        }
    } else {
        assert(idx.take(t) =~= idx);
    }
}

/// Some tensor listed in `firsts` has kind `k`.
pub open spec fn covered(ts: Seq<TensorView>, firsts: Seq<usize>, k: KindView) -> bool {
    exists|t: int| 0 <= t < firsts.len() && tensor_kind(ts, firsts[t] as int) == k
}

/// The first tensors of their kinds below `m` lie below `m`, and every
/// kind present below `m` has one among them.
pub proof fn lemma_first_indices(ts: Seq<TensorView>, m: nat)
    requires
        m <= ts.len() <= usize::MAX,
    ensures
        forall|t: int| 0 <= t < first_indices(ts, m).len() ==> #[trigger] first_indices(ts, m)[t] < m,
        forall|j: int| 0 <= j < m ==> #[trigger] covered(ts, first_indices(ts, m), tensor_kind(ts, j)),
    decreases m,
{
    if m > 0 {
        lemma_first_indices(ts, (m - 1) as nat);
        let prev = first_indices(ts, (m - 1) as nat);
        let cur = first_indices(ts, m);
        assert(forall|t: int| 0 <= t < prev.len() ==> cur[t] == prev[t]);
        assert forall|j: int| 0 <= j < m implies #[trigger] covered(ts, cur, tensor_kind(ts, j)) by {
            if j < m - 1 {
                assert(covered(ts, prev, tensor_kind(ts, j)));
                let t = choose|t: int| 0 <= t < prev.len() && tensor_kind(ts, prev[t] as int)
                    == tensor_kind(ts, j);
                assert(cur[t] == prev[t]);
            } else if is_first_of_kind(ts, m - 1) {
                assert(cur[prev.len() as int] == m - 1);
            } else {
                let i = choose|i: int| 0 <= i < m - 1 && #[trigger] tensor_kind(ts, i) == tensor_kind(ts, m - 1);
                assert(covered(ts, prev, tensor_kind(ts, i)));
                let t = choose|t: int| 0 <= t < prev.len() && tensor_kind(ts, prev[t] as int)
                    == tensor_kind(ts, i);
                assert(cur[t] == prev[t]);
            }
        }
    }
}

/// The byte range and total size of the tensors at `idx`, or `None` where
/// the total leaves the `u64` range.
fn group_span(tensors: &Vec<TensorInfo>, tdo: u64, idx: &Vec<usize>) -> (r: Option<(u64, u64, u64)>)
    requires
        forall|t: int| 0 <= t < idx@.len() ==> #[trigger] idx@[t] < tensors@.len(),
        forall|j: int|
            0 <= j < tensors@.len() ==> #[trigger] tensor_fits(tensor_views(tensors@), tdo, j),
    ensures
        match r {
            Some((a, b, c)) => a == span_start(tensor_views(tensors@), tdo, idx@) && b == span_end(
                tensor_views(tensors@),
                tdo,
                idx@,
            ) && c == span_total(tensor_views(tensors@), idx@),
            None => span_total(tensor_views(tensors@), idx@) > u64::MAX,
        },
{
    let ghost ts = tensor_views(tensors@);
    let mut start: u64 = u64::MAX;
    let mut end: u64 = 0;
    let mut total: u64 = 0;
    let mut t: usize = 0;
    while t < idx.len()
        invariant
            t <= idx@.len(),
            ts == tensor_views(tensors@),
            forall|u: int| 0 <= u < idx@.len() ==> #[trigger] idx@[u] < tensors@.len(),
            forall|j: int| 0 <= j < tensors@.len() ==> #[trigger] tensor_fits(ts, tdo, j),
            start == span_start(ts, tdo, idx@.take(t as int)),
            end == span_end(ts, tdo, idx@.take(t as int)),
            total == span_total(ts, idx@.take(t as int)),
        decreases idx@.len() - t,
    {
        let j = idx[t];
        proof {
            assert(idx@.take(t + 1).drop_last() =~= idx@.take(t as int));
            assert(tensor_fits(ts, tdo, j as int));
        }
        let a = tdo + tensors[j].offset;
        let b = a + tensors[j].byte_size;
        if a < start {
            start = a;
        }
        if b > end {
            end = b;
        }
        match total.checked_add(tensors[j].byte_size) {
            Some(x) => {
                total = x;
            },
            None => {
                proof {
                    lemma_span_total_prefix(ts, idx@, t + 1);
                }
                return None;
            },
        }
        t += 1;
    }
    proof {
        assert(idx@.take(t as int) =~= idx@);
    }
    Some((start, end, total))
}

/// Whether every tensor ends within the `u64` range.
fn all_fit(tensors: &Vec<TensorInfo>, tdo: u64) -> (r: bool)
    ensures
        r == forall|j: int| 0 <= j < tensors@.len() ==> #[trigger] tensor_fits(tensor_views(tensors@), tdo, j),
        !r ==> layout_overflows(tensor_views(tensors@), tdo),
{
    let ghost ts = tensor_views(tensors@);
    let n = tensors.len();
    let mut j: usize = 0;
    while j < n
        invariant
            j <= n == tensors@.len(),
            ts == tensor_views(tensors@),
            forall|i: int| 0 <= i < j ==> #[trigger] tensor_fits(ts, tdo, i),
        decreases n - j,
    {
        proof {
            assert(ts[j as int] == tensors@[j as int].tv());
        }
        let a = match tdo.checked_add(tensors[j].offset) {
            Some(a) => a,
            None => {
                proof {
                    assert(!tensor_fits(ts, tdo, j as int));
                    assert(tdo + ts[j as int].offset + ts[j as int].byte_size > u64::MAX);
                    assert(0 <= j < ts.len() && (tdo + ts[j as int].offset + ts[j as int].byte_size
                        > u64::MAX || span_total(ts, kind_indices(ts, tensor_kind(ts, j as int), ts.len()))
                        > u64::MAX));
                }
                return false;
            },
        };
        if a.checked_add(tensors[j].byte_size).is_none() {
            proof {
                assert(!tensor_fits(ts, tdo, j as int));
                assert(tdo + ts[j as int].offset + ts[j as int].byte_size > u64::MAX);
                assert(0 <= j < ts.len() && (tdo + ts[j as int].offset + ts[j as int].byte_size
                    > u64::MAX || span_total(ts, kind_indices(ts, tensor_kind(ts, j as int), ts.len()))
                    > u64::MAX));
            }
            return false;
        }
        j += 1;
    }
    true
}

/// The layer kind of every tensor.
fn tensor_kinds(tensors: &Vec<TensorInfo>) -> (kinds: Vec<LayerKind>)
    ensures
        kinds@.len() == tensors@.len(),
        forall|i: int| 0 <= i < tensors@.len() ==> #[trigger] kinds@[i].kv() == tensor_kind(tensor_views(tensors@), i),
{
    let ghost ts = tensor_views(tensors@);
    let n = tensors.len();
    let mut kinds: Vec<LayerKind> = Vec::new();
    let mut j: usize = 0;
    while j < n
        invariant
            j <= n == tensors@.len(),
            ts == tensor_views(tensors@),
            kinds@.len() == j,
            forall|i: int| 0 <= i < j ==> #[trigger] kinds@[i].kv() == tensor_kind(ts, i),
        decreases n - j,
    {
        kinds.push(classify_tensor(tensors[j].name.as_str()));
        j += 1;
    }
    kinds
}

/// The position of the first tensor of each kind, ascending.
fn first_of_kinds(tensors: &Vec<TensorInfo>, kinds: &Vec<LayerKind>) -> (firsts: Vec<usize>)
    requires
        kinds@.len() == tensors@.len(),
        forall|i: int| 0 <= i < tensors@.len() ==> #[trigger] kinds@[i].kv() == tensor_kind(tensor_views(tensors@), i),
    ensures
        firsts@ == first_indices(tensor_views(tensors@), tensors@.len()),
{
    let ghost ts = tensor_views(tensors@);
    let n = tensors.len();
    let mut firsts: Vec<usize> = Vec::new();
    let mut j: usize = 0;
    while j < n
        invariant
            j <= n == tensors@.len(),
            ts == tensor_views(tensors@),
            kinds@.len() == n,
            forall|i: int| 0 <= i < n ==> #[trigger] kinds@[i].kv() == tensor_kind(ts, i),
            firsts@ == first_indices(ts, j as nat),
        decreases n - j,
    {
        proof {
            lemma_first_indices(ts, j as nat);
        }
        let mut found = false;
        let mut t: usize = 0;
        while t < firsts.len()
            invariant
                j < n == tensors@.len(),
                kinds@.len() == n,
                t <= firsts@.len(),
                forall|u: int| 0 <= u < firsts@.len() ==> #[trigger] firsts@[u] < j,
                forall|i: int| 0 <= i < n ==> #[trigger] kinds@[i].kv() == tensor_kind(ts, i),
                found ==> covered(ts, firsts@, tensor_kind(ts, j as int)),
                !found ==> forall|u: int| 0 <= u < t ==> tensor_kind(ts, #[trigger] firsts@[u] as int)
                    != tensor_kind(ts, j as int),
            decreases firsts@.len() - t,
        {
            if kinds[firsts[t]].same(&kinds[j]) {
                found = true;
            }
            t += 1;
        }
        proof {
            if found {
                let u = choose|u: int| 0 <= u < firsts@.len() && tensor_kind(ts, firsts@[u] as int)
                    == tensor_kind(ts, j as int);
                assert(firsts@[u] < j);
                assert(!is_first_of_kind(ts, j as int));
            } else {
                assert forall|i: int| 0 <= i < j implies tensor_kind(ts, i) != tensor_kind(ts, j as int) by {
                    assert(covered(ts, firsts@, tensor_kind(ts, i)));
                    let u = choose|u: int| 0 <= u < firsts@.len() && tensor_kind(ts, firsts@[u] as int)
                        == tensor_kind(ts, i);
                    assert(tensor_kind(ts, firsts@[u] as int) != tensor_kind(ts, j as int));
                }
            }
        }
        if !found {
            firsts.push(j);
        }
        j += 1;
    }
    firsts
}

/// Group tensors by logical layer, in inference order, with each group's
/// byte range and total size. Where computing those overflows `u64`, the
/// result is `IntegerOverflow`.
#[verifier::rlimit(30)]
pub fn group_tensors(tensors: &Vec<TensorInfo>, tdo: u64) -> (r: Result<Vec<LayerGroup>, GgufError>)
    ensures
        match r {
            Ok(gs) => !layout_overflows(tensor_views(tensors@), tdo) && groups_of(
                tensor_views(tensors@),
                tdo,
                gs@,
            ),
            Err(e) => e == GgufError::IntegerOverflow && layout_overflows(
                tensor_views(tensors@),
                tdo,
            ),
        },
{
    let ghost ts = tensor_views(tensors@);
    let n = tensors.len();
    let n = tensors.len();
    if !all_fit(tensors, tdo) {
        return Err(GgufError::IntegerOverflow);
    }
    let kinds = tensor_kinds(tensors);
    let firsts = first_of_kinds(tensors, &kinds);
    proof {
        lemma_first_indices(ts, n as nat);
    }
    // Order the kinds for inference.
    let mut keys: Vec<u64> = Vec::new();
    let mut t: usize = 0;
    while t < firsts.len()
        invariant
            t <= firsts@.len(),
            n == tensors@.len(),
            kinds@.len() == n,
            firsts@ == first_indices(ts, n as nat),
            forall|u: int| 0 <= u < firsts@.len() ==> #[trigger] firsts@[u] < n,
            forall|i: int| 0 <= i < n ==> #[trigger] kinds@[i].kv() == tensor_kind(ts, i),
            keys@ =~= group_keys(ts, firsts@).take(t as int),
        decreases firsts@.len() - t,
    {
        let (a, b) = kinds[firsts[t]].sort_key();
        keys.push((a as u64) * 4294967296 + (b as u64));
        t += 1;
    }
    proof {
        assert(keys@ =~= group_keys(ts, firsts@));
    }
    let perm = stable_order(&keys);
    proof {
        lemma_stable_order_covers(keys@, perm@);
    }
    // Build the groups in that order.
    let mut groups: Vec<LayerGroup> = Vec::new();
    let mut i: usize = 0;
    while i < perm.len()
        invariant
            i <= perm@.len() == firsts@.len(),
            n == tensors@.len(),
            ts == tensor_views(tensors@),
            kinds@.len() == n,
            firsts@ == first_indices(ts, n as nat),
            forall|u: int| 0 <= u < firsts@.len() ==> #[trigger] firsts@[u] < n,
            forall|x: int| 0 <= x < n ==> #[trigger] kinds@[x].kv() == tensor_kind(ts, x),
            forall|x: int| 0 <= x < n ==> #[trigger] tensor_fits(ts, tdo, x),
            is_stable_order(keys@, perm@),
            keys@ == group_keys(ts, firsts@),
            groups@.len() == i,
            forall|g: int|
                0 <= g < i ==> #[trigger] group_matches(ts, tdo, groups@[g], firsts@[perm@[g] as int]),
        decreases perm@.len() - i,
    {
        let f = firsts[perm[i]];
        let kind = classify_tensor(tensors[f].name.as_str());
        let mut idx: Vec<usize> = Vec::new();
        let mut m: usize = 0;
        while m < n
            invariant
                m <= n == tensors@.len(),
                kinds@.len() == n,
                f < n,
                kind.kv() == tensor_kind(ts, f as int),
                forall|x: int| 0 <= x < n ==> #[trigger] kinds@[x].kv() == tensor_kind(ts, x),
                idx@ == kind_indices(ts, tensor_kind(ts, f as int), m as nat),
                forall|u: int| 0 <= u < idx@.len() ==> #[trigger] idx@[u] < m,
            decreases n - m,
        {
            if kinds[m].same(&kind) {
                idx.push(m);
            }
            m += 1;
        }
        proof {
            assert(ts.len() == n);
        }
        let (start, end, total) = match group_span(tensors, tdo, &idx) {
            Some(x) => x,
            None => {
                proof {
                    assert(tensor_kind(ts, f as int) == tensor_kind(ts, f as int));
                }
                return Err(GgufError::IntegerOverflow);
            },
        };
        groups.push(
            LayerGroup {
                kind,
                tensor_indices: idx,
                file_offset_start: start,
                file_offset_end: end,
                total_bytes: total,
            },
        );
        i += 1;
    }
    proof {
        assert forall|x: int| 0 <= x < n implies !(tdo + ts[x].offset + ts[x].byte_size > u64::MAX
            || span_total(ts, kind_indices(ts, #[trigger] tensor_kind(ts, x), ts.len())) > u64::MAX) by {
            assert(tensor_fits(ts, tdo, x));
            assert(covered(ts, firsts@, tensor_kind(ts, x)));
            let t = choose|t: int| 0 <= t < firsts@.len() && tensor_kind(ts, firsts@[t] as int)
                == tensor_kind(ts, x);
            assert(lists(perm@, t));
            let g = choose|g: int| 0 <= g < perm@.len() && perm@[g] == t;
            assert(group_matches(ts, tdo, groups@[g], firsts@[perm@[g] as int]));
        }
        assert(is_stable_order(group_keys(ts, firsts@), perm@));
    }
    Ok(groups)
}

/// Complete layout of a GGUF model file.
pub struct ModelLayout {
    /// Absolute file offset where tensor data begins.
    pub tensor_data_offset: u64,
    /// All tensor descriptors.
    pub tensors: Vec<TensorInfo>,
    /// Logical layer groups, sorted in inference order.
    pub layer_groups: Vec<LayerGroup>,
    /// Total file size.
    pub file_size: u64,
    /// All metadata key-value pairs from the GGUF header.
    pub metadata: StrMap<MetadataValue>,
    /// Model name from metadata, if available.
    pub model_name: Option<String>,
    /// Architecture name from metadata (e.g., "llama", "mistral").
    pub architecture: Option<String>,
    /// Number of transformer blocks from metadata.
    pub block_count: Option<u64>,
}

/// The characters of an optional string.
pub open spec fn opt_chars(o: Option<String>) -> Option<Seq<char>> {
    match o {
        Some(s) => Some(s@),
        None => None,
    }
}

/// The string stored under `k`, if there is one.
pub open spec fn meta_str(m: Map<Seq<char>, MetaView>, k: Seq<char>) -> Option<Seq<char>> {
    if m.contains_key(k) {
        match m[k] {
            MetaView::String(s) => Some(s),
            _ => None,
        }
    } else {
        None
    }
}

/// The block count: `general.block_count` if that key is present, else
/// `{architecture}.block_count`, as an unsigned integer.
pub open spec fn spec_block_count(m: Map<Seq<char>, MetaView>, arch: Option<Seq<char>>) -> Option<u64> {
    if m.contains_key("general.block_count"@) {
        spec_as_u64(m["general.block_count"@])
    } else {
        match arch {
            Some(a) => if m.contains_key(a + ".block_count"@) {
                spec_as_u64(m[a + ".block_count"@])
            } else {
                None
            },
            None => None,
        }
    }
}

/// The total byte size of all tensors.
pub open spec fn sum_bytes(ts: Seq<TensorView>) -> int
    decreases ts.len(),
{
    if ts.len() == 0 {
        0
    } else {
        sum_bytes(ts.drop_last()) + ts.last().byte_size
    }
}

/// The groups' sort keys.
pub open spec fn layer_keys(gs: Seq<LayerGroup>) -> Seq<u64> {
    Seq::new(gs.len(), |i: int| key64(spec_sort_key(gs[i].kind.kv())))
}

/// A group kept by `first_n_layers(n)`: the embedding and blocks below `n`.
pub open spec fn kept_by_first_n(g: LayerGroup, n: u32) -> bool {
    match g.kind.kv() {
        KindView::TokenEmbedding => true,
        KindView::TransformerBlock(i) => i < n,
        _ => false,
    }
}

/// The positions below `m` of the groups kept by `first_n_layers(n)`, ascending.
pub open spec fn kept_positions(gs: Seq<LayerGroup>, n: u32, m: nat) -> Seq<int>
    decreases m,
{
    if m == 0 {
        Seq::empty()
    } else {
        let prev = kept_positions(gs, n, (m - 1) as nat);
        if kept_by_first_n(gs[m - 1], n) {
            prev.push(m - 1)
        } else {
            prev
        }
    }
}

impl ModelLayout {
    /// `self` is the layout of tensors `ts` with data at `tdo`, in a file of
    /// `file_size` bytes, with metadata `m`.
    pub open spec fn is_layout_of(
        &self,
        ts: Seq<TensorView>,
        tdo: u64,
        file_size: u64,
        m: Map<Seq<char>, MetaView>,
    ) -> bool {
        &&& self.tensor_data_offset == tdo
        &&& tensor_views(self.tensors@) == ts
        &&& groups_of(ts, tdo, self.layer_groups@)
        &&& self.file_size == file_size
        &&& meta_view(self.metadata@) == m
        &&& opt_chars(self.model_name) == meta_str(m, "general.name"@)
        &&& opt_chars(self.architecture) == meta_str(m, "general.architecture"@)
        &&& self.block_count == spec_block_count(m, meta_str(m, "general.architecture"@))
    }

    /// Total bytes of tensor data.
    pub fn total_tensor_bytes(&self) -> (r: u64)
        requires
            sum_bytes(tensor_views(self.tensors@)) <= u64::MAX,
        ensures
            r == sum_bytes(tensor_views(self.tensors@)),
    {
        let ghost ts = tensor_views(self.tensors@);
        let mut total: u64 = 0;
        let mut i: usize = 0;
        proof {
            lemma_sum_bytes_prefix(ts, 0);
        }
        while i < self.tensors.len()
            invariant
                i <= self.tensors@.len(),
                ts == tensor_views(self.tensors@),
                sum_bytes(ts) <= u64::MAX,
                total == sum_bytes(ts.take(i as int)),
            decreases self.tensors@.len() - i,
        {
            proof {
                assert(ts.take(i + 1).drop_last() =~= ts.take(i as int));
                lemma_sum_bytes_prefix(ts, i + 1);
                assert(ts[i as int] == self.tensors@[i as int].tv());
            }
            total = total + self.tensors[i].byte_size;
            i += 1;
        }
        proof {
            assert(ts.take(i as int) =~= ts);
        }
        total
    }

    /// Layer groups sorted in inference execution order (a stable sort by
    /// kind: embedding, blocks by number, output norm, output head, others).
    pub fn inference_ordered_groups(&self) -> (r: Vec<&LayerGroup>)
        ensures
            r@.len() == self.layer_groups@.len(),
            exists|p: Seq<usize>|
                is_stable_order(layer_keys(self.layer_groups@), p) && forall|i: int|
                    0 <= i < r@.len() ==> *r@[i] == self.layer_groups@[#[trigger] p[i] as int],
    {
        let mut keys: Vec<u64> = Vec::new();
        let mut i: usize = 0;
        while i < self.layer_groups.len()
            invariant
                i <= self.layer_groups@.len(),
                keys@ =~= layer_keys(self.layer_groups@).take(i as int),
            decreases self.layer_groups@.len() - i,
        {
            let (a, b) = self.layer_groups[i].kind.sort_key();
            keys.push((a as u64) * 4294967296 + (b as u64));
            i += 1;
        }
        proof {
            assert(keys@ =~= layer_keys(self.layer_groups@));
        }
        let perm = stable_order(&keys);
        let mut r: Vec<&LayerGroup> = Vec::new();
        let mut i: usize = 0;
        while i < perm.len()
            invariant
                i <= perm@.len() == self.layer_groups@.len(),
                is_stable_order(layer_keys(self.layer_groups@), perm@),
                r@.len() == i,
                forall|j: int| 0 <= j < i ==> *r@[j] == self.layer_groups@[#[trigger] perm@[j] as int],
            decreases perm@.len() - i,
        {
            r.push(&self.layer_groups[perm[i]]);
            i += 1;
        }
        r
    }

    /// Only the token embedding and the first `n` transformer blocks, in layout order.
    pub fn first_n_layers(&self, n: u32) -> (r: Vec<&LayerGroup>)
        ensures
            r@.len() == kept_positions(self.layer_groups@, n, self.layer_groups@.len()).len(),
            forall|i: int|
                0 <= i < r@.len() ==> *r@[i] == self.layer_groups@[#[trigger] kept_positions(
                    self.layer_groups@,
                    n,
                    self.layer_groups@.len(),
                )[i]],
    {
        let mut r: Vec<&LayerGroup> = Vec::new();
        let mut i: usize = 0;
        while i < self.layer_groups.len()
            invariant
                i <= self.layer_groups@.len(),
                r@.len() == kept_positions(self.layer_groups@, n, i as nat).len(),
                forall|j: int|
                    0 <= j < r@.len() ==> *r@[j] == self.layer_groups@[#[trigger] kept_positions(
                        self.layer_groups@,
                        n,
                        i as nat,
                    )[j]],
            decreases self.layer_groups@.len() - i,
        {
            let keep = match &self.layer_groups[i].kind {
                LayerKind::TokenEmbedding => true,
                LayerKind::TransformerBlock(idx) => *idx < n,
                _ => false,
            };
            let ghost prev = kept_positions(self.layer_groups@, n, i as nat);
            if keep {
                r.push(&self.layer_groups[i]);
            }
            proof {
                let cur = kept_positions(self.layer_groups@, n, (i + 1) as nat);
                assert(forall|j: int| 0 <= j < prev.len() ==> cur[j] == prev[j]);
            }
            i += 1;
        }
        r
    }
}

proof fn lemma_sum_bytes_prefix(ts: Seq<TensorView>, k: int)
    requires
        0 <= k <= ts.len(),
    ensures
        0 <= sum_bytes(ts.take(k)) <= sum_bytes(ts),
    decreases ts.len(),
{
    if ts.len() > 0 {
        if k < ts.len() {
            assert(ts.drop_last().take(k) =~= ts.take(k));
            lemma_sum_bytes_prefix(ts.drop_last(), k);
        } else {
            assert(ts.take(k) =~= ts);
            lemma_sum_bytes_prefix(ts.drop_last(), 0);
        }
    } else {
        assert(ts.take(k) =~= ts);
    }
}

fn meta_string(metadata: &StrMap<MetadataValue>, key: &str) -> (r: Option<String>)
    ensures
        opt_chars(r) == meta_str(meta_view(metadata@), key@),
{
    match metadata.get(key) {
        Some(v) => match v.as_str() {
            Some(s) => Some(s.to_owned()),
            None => None,
        },
        None => None,
    }
}

/// Build the model layout from parsed tensor info and metadata. Where the
/// groups' byte ranges overflow `u64`, the result is `IntegerOverflow`.
pub fn build_layout(
    tensors: Vec<TensorInfo>,
    tensor_data_offset: u64,
    file_size: u64,
    metadata: StrMap<MetadataValue>,
) -> (r: Result<ModelLayout, GgufError>)
    ensures
        match r {
            Ok(l) => !layout_overflows(tensor_views(tensors@), tensor_data_offset) && l.is_layout_of(
                tensor_views(tensors@),
                tensor_data_offset,
                file_size,
                meta_view(metadata@),
            ),
            Err(e) => e == GgufError::IntegerOverflow && layout_overflows(
                tensor_views(tensors@),
                tensor_data_offset,
            ),
        },
{
    let layer_groups = group_tensors(&tensors, tensor_data_offset)?;
    let model_name = meta_string(&metadata, "general.name");
    let architecture = meta_string(&metadata, "general.architecture");
    let ghost m = meta_view(metadata@);
    let block_count = match metadata.get("general.block_count") {
        Some(v) => v.as_u64(),
        None => match &architecture {
            Some(arch) => {
                let mut key = arch.clone();
                key.append(".block_count");
                match metadata.get(key.as_str()) {
                    Some(v) => v.as_u64(),
                    None => None,
                }
            },
            None => None,
        },
    };
    Ok(
        ModelLayout {
            tensor_data_offset,
            tensors,
            layer_groups,
            file_size,
            metadata,
            model_name,
            architecture,
            block_count,
        },
    )
}

} // verus!
