//! Properties of the GGUF parse as a whole: it depends only on the header
//! and tables (bytes after them, the tensor data, never change it), and
//! what it accepts stays within the parser's safety limits; and every
//! tensor of a layout lies in the one group of its kind.
use vstd::prelude::*;
use crate::gguf::header::{
    le_u32, le_u64, spec_read_header, spec_read_string, spec_read_u16, spec_read_u32, spec_read_u64,
    spec_read_u8,
};
use crate::gguf::metadata::{spec_read_array, spec_read_kvs, spec_read_typed_value, spec_read_value};
use crate::gguf::tensor_info::{checked_product, max1, spec_read_tensor_info, spec_read_tensor_infos, u64s};
use crate::gguf::layout::{
    covered, first_indices, group_keys, group_matches, is_first_of_kind, key64, kind_indices, layout_overflows,
    spec_sort_key,
    lemma_first_indices, span_total, sum_bytes, tensor_fits, tensor_kind, KindView, LayerGroup, ModelLayout,
};
use crate::gguf::limits::{MAX_TENSOR_COUNT, MAX_TENSOR_DIMS};
use crate::gguf::metadata::MetaView;
use crate::order::{before, is_stable_order, lemma_distinct_covers, lemma_stable_order_covers, lists};
use crate::gguf::metadata::after;
use crate::gguf::tensor_info::TensorView;
use crate::gguf::spec_parse_gguf;

verus! {

/// Skipping into a sequence and then appending is appending and then skipping.
proof fn lemma_skip_add(s: Seq<u8>, x: Seq<u8>, k: int)
    requires
        0 <= k <= s.len(),
    ensures
        (s + x).skip(k) == s.skip(k) + x,
{
    assert((s + x).skip(k) =~= s.skip(k) + x);
}

/// Reading a fixed-width integer looks only at its own bytes.
proof fn lemma_fixed_ext(s: Seq<u8>, x: Seq<u8>)
    ensures
        spec_read_u8(s) is Ok ==> spec_read_u8(s + x) == spec_read_u8(s),
        spec_read_u16(s) is Ok ==> spec_read_u16(s + x) == spec_read_u16(s),
        spec_read_u32(s) is Ok ==> spec_read_u32(s + x) == spec_read_u32(s),
        spec_read_u64(s) is Ok ==> spec_read_u64(s + x) == spec_read_u64(s),
{
    let t = s + x;
    if s.len() >= 4 {
        assert(t[0] == s[0] && t[1] == s[1] && t[2] == s[2] && t[3] == s[3]);
        assert(le_u32(t) == le_u32(s));
    }
    if s.len() >= 8 {
        assert(t.skip(4)[0] == s.skip(4)[0]);
        assert(t.skip(4)[1] == s.skip(4)[1]);
        assert(t.skip(4)[2] == s.skip(4)[2]);
        assert(t.skip(4)[3] == s.skip(4)[3]);
        assert(le_u32(t.skip(4)) == le_u32(s.skip(4)));
        assert(le_u64(t) == le_u64(s));
    }
    if s.len() >= 2 {
        assert(t[0] == s[0] && t[1] == s[1]);
    }
    if s.len() >= 1 {
        assert(t[0] == s[0]);
    }
}

/// Reading a string looks only at its own bytes.
proof fn lemma_string_ext(s: Seq<u8>, x: Seq<u8>)
    ensures
        spec_read_string(s) matches Ok((v, n)) ==> n <= s.len() && spec_read_string(s + x)
            == spec_read_string(s),
{
    lemma_fixed_ext(s, x);
    if let Ok((v, n)) = spec_read_string(s) {
        let len = spec_read_u64(s)->Ok_0.0;
        assert((s + x).subrange(8, 8 + len) =~= s.subrange(8, 8 + len));
    }
}

/// A value of a given type tag is read from its own bytes only, and at
/// least one of them.
proof fn lemma_typed_value_ext(s: Seq<u8>, x: Seq<u8>, ty: u32)
    ensures
        spec_read_typed_value(s, ty) matches Ok((v, n)) ==> 1 <= n <= s.len()
            && spec_read_typed_value(s + x, ty) == spec_read_typed_value(s, ty),
    decreases s.len(), 0nat,
{
    lemma_fixed_ext(s, x);
    lemma_string_ext(s, x);
    if spec_read_typed_value(s, ty) is Ok && ty == 9 {
        lemma_skip_add(s, x, 4);
        lemma_fixed_ext(s.skip(4), x);
        let element_type = spec_read_u32(s)->Ok_0.0;
        let len = spec_read_u64(s.skip(4))->Ok_0.0;
        lemma_skip_add(s, x, 12);
        lemma_array_ext(s.skip(12), x, element_type, len as nat);
    }
}

/// An array of values is read from its own bytes only.
proof fn lemma_array_ext(s: Seq<u8>, x: Seq<u8>, ty: u32, n: nat)
    ensures
        spec_read_array(s, ty, n) matches Ok((v, k)) ==> k <= s.len() && spec_read_array(s + x, ty, n)
            == spec_read_array(s, ty, n),
    decreases s.len(), n + 1,
{
    if n > 0 {
        lemma_typed_value_ext(s, x, ty);
        if let Ok((v, k)) = spec_read_typed_value(s, ty) {
            if k <= s.len() {
                lemma_skip_add(s, x, k as int);
                lemma_array_ext(s.skip(k as int), x, ty, (n - 1) as nat);
            }
        }
    }
}

/// A tagged value is read from its own bytes only.
proof fn lemma_value_ext(s: Seq<u8>, x: Seq<u8>)
    ensures
        spec_read_value(s) matches Ok((v, n)) ==> n <= s.len() && spec_read_value(s + x) == spec_read_value(s),
{
    lemma_fixed_ext(s, x);
    if s.len() >= 4 {
        lemma_skip_add(s, x, 4);
        lemma_typed_value_ext(s.skip(4), x, spec_read_u32(s)->Ok_0.0);
    }
}

/// Key-value pairs are read from their own bytes only.
proof fn lemma_kvs_ext(s: Seq<u8>, x: Seq<u8>, n: nat)
    ensures
        spec_read_kvs(s, n) matches Ok((v, k)) ==> k <= s.len() && spec_read_kvs(s + x, n) == spec_read_kvs(s, n),
    decreases n,
{
    if n > 0 {
        lemma_string_ext(s, x);
        if let Ok((key, a)) = spec_read_string(s) {
            lemma_skip_add(s, x, a as int);
            lemma_value_ext(s.skip(a as int), x);
            if let Ok((v, b)) = spec_read_value(s.skip(a as int)) {
                if a + b <= s.len() {
                    lemma_skip_add(s, x, (a + b) as int);
                    lemma_kvs_ext(s.skip((a + b) as int), x, (n - 1) as nat);
                }
            }
        }
    }
}

/// A tensor descriptor is read from its own bytes only.
proof fn lemma_tensor_info_ext(s: Seq<u8>, x: Seq<u8>)
    ensures
        spec_read_tensor_info(s) matches Ok((t, n)) ==> n <= s.len() && spec_read_tensor_info(s + x)
            == spec_read_tensor_info(s),
{
    lemma_string_ext(s, x);
    if let Ok((name, a)) = spec_read_string(s) {
        let s1 = s.skip(a as int);
        lemma_skip_add(s, x, a as int);
        lemma_fixed_ext(s1, x);
        if let Ok((n_dims, _)) = spec_read_u32(s1) {
            let s2 = s1.skip(4);
            lemma_skip_add(s1, x, 4);
            if s2.len() >= 8 * n_dims {
                assert forall|i: int| 0 <= i < n_dims implies #[trigger] le_u64((s2 + x).skip(8 * i))
                    == le_u64(s2.skip(8 * i)) by {
                    lemma_skip_add(s2, x, 8 * i);
                    lemma_fixed_ext(s2.skip(8 * i), x);
                }
                assert(u64s(s2 + x, n_dims as nat) =~= u64s(s2, n_dims as nat));
                let s3 = s2.skip(8 * n_dims);
                lemma_skip_add(s2, x, 8 * n_dims);
                lemma_fixed_ext(s3, x);
                if s3.len() >= 4 {
                    lemma_skip_add(s3, x, 4);
                    lemma_fixed_ext(s3.skip(4), x);
                }
            }
        }
    }
}

/// Tensor descriptors are read from their own bytes only.
proof fn lemma_tensor_infos_ext(s: Seq<u8>, x: Seq<u8>, n: nat)
    ensures
        spec_read_tensor_infos(s, n) matches Ok((ts, k)) ==> k <= s.len() && spec_read_tensor_infos(s + x, n)
            == spec_read_tensor_infos(s, n),
    decreases n,
{
    if n > 0 {
        lemma_tensor_info_ext(s, x);
        if let Ok((t, k)) = spec_read_tensor_info(s) {
            if k <= s.len() {
                lemma_skip_add(s, x, k as int);
                lemma_tensor_infos_ext(s.skip(k as int), x, (n - 1) as nat);
            }
        }
    }
}

/// The parse of a GGUF file depends only on its header, metadata and
/// tensor table: appending bytes after a file that parses (such as its
/// tensor data) leaves the parse unchanged.
pub proof fn lemma_parse_ignores_trailing_bytes(s: Seq<u8>, x: Seq<u8>)
    requires
        spec_parse_gguf(s) is Ok,
    ensures
        spec_parse_gguf(s + x) == spec_parse_gguf(s),
{
    lemma_fixed_ext(s, x);
    lemma_skip_add(s, x, 4);
    lemma_fixed_ext(s.skip(4), x);
    lemma_skip_add(s, x, 8);
    lemma_fixed_ext(s.skip(8), x);
    lemma_skip_add(s, x, 16);
    lemma_fixed_ext(s.skip(16), x);
    assert(spec_read_header(s + x) == spec_read_header(s));
    let h = spec_read_header(s)->Ok_0;
    lemma_skip_add(s, x, 24);
    lemma_kvs_ext(s.skip(24), x, h.metadata_kv_count as nat);
    let n1 = spec_read_kvs(s.skip(24), h.metadata_kv_count as nat)->Ok_0.1;
    lemma_skip_add(s, x, (24 + n1) as int);
    lemma_tensor_infos_ext(s.skip((24 + n1) as int), x, h.tensor_count as nat);
}

/// A tensor descriptor that reads has at most `MAX_TENSOR_DIMS` dimensions,
/// a product of them within `u64`, and the byte size its type gives that
/// many elements (at least one).
pub open spec fn descriptor_sound(t: TensorView) -> bool {
    &&& t.dimensions.len() <= MAX_TENSOR_DIMS
    &&& checked_product(t.dimensions) matches Some(p) && t.ggml_type.spec_byte_size_checked(max1(p))
        == Some(t.byte_size)
}

/// Tensor descriptors read in a row: as many as asked for, each sound.
pub proof fn lemma_tensor_infos_sound(s: Seq<u8>, n: nat)
    ensures
        spec_read_tensor_infos(s, n) matches Ok((ts, k)) ==> ts.len() == n && forall|i: int|
            0 <= i < ts.len() ==> descriptor_sound(#[trigger] ts[i]),
    decreases n,
{
    if n > 0 {
        if let Ok((t, k)) = spec_read_tensor_info(s) {
            if k <= s.len() {
                lemma_tensor_infos_sound(s.skip(k as int), (n - 1) as nat);
                if let Ok((rest, k2)) = spec_read_tensor_infos(s.skip(k as int), (n - 1) as nat) {
                    let all: Seq<TensorView> = seq![t] + rest;
                    assert(spec_read_tensor_infos(s, n) == after(seq![t], k, spec_read_tensor_infos(
                        s.skip(k as int),
                        (n - 1) as nat,
                    )));
                    assert(descriptor_sound(t));
                    assert forall|i: int| 0 <= i < all.len() implies descriptor_sound(#[trigger] all[i]) by {
                        if i > 0 {
                            assert(all[i] == rest[i - 1]);
                        } else {
                            assert(all[i] == t);
                        }
                    }
                }
            }
        }
    }
}

/// What parses stays within the parser's safety limits: at most
/// `MAX_TENSOR_COUNT` tensors, each of at most `MAX_TENSOR_DIMS` dimensions
/// and sized by its type with checked arithmetic.
pub proof fn lemma_parse_within_limits(s: Seq<u8>)
    requires
        spec_parse_gguf(s) is Ok,
    ensures
        spec_parse_gguf(s)->Ok_0.0.len() <= MAX_TENSOR_COUNT,
        forall|i: int|
            0 <= i < spec_parse_gguf(s)->Ok_0.0.len() ==> descriptor_sound(
                #[trigger] spec_parse_gguf(s)->Ok_0.0[i],
            ),
{
    let h = spec_read_header(s)->Ok_0;
    let n1 = spec_read_kvs(s.skip(24), h.metadata_kv_count as nat)->Ok_0.1;
    lemma_tensor_infos_sound(s.skip((24 + n1) as int), h.tensor_count as nat);
}

/// The positions listed for kind `k` below `m` are exactly those below `m`
/// whose tensor is of kind `k`.
proof fn lemma_kind_indices_members(ts: Seq<TensorView>, k: KindView, m: nat)
    requires
        m <= ts.len() <= usize::MAX,
    ensures
        forall|t: int|
            0 <= t < kind_indices(ts, k, m).len() ==> #[trigger] kind_indices(ts, k, m)[t] < m
                && tensor_kind(ts, kind_indices(ts, k, m)[t] as int) == k,
        forall|j: int|
            0 <= j < m && tensor_kind(ts, j) == k ==> #[trigger] kind_indices(ts, k, m).contains(j as usize),
    decreases m,
{
    if m > 0 {
        lemma_kind_indices_members(ts, k, (m - 1) as nat);
        let prev = kind_indices(ts, k, (m - 1) as nat);
        let cur = kind_indices(ts, k, m);
        assert forall|t: int| 0 <= t < prev.len() implies cur[t] == prev[t] by {}
        assert forall|j: int| 0 <= j < m && tensor_kind(ts, j) == k implies #[trigger] cur.contains(
            j as usize,
        ) by {
            if j < m - 1 {
                assert(prev.contains(j as usize));
                let t = choose|t: int| 0 <= t < prev.len() && prev[t] == j as usize;
                assert(cur[t] == prev[t]);
            } else {
                assert(cur[prev.len() as int] == (m - 1) as usize);
            }
        }
    }
}

/// The first tensors of their kinds are listed in ascending order, each
/// the first of its kind.
proof fn lemma_first_indices_first(ts: Seq<TensorView>, m: nat)
    requires
        m <= ts.len() <= usize::MAX,
    ensures
        forall|t: int|
            0 <= t < first_indices(ts, m).len() ==> is_first_of_kind(ts, #[trigger] first_indices(ts, m)[t] as int),
        forall|a: int, b: int|
            0 <= a < b < first_indices(ts, m).len() ==> #[trigger] first_indices(ts, m)[a]
                < #[trigger] first_indices(ts, m)[b],
    decreases m,
{
    if m > 0 {
        lemma_first_indices_first(ts, (m - 1) as nat);
        lemma_first_indices(ts, (m - 1) as nat);
        let prev = first_indices(ts, (m - 1) as nat);
        let cur = first_indices(ts, m);
        assert forall|t: int| 0 <= t < prev.len() implies cur[t] == prev[t] by {}
    }
}

/// Every tensor of a layout lies in exactly one layer group: the one of
/// its kind. Groups have distinct kinds, and a group lists a tensor exactly
/// where the tensor is of the group's kind.
pub proof fn lemma_every_tensor_in_its_group(
    l: ModelLayout,
    ts: Seq<TensorView>,
    tdo: u64,
    file_size: u64,
    m: Map<Seq<char>, MetaView>,
    j: int,
)
    requires
        l.is_layout_of(ts, tdo, file_size, m),
        ts.len() <= usize::MAX,
        0 <= j < ts.len(),
    ensures
        exists|g: int| 0 <= g < l.layer_groups@.len() && l.layer_groups@[g].kind.kv() == tensor_kind(ts, j),
        forall|g: int|
            0 <= g < l.layer_groups@.len() ==> (#[trigger] l.layer_groups@[g].tensor_indices@.contains(
                j as usize,
            ) <==> l.layer_groups@[g].kind.kv() == tensor_kind(ts, j)),
        forall|g1: int, g2: int|
            0 <= g1 < g2 < l.layer_groups@.len() ==> #[trigger] l.layer_groups@[g1].kind.kv()
                != #[trigger] l.layer_groups@[g2].kind.kv(),
{
    let gs = l.layer_groups@;
    let n = ts.len();
    let firsts = first_indices(ts, n);
    let keys = group_keys(ts, firsts);
    let p = choose|p: Seq<usize>|
        is_stable_order(keys, p) && forall|i: int|
            0 <= i < gs.len() ==> #[trigger] group_matches(ts, tdo, gs[i], firsts[p[i] as int]);
    lemma_first_indices(ts, n);
    lemma_first_indices_first(ts, n);
    lemma_stable_order_covers(keys, p);
    let k = tensor_kind(ts, j);
    assert(covered(ts, firsts, k));
    let t = choose|t: int| 0 <= t < firsts.len() && tensor_kind(ts, firsts[t] as int) == k;
    assert(lists(p, t));
    let g = choose|g: int| 0 <= g < p.len() && p[g] == t;
    assert(group_matches(ts, tdo, gs[g], firsts[p[g] as int]));
    assert forall|g: int| 0 <= g < gs.len() implies (#[trigger] gs[g].tensor_indices@.contains(j as usize)
        <==> gs[g].kind.kv() == k) by {
        assert(group_matches(ts, tdo, gs[g], firsts[p[g] as int]));
        let kg = tensor_kind(ts, firsts[p[g] as int] as int);
        lemma_kind_indices_members(ts, kg, n);
        if gs[g].tensor_indices@.contains(j as usize) {
            let u = choose|u: int| 0 <= u < gs[g].tensor_indices@.len() && gs[g].tensor_indices@[u] == j as usize;
            assert(kind_indices(ts, kg, n)[u] == j as usize);
        }
    }
    assert forall|g1: int, g2: int| 0 <= g1 < g2 < gs.len() implies #[trigger] gs[g1].kind.kv()
        != #[trigger] gs[g2].kind.kv() by {
        assert(group_matches(ts, tdo, gs[g1], firsts[p[g1] as int]));
        assert(group_matches(ts, tdo, gs[g2], firsts[p[g2] as int]));
        let a = p[g1] as int;
        let b = p[g2] as int;
        assert(a != b);
        if a < b {
            assert(firsts[a] < firsts[b]);
            assert(is_first_of_kind(ts, firsts[b] as int));
        } else {
            assert(firsts[b] < firsts[a]);
            assert(is_first_of_kind(ts, firsts[a] as int));
        }
    }
}

/// The tensors of one kind below `m` weigh no more than all tensors below `m`.
proof fn lemma_kind_total_bounded(ts: Seq<TensorView>, k: KindView, m: nat)
    requires
        m <= ts.len() <= usize::MAX,
    ensures
        0 <= span_total(ts, kind_indices(ts, k, m)) <= sum_bytes(ts.take(m as int)),
    decreases m,
{
    if m > 0 {
        lemma_kind_total_bounded(ts, k, (m - 1) as nat);
        assert(ts.take(m as int).drop_last() =~= ts.take(m - 1));
        assert(sum_bytes(ts.take(m as int)) == sum_bytes(ts.take(m - 1)) + ts[m - 1].byte_size);
        let prev = kind_indices(ts, k, (m - 1) as nat);
        if tensor_kind(ts, m - 1) == k {
            let cur = prev.push((m - 1) as usize);
            assert(cur.drop_last() =~= prev);
            assert(cur.last() as int == m - 1);
            assert(span_total(ts, cur) == span_total(ts, prev) + ts[m - 1].byte_size);
        }
    } else {
        assert(ts.take(0) =~= Seq::<TensorView>::empty());
    }
}

/// Where every tensor ends within the `u64` range and all their sizes add
/// up within it, computing the layout's groups cannot overflow: building
/// the layout succeeds.
pub proof fn lemma_layout_fits_within_bounds(ts: Seq<TensorView>, tdo: u64)
    requires
        ts.len() <= usize::MAX,
        forall|j: int| 0 <= j < ts.len() ==> #[trigger] tensor_fits(ts, tdo, j),
        sum_bytes(ts) <= u64::MAX,
    ensures
        !layout_overflows(ts, tdo),
{
    assert(ts.take(ts.len() as int) =~= ts);
    assert forall|j: int| 0 <= j < ts.len() implies !(tdo + ts[j].offset + ts[j].byte_size > u64::MAX
        || span_total(ts, kind_indices(ts, #[trigger] tensor_kind(ts, j), ts.len())) > u64::MAX) by {
        assert(tensor_fits(ts, tdo, j));
        lemma_kind_total_bounded(ts, tensor_kind(ts, j), ts.len());
    }
}

/// The positions listed for a kind are in ascending order.
proof fn lemma_kind_indices_ascending(ts: Seq<TensorView>, k: KindView, m: nat)
    requires
        m <= ts.len() <= usize::MAX,
    ensures
        forall|a: int, b: int|
            0 <= a < b < kind_indices(ts, k, m).len() ==> #[trigger] kind_indices(ts, k, m)[a]
                < #[trigger] kind_indices(ts, k, m)[b],
    decreases m,
{
    if m > 0 {
        lemma_kind_indices_ascending(ts, k, (m - 1) as nat);
        lemma_kind_indices_members(ts, k, (m - 1) as nat);
        let prev = kind_indices(ts, k, (m - 1) as nat);
        let cur = kind_indices(ts, k, m);
        assert forall|a: int, b: int| 0 <= a < b < cur.len() implies #[trigger] cur[a] < #[trigger] cur[b] by {
            assert(cur[a] == prev[a]);
            if b < prev.len() {
                assert(cur[b] == prev[b]);
            }
        }
    }
}

/// Each group of a layout lists its tensors in ascending order, and a
/// layout of no tensors has no groups.
pub proof fn lemma_groups_ascending(
    l: ModelLayout,
    ts: Seq<TensorView>,
    tdo: u64,
    file_size: u64,
    m: Map<Seq<char>, MetaView>,
)
    requires
        l.is_layout_of(ts, tdo, file_size, m),
        ts.len() <= usize::MAX,
    ensures
        forall|g: int, a: int, b: int|
            0 <= g < l.layer_groups@.len() && 0 <= a < b < l.layer_groups@[g].tensor_indices@.len()
                ==> #[trigger] l.layer_groups@[g].tensor_indices@[a]
                < #[trigger] l.layer_groups@[g].tensor_indices@[b],
        ts.len() == 0 ==> l.layer_groups@.len() == 0,
{
    let gs = l.layer_groups@;
    let n = ts.len();
    let firsts = first_indices(ts, n);
    let keys = group_keys(ts, firsts);
    let p = choose|p: Seq<usize>|
        is_stable_order(keys, p) && forall|i: int|
            0 <= i < gs.len() ==> #[trigger] group_matches(ts, tdo, gs[i], firsts[p[i] as int]);
    assert forall|g: int, a: int, b: int|
        0 <= g < gs.len() && 0 <= a < b < gs[g].tensor_indices@.len() implies #[trigger] gs[g].tensor_indices@[a]
        < #[trigger] gs[g].tensor_indices@[b] by {
        assert(group_matches(ts, tdo, gs[g], firsts[p[g] as int]));
        lemma_kind_indices_ascending(ts, tensor_kind(ts, firsts[p[g] as int] as int), n);
    }
}

/// The sum of a sequence of integers.
pub open spec fn int_sum(s: Seq<int>) -> int
    decreases s.len(),
{
    if s.len() == 0 {
        0
    } else {
        int_sum(s.drop_last()) + s.last()
    }
}

/// A sum is the sum without one element, plus that element.
proof fn lemma_sum_remove(s: Seq<int>, q: int)
    requires
        0 <= q < s.len(),
    ensures
        int_sum(s) == int_sum(s.remove(q)) + s[q],
    decreases s.len(),
{
    if q == s.len() - 1 {
        assert(s.remove(q) =~= s.drop_last());
    } else {
        assert(s.remove(q).drop_last() =~= s.drop_last().remove(q));
        assert(s.remove(q).last() == s.last());
        lemma_sum_remove(s.drop_last(), q);
    }
}

/// Summing in the order of a permutation gives the same sum.
proof fn lemma_sum_permuted(a: Seq<int>, p: Seq<usize>)
    requires
        p.len() == a.len(),
        forall|i: int| 0 <= i < p.len() ==> #[trigger] p[i] < a.len(),
        forall|i: int, j: int| 0 <= i < j < p.len() ==> p[i] != p[j],
    ensures
        int_sum(Seq::new(p.len(), |i: int| a[p[i] as int])) == int_sum(a),
    decreases a.len(),
{
    let n = a.len();
    let s = Seq::new(p.len(), |i: int| a[p[i] as int]);
    if n > 0 {
        lemma_distinct_covers(p, n);
        assert(lists(p, n - 1));
        let q = choose|q: int| 0 <= q < p.len() && p[q] == n - 1;
        let p2 = p.remove(q);
        let a2 = a.drop_last();
        assert forall|i: int| 0 <= i < p2.len() implies #[trigger] p2[i] < a2.len() by {
            if i < q {
                assert(p2[i] == p[i] && p[i] != p[q]);
            } else {
                assert(p2[i] == p[i + 1] && p[i + 1] != p[q]);
            }
        }
        assert forall|i: int, j: int| 0 <= i < j < p2.len() implies p2[i] != p2[j] by {
            let ii = if i < q { i } else { i + 1 };
            let jj = if j < q { j } else { j + 1 };
            assert(p2[i] == p[ii] && p2[j] == p[jj] && ii < jj);
        }
        lemma_sum_permuted(a2, p2);
        assert(s.remove(q) =~= Seq::new(p2.len(), |i: int| a2[p2[i] as int]));
        lemma_sum_remove(s, q);
    } else {
        assert(s.len() == 0);
    }
}

/// What the groups of each kind present below `m` weigh, counting only the
/// tensors below `m`, listed in the order of `firsts`.
pub open spec fn kind_totals(ts: Seq<TensorView>, firsts: Seq<usize>, m: nat) -> Seq<int> {
    Seq::new(firsts.len(), |t: int| span_total(ts, kind_indices(ts, tensor_kind(ts, firsts[t] as int), m)))
}

/// A kind that no tensor below `m` has lists no tensor below `m`.
proof fn lemma_kind_indices_absent(ts: Seq<TensorView>, k: KindView, m: nat)
    requires
        m <= ts.len() <= usize::MAX,
        forall|i: int| 0 <= i < m ==> tensor_kind(ts, i) != k,
    ensures
        kind_indices(ts, k, m).len() == 0,
{
    lemma_kind_indices_members(ts, k, m);
    if kind_indices(ts, k, m).len() > 0 {
        assert(tensor_kind(ts, kind_indices(ts, k, m)[0] as int) == k);
    }
}

/// The kinds' totals below `m` add up to the total size of the tensors below `m`.
proof fn lemma_kind_totals_sum(ts: Seq<TensorView>, m: nat)
    requires
        m <= ts.len() <= usize::MAX,
    ensures
        int_sum(kind_totals(ts, first_indices(ts, m), m)) == sum_bytes(ts.take(m as int)),
    decreases m,
{
    if m == 0 {
        assert(kind_totals(ts, first_indices(ts, 0), 0) =~= Seq::<int>::empty());
        assert(ts.take(0) =~= Seq::<TensorView>::empty());
    } else {
        let x = m - 1;
        let k = tensor_kind(ts, x);
        let f0 = first_indices(ts, (m - 1) as nat);
        let f1 = first_indices(ts, m);
        let t0 = kind_totals(ts, f0, (m - 1) as nat);
        let t1 = kind_totals(ts, f1, m);
        lemma_kind_totals_sum(ts, (m - 1) as nat);
        lemma_first_indices(ts, (m - 1) as nat);
        lemma_first_indices_first(ts, (m - 1) as nat);
        assert(ts.take(m as int).drop_last() =~= ts.take(x));
        assert(sum_bytes(ts.take(m as int)) == sum_bytes(ts.take(x)) + ts[x].byte_size);
        let prev_k = kind_indices(ts, k, (m - 1) as nat);
        let cur_k = prev_k.push(x as usize);
        assert(kind_indices(ts, k, m) == cur_k);
        assert(cur_k.drop_last() =~= prev_k);
        assert(cur_k.last() as int == x);
        assert(span_total(ts, cur_k) == span_total(ts, prev_k) + ts[x].byte_size);
        if is_first_of_kind(ts, x) {
            assert(f1 == f0.push(x as usize));
            lemma_kind_indices_absent(ts, k, (m - 1) as nat);
            assert(span_total(ts, prev_k) == 0);
            assert forall|t: int| 0 <= t < t0.len() implies t1[t] == t0[t] by {
                let kt = tensor_kind(ts, f0[t] as int);
                assert(f1[t] == f0[t]);
                assert(f0[t] < x);
                assert(kt != k);
            }
            assert(t1 =~= t0.push(t1[t0.len() as int]));
            assert(t1.drop_last() =~= t0);
        } else {
            assert(f1 == f0);
            let i = choose|i: int| 0 <= i < x && #[trigger] tensor_kind(ts, i) == k;
            assert(covered(ts, f0, tensor_kind(ts, i)));
            let q = choose|q: int| 0 <= q < f0.len() && tensor_kind(ts, f0[q] as int) == tensor_kind(ts, i);
            assert forall|t: int| 0 <= t < t0.len() && t != q implies t1[t] == t0[t] by {
                let kt = tensor_kind(ts, f0[t] as int);
                if kt == k {
                    if t < q {
                        assert(f0[t] < f0[q]);
                        assert(is_first_of_kind(ts, f0[q] as int));
                    } else {
                        assert(f0[q] < f0[t]);
                        assert(is_first_of_kind(ts, f0[t] as int));
                    }
                }
            }
            assert(t1[q] == t0[q] + ts[x].byte_size);
            assert(t1.remove(q) =~= t0.remove(q));
            lemma_sum_remove(t0, q);
            lemma_sum_remove(t1, q);
        }
    }
}

/// The total sizes of a layout's groups.
pub open spec fn group_totals(gs: Seq<LayerGroup>) -> Seq<int> {
    Seq::new(gs.len(), |i: int| gs[i].total_bytes as int)
}

/// The groups' total sizes add up to the total size of all the tensors:
/// each tensor is counted in exactly one group.
pub proof fn lemma_group_totals_add_up(
    l: ModelLayout,
    ts: Seq<TensorView>,
    tdo: u64,
    file_size: u64,
    m: Map<Seq<char>, MetaView>,
)
    requires
        l.is_layout_of(ts, tdo, file_size, m),
        ts.len() <= usize::MAX,
    ensures
        int_sum(group_totals(l.layer_groups@)) == sum_bytes(ts),
{
    let gs = l.layer_groups@;
    let n = ts.len();
    let firsts = first_indices(ts, n);
    let keys = group_keys(ts, firsts);
    let p = choose|p: Seq<usize>|
        is_stable_order(keys, p) && forall|i: int|
            0 <= i < gs.len() ==> #[trigger] group_matches(ts, tdo, gs[i], firsts[p[i] as int]);
    let a = kind_totals(ts, firsts, n);
    assert forall|i: int| 0 <= i < p.len() implies #[trigger] p[i] < a.len() by {}
    assert(group_totals(gs) =~= Seq::new(p.len(), |i: int| a[p[i] as int])) by {
        assert forall|i: int| 0 <= i < gs.len() implies group_totals(gs)[i] == a[p[i] as int] by {
            assert(group_matches(ts, tdo, gs[i], firsts[p[i] as int]));
        }
    }
    lemma_sum_permuted(a, p);
    lemma_kind_totals_sum(ts, n);
    assert(ts.take(n as int) =~= ts);
}

/// A layout's groups come in inference order: the sort key of their kinds
/// (embedding, blocks by number, output norm, output head, the rest) never
/// falls from one group to a later one.
pub proof fn lemma_groups_in_inference_order(
    l: ModelLayout,
    ts: Seq<TensorView>,
    tdo: u64,
    file_size: u64,
    m: Map<Seq<char>, MetaView>,
    i: int,
    j: int,
)
    requires
        l.is_layout_of(ts, tdo, file_size, m),
        0 <= i < j < l.layer_groups@.len(),
    ensures
        key64(spec_sort_key(l.layer_groups@[i].kind.kv())) <= key64(spec_sort_key(l.layer_groups@[j].kind.kv())),
{
    let gs = l.layer_groups@;
    let firsts = first_indices(ts, ts.len());
    let keys = group_keys(ts, firsts);
    let p = choose|p: Seq<usize>|
        is_stable_order(keys, p) && forall|k: int|
            0 <= k < gs.len() ==> #[trigger] group_matches(ts, tdo, gs[k], firsts[p[k] as int]);
    assert(group_matches(ts, tdo, gs[i], firsts[p[i] as int]));
    assert(group_matches(ts, tdo, gs[j], firsts[p[j] as int]));
    assert(before(keys, p[i] as int, p[j] as int));
}

} // verus!
