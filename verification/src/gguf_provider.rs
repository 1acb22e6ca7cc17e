//! The GGUF provider: a model layout as prioritised file segments.
use vstd::prelude::*;
use crate::gguf::layout::{
    first_indices, group_keys, group_matches, key64, spec_kind_name, spec_sort_key, tensor_kind, KindView,
    LayerKind, ModelLayout,
};
use crate::gguf::metadata::MetaView;
use crate::gguf::tensor_info::TensorView;
use crate::order::{before, is_stable_order, lemma_sorted_stable_order_is_identity};
use crate::providers::priority_keys;
use crate::providers::{path_extension, spec_path_extension, FileLayout, Segment};
use crate::strmap::StrMap;
use crate::text::{chars_eq_str, chars_of, decimal_string, spec_decimal};

verus! {

/// Recognises GGUF files and describes them as segments in inference order.
pub struct GgufProvider;

/// The first four bytes of every GGUF file: "GGUF".
pub open spec fn gguf_magic() -> Seq<u8> {
    seq![0x47u8, 0x47u8, 0x55u8, 0x46u8]
}

/// The prefetch priority of a layer group at position `i`: embedding first,
/// then blocks in order, output norm, output head, then everything else.
pub open spec fn spec_priority(k: KindView, i: int) -> int {
    match k {
        KindView::TokenEmbedding => 0,
        KindView::TransformerBlock(n) => 100 + n,
        KindView::OutputNorm => 10000,
        KindView::OutputHead => 10001,
        KindView::Other(_) => 20000 + i,
    }
}

/// The priorities of every group fit in a `u32`.
pub open spec fn priorities_fit(model: ModelLayout) -> bool {
    &&& model.layer_groups@.len() <= u32::MAX - 20000
    &&& forall|i: int|
        0 <= i < model.layer_groups@.len() ==> spec_priority(
            #[trigger] model.layer_groups@[i].kind.kv(),
            i,
        ) <= u32::MAX
}

/// Whether the priorities of every group of the model fit in a `u32`: the
/// condition under which `file_layout` describes it.
pub fn check_priorities(model: &ModelLayout) -> (r: bool)
    ensures
        r == priorities_fit(*model),
{
    let n = model.layer_groups.len();
    if n > 4294947295usize {
        return false;
    }
    let mut i: usize = 0;
    while i < n
        invariant
            n == model.layer_groups@.len(),
            n <= u32::MAX - 20000,
            i <= n,
            forall|j: int|
                0 <= j < i ==> spec_priority(#[trigger] model.layer_groups@[j].kind.kv(), j) <= u32::MAX,
        decreases n - i,
    {
        if let LayerKind::TransformerBlock(b) = &model.layer_groups[i].kind {
            if *b > u32::MAX - 100 {
                assert(spec_priority(model.layer_groups@[i as int].kind.kv(), i as int) > u32::MAX);
                return false;
            }
        }
        i += 1;
    }
    true
}

impl GgufProvider {
    pub fn name(&self) -> (r: String)
        ensures
            r@ == "gguf"@,
    {
        "gguf".to_owned()
    }

    /// A file is GGUF if its extension is `gguf`, or if its first four
    /// bytes (`head`, where they could be read) are the GGUF magic.
    pub fn can_handle(&self, path: &str, head: Option<&[u8]>) -> (r: bool)
        ensures
            r == (spec_path_extension(path@) == Some("gguf"@) || (head matches Some(h) && h@.len()
                >= 4 && h@.take(4) == gguf_magic())),
    {
        let by_extension = match path_extension(path) {
            Some(e) => {
                let ev = chars_of(e.as_str());
                chars_eq_str(&ev, "gguf")
            },
            None => false,
        };
        if by_extension {
            return true;
        }
        match head {
            Some(h) => {
                if h.len() < 4 {
                    return false;
                }
                let ok = h[0] == 0x47 && h[1] == 0x47 && h[2] == 0x55 && h[3] == 0x46;
                proof {
                    if ok {
                        assert(h@.take(4) =~= gguf_magic());
                    } else {
                        assert(h@.take(4) != gguf_magic()) by {
                            if h@.take(4) == gguf_magic() {
                                assert(h@.take(4)[0] == h@[0]);
                                assert(h@.take(4)[1] == h@[1]);
                                assert(h@.take(4)[2] == h@[2]);
                                assert(h@.take(4)[3] == h@[3]);
                            }
                        }
                    }
                }
                ok
            },
            None => false,
        }
    }

    /// The segments of a parsed model: one per layer group, named after its
    /// kind, spanning from the group's first byte for its total size.
    pub fn file_layout(&self, model: &ModelLayout) -> (r: FileLayout)
        requires
            priorities_fit(*model),
        ensures
            r.file_size == model.file_size,
            r.format_name@ == "GGUF ("@ + match model.architecture {
                Some(a) => a@,
                None => "unknown"@,
            } + ")"@,
            r.segments@.len() == model.layer_groups@.len(),
            forall|i: int|
                0 <= i < r.segments@.len() ==> {
                    let g = model.layer_groups@[i];
                    let s = #[trigger] r.segments@[i];
                    &&& s.name@ == spec_kind_name(g.kind.kv())
                    &&& s.offset == g.file_offset_start
                    &&& s.length == g.total_bytes
                    &&& s.priority == spec_priority(g.kind.kv(), i)
                },
            forall|k: Seq<char>|
                #[trigger] r.metadata@.contains_key(k) <==> ((k == "model_name"@
                    && model.model_name is Some) || (k == "architecture"@
                    && model.architecture is Some) || (k == "block_count"@ && model.block_count is Some)
                    || k == "tensor_count"@),
            model.model_name matches Some(n) ==> r.metadata@["model_name"@]@ == n@,
            model.architecture matches Some(a) ==> r.metadata@["architecture"@]@ == a@,
            model.block_count matches Some(b) ==> r.metadata@["block_count"@]@ == spec_decimal(b as nat),
            r.metadata@["tensor_count"@]@ == spec_decimal(model.tensors@.len()),
    {
        let mut metadata: StrMap<String> = StrMap::new();
        proof {
            reveal_strlit("model_name");
            reveal_strlit("architecture");
            reveal_strlit("block_count");
            reveal_strlit("tensor_count");
            assert("model_name"@.len() != "tensor_count"@.len());
            assert("model_name"@.len() != "block_count"@.len());
            assert("model_name"@.len() != "architecture"@.len());
            assert("block_count"@.len() != "tensor_count"@.len());
            assert("block_count"@.len() != "architecture"@.len());
            assert("architecture"@[0] != "tensor_count"@[0]);
        }
        if let Some(name) = &model.model_name {
            metadata.insert("model_name".to_owned(), name.clone());
        }
        if let Some(arch) = &model.architecture {
            metadata.insert("architecture".to_owned(), arch.clone());
        }
        if let Some(blocks) = model.block_count {
            metadata.insert("block_count".to_owned(), decimal_string(blocks));
        }
        metadata.insert("tensor_count".to_owned(), decimal_string(model.tensors.len() as u64));
        let mut segments: Vec<Segment> = Vec::new();
        let mut i: usize = 0;
        while i < model.layer_groups.len()
            invariant
                i <= model.layer_groups@.len(),
                priorities_fit(*model),
                segments@.len() == i,
                forall|j: int|
                    0 <= j < i ==> {
                        let g = model.layer_groups@[j];
                        let s = #[trigger] segments@[j];
                        &&& s.name@ == spec_kind_name(g.kind.kv())
                        &&& s.offset == g.file_offset_start
                        &&& s.length == g.total_bytes
                        &&& s.priority == spec_priority(g.kind.kv(), j)
                    },
            decreases model.layer_groups@.len() - i,
        {
            let group = &model.layer_groups[i];
            proof {
                assert(spec_priority(model.layer_groups@[i as int].kind.kv(), i as int) <= u32::MAX);
            }
            let priority: u32 = match &group.kind {
                LayerKind::TokenEmbedding => 0,
                LayerKind::TransformerBlock(n) => 100 + *n,
                LayerKind::OutputNorm => 10000,
                LayerKind::OutputHead => 10001,
                LayerKind::Other(_) => 20000 + i as u32,
            };
            segments.push(
                Segment {
                    name: group.kind.to_string(),
                    offset: group.file_offset_start,
                    length: group.total_bytes,
                    priority,
                },
            );
            i += 1;
        }
        let mut format_name = "GGUF (".to_owned();
        match &model.architecture {
            Some(a) => format_name.append(a.as_str()),
            None => format_name.append("unknown"),
        }
        format_name.append(")");
        FileLayout { file_size: model.file_size, format_name, segments, metadata }
    }
}

/// Every transformer block of the model is numbered below 9900, so that
/// block priorities stay below the output layers'.
pub open spec fn blocks_below_output(model: ModelLayout) -> bool {
    forall|i: int|
        0 <= i < model.layer_groups@.len() ==> match #[trigger] model.layer_groups@[i].kind.kv() {
            KindView::TransformerBlock(n) => n < 9900,
            _ => true,
        }
}

/// A priority that falls with the inference order of the kinds: a lower
/// sort key never gets a higher priority.
proof fn lemma_priority_monotone(a: KindView, i: int, b: KindView, j: int)
    requires
        0 <= i < j,
        key64(spec_sort_key(a)) <= key64(spec_sort_key(b)),
        a matches KindView::TransformerBlock(n) ==> n < 9900,
        b matches KindView::TransformerBlock(n) ==> n < 9900,
    ensures
        spec_priority(a, i) <= spec_priority(b, j),
{
    let ka = spec_sort_key(a);
    let kb = spec_sort_key(b);
    assert(key64(ka) == ka.0 * 4294967296 + ka.1);
    assert(key64(kb) == kb.0 * 4294967296 + kb.1);
    match a {
        KindView::TransformerBlock(n) => {
            assert(ka.0 == 1 && ka.1 == n);
        },
        _ => {},
    }
    match b {
        KindView::TransformerBlock(n) => {
            assert(kb.0 == 1 && kb.1 == n);
        },
        _ => {},
    }
}

/// In a parsed layout whose blocks are numbered below 9900, the priorities
/// that the GGUF provider gives its groups rise along the layout's
/// inference order.
pub proof fn lemma_priorities_follow_inference_order(
    model: ModelLayout,
    ts: Seq<TensorView>,
    tdo: u64,
    file_size: u64,
    m: Map<Seq<char>, MetaView>,
    i: int,
    j: int,
)
    requires
        model.is_layout_of(ts, tdo, file_size, m),
        blocks_below_output(model),
        0 <= i < j < model.layer_groups@.len(),
    ensures
        spec_priority(model.layer_groups@[i].kind.kv(), i) <= spec_priority(
            model.layer_groups@[j].kind.kv(),
            j,
        ),
{
    let gs = model.layer_groups@;
    let firsts = first_indices(ts, ts.len());
    let keys = group_keys(ts, firsts);
    let p = choose|p: Seq<usize>|
        is_stable_order(keys, p) && forall|k: int|
            0 <= k < gs.len() ==> #[trigger] group_matches(ts, tdo, gs[k], firsts[p[k] as int]);
    assert(group_matches(ts, tdo, gs[i], firsts[p[i] as int]));
    assert(group_matches(ts, tdo, gs[j], firsts[p[j] as int]));
    assert(before(keys, p[i] as int, p[j] as int));
    assert(keys[p[i] as int] == key64(spec_sort_key(gs[i].kind.kv())));
    assert(keys[p[j] as int] == key64(spec_sort_key(gs[j].kind.kv())));
    let a = gs[i].kind.kv();
    let b = gs[j].kind.kv();
    assert(a matches KindView::TransformerBlock(n) ==> n < 9900);
    assert(b matches KindView::TransformerBlock(n) ==> n < 9900);
    lemma_priority_monotone(a, i, b, j);
}

/// Warming the GGUF provider's segments by priority warms them in the
/// layout's inference order: for a parsed layout whose blocks are numbered
/// below 9900, the stable priority order of its segments is the identity.
pub proof fn lemma_priority_order_is_inference_order(
    model: ModelLayout,
    ts: Seq<TensorView>,
    tdo: u64,
    file_size: u64,
    m: Map<Seq<char>, MetaView>,
    segs: Seq<Segment>,
    p: Seq<usize>,
)
    requires
        model.is_layout_of(ts, tdo, file_size, m),
        blocks_below_output(model),
        segs.len() == model.layer_groups@.len(),
        forall|k: int|
            0 <= k < segs.len() ==> #[trigger] segs[k].priority == spec_priority(
                model.layer_groups@[k].kind.kv(),
                k,
            ),
        is_stable_order(priority_keys(segs), p),
    ensures
        forall|k: int| 0 <= k < p.len() ==> p[k] == k,
{
    let keys = priority_keys(segs);
    assert forall|a: int, b: int| 0 <= a < b < keys.len() implies keys[a] <= keys[b] by {
        lemma_priorities_follow_inference_order(model, ts, tdo, file_size, m, a, b);
        assert(segs[a].priority == spec_priority(model.layer_groups@[a].kind.kv(), a));
        assert(segs[b].priority == spec_priority(model.layer_groups@[b].kind.kv(), b));
    }
    lemma_sorted_stable_order_is_identity(keys, p);
}

} // verus!
