use prefetch::gguf::header::{read_header, read_string, read_u32, GGUF_MAGIC};
use prefetch::gguf::layout::{build_layout, classify_tensor, LayerKind};
use prefetch::gguf::metadata::{read_value, MetadataValue};
use prefetch::gguf::tensor_info::{read_tensor_infos, TensorInfo};
use prefetch::gguf::types::GGMLType;
use prefetch::gguf::{align_offset, parse_gguf, GgufError};
use prefetch::gguf_provider::{check_priorities, GgufProvider};
use prefetch::strmap::StrMap;

fn err<T>(r: Result<T, GgufError>) -> GgufError {
    match r {
        Err(e) => e,
        Ok(_) => panic!("expected an error"),
    }
}

fn put_u32(b: &mut Vec<u8>, v: u32) {
    b.extend_from_slice(&v.to_le_bytes());
}

fn put_u64(b: &mut Vec<u8>, v: u64) {
    b.extend_from_slice(&v.to_le_bytes());
}

fn put_str(b: &mut Vec<u8>, s: &str) {
    put_u64(b, s.len() as u64);
    b.extend_from_slice(s.as_bytes());
}

fn header(version: u32, tensors: u64, kvs: u64) -> Vec<u8> {
    let mut b = Vec::new();
    put_u32(&mut b, GGUF_MAGIC);
    put_u32(&mut b, version);
    put_u64(&mut b, tensors);
    put_u64(&mut b, kvs);
    b
}

fn kv_str(b: &mut Vec<u8>, key: &str, value: &str) {
    put_str(b, key);
    put_u32(b, 8);
    put_str(b, value);
}

fn kv_u32(b: &mut Vec<u8>, key: &str, value: u32) {
    put_str(b, key);
    put_u32(b, 4);
    put_u32(b, value);
}

fn tensor(b: &mut Vec<u8>, name: &str, dims: &[u64], ty: u32, offset: u64) {
    put_str(b, name);
    put_u32(b, dims.len() as u32);
    for d in dims {
        put_u64(b, *d);
    }
    put_u32(b, ty);
    put_u64(b, offset);
}

/// A small llama-like model: embedding, two blocks, output norm and head.
fn tiny_model(alignment: Option<u32>) -> Vec<u8> {
    let kvs = if alignment.is_some() { 4 } else { 3 };
    let mut b = header(3, 5, kvs);
    kv_str(&mut b, "general.architecture", "llama");
    kv_str(&mut b, "general.name", "tiny");
    kv_u32(&mut b, "llama.block_count", 2);
    if let Some(a) = alignment {
        kv_u32(&mut b, "general.alignment", a);
    }
    tensor(&mut b, "token_embd.weight", &[4, 8], 0, 0);
    tensor(&mut b, "blk.0.attn_q.weight", &[8], 0, 128);
    tensor(&mut b, "blk.1.attn_q.weight", &[8], 0, 160);
    tensor(&mut b, "output_norm.weight", &[8], 0, 192);
    tensor(&mut b, "output.weight", &[4, 8], 0, 224);
    b
}

#[test]
fn parses_a_small_model() {
    let bytes = tiny_model(None);
    let end = bytes.len() as u64;
    let layout = parse_gguf(&bytes, 100_000).unwrap();
    assert_eq!(layout.tensor_data_offset, (end + 31) / 32 * 32);
    assert_eq!(layout.file_size, 100_000);
    assert_eq!(layout.tensors.len(), 5);
    assert_eq!(layout.model_name.as_deref(), Some("tiny"));
    assert_eq!(layout.architecture.as_deref(), Some("llama"));
    assert_eq!(layout.block_count, Some(2));
    assert_eq!(layout.total_tensor_bytes(), 128 + 32 + 32 + 32 + 128);
    let kinds: Vec<String> = layout.layer_groups.iter().map(|g| g.kind.to_string()).collect();
    assert_eq!(kinds, vec!["token_embedding", "block.0", "block.1", "output_norm", "output_head"]);
    let tdo = layout.tensor_data_offset;
    let g = &layout.layer_groups[2];
    assert_eq!(g.file_offset_start, tdo + 160);
    assert_eq!(g.file_offset_end, tdo + 192);
    assert_eq!(g.total_bytes, 32);
    assert_eq!(g.tensor_indices, vec![2]);
}

#[test]
fn custom_alignment_moves_the_data_offset() {
    let bytes = tiny_model(Some(256));
    let end = bytes.len() as u64;
    let layout = parse_gguf(&bytes, 100_000).unwrap();
    assert_eq!(layout.tensor_data_offset, (end + 255) / 256 * 256);
    assert_eq!(layout.tensor_data_offset % 256, 0);
}

#[test]
fn first_n_layers_keeps_embedding_and_early_blocks() {
    let bytes = tiny_model(None);
    let layout = parse_gguf(&bytes, 100_000).unwrap();
    let first: Vec<String> = layout.first_n_layers(1).iter().map(|g| g.kind.to_string()).collect();
    assert_eq!(first, vec!["token_embedding", "block.0"]);
    let none: Vec<String> = layout.first_n_layers(0).iter().map(|g| g.kind.to_string()).collect();
    assert_eq!(none, vec!["token_embedding"]);
    let ordered: Vec<String> =
        layout.inference_ordered_groups().iter().map(|g| g.kind.to_string()).collect();
    assert_eq!(ordered, vec!["token_embedding", "block.0", "block.1", "output_norm", "output_head"]);
}

#[test]
fn rejects_bad_magic() {
    let mut b = Vec::new();
    put_u32(&mut b, 0x12345678);
    put_u32(&mut b, 3);
    put_u64(&mut b, 0);
    put_u64(&mut b, 0);
    assert_eq!(err(parse_gguf(&b, 24)), GgufError::InvalidMagic(0x12345678));
}

#[test]
fn rejects_unsupported_version() {
    let b = header(1, 0, 0);
    assert_eq!(err(parse_gguf(&b, 24)), GgufError::UnsupportedVersion(1));
    assert!(read_header(&header(2, 0, 0)).is_ok());
    assert_eq!(err(read_header(&header(4, 0, 0))), GgufError::UnsupportedVersion(4));
}

#[test]
fn truncated_header_is_unexpected_eof() {
    let b = header(3, 0, 0);
    assert_eq!(err(parse_gguf(&b[..20], 20)), GgufError::UnexpectedEof);
    assert_eq!(err(read_header(&[])), GgufError::UnexpectedEof);
}

#[test]
fn too_many_tensors_or_kvs() {
    assert_eq!(err(parse_gguf(&header(3, 100_001, 0), 24)), GgufError::TooManyTensors(100_001));
    assert_eq!(
        err(parse_gguf(&header(3, 0, 100_001), 24)),
        GgufError::TooManyMetadataKVs(100_001)
    );
    let h = read_header(&header(3, 7, 9)).unwrap();
    assert_eq!((h.version, h.tensor_count, h.metadata_kv_count), (3, 7, 9));
}

#[test]
fn string_too_long() {
    let mut b = header(3, 0, 1);
    put_u64(&mut b, 1024 * 1024 + 1);
    assert_eq!(err(parse_gguf(&b, 1000)), GgufError::StringTooLong(1024 * 1024 + 1));
}

#[test]
fn invalid_value_type() {
    let mut b = header(3, 0, 1);
    put_str(&mut b, "k");
    put_u32(&mut b, 13);
    assert_eq!(err(parse_gguf(&b, 1000)), GgufError::InvalidValueType(13));
}

#[test]
fn invalid_ggml_type() {
    let mut b = header(3, 1, 0);
    tensor(&mut b, "t", &[2], 99, 0);
    assert_eq!(err(parse_gguf(&b, 1000)), GgufError::InvalidGGMLType(99));
}

#[test]
fn too_many_dimensions() {
    let mut b = header(3, 1, 0);
    put_str(&mut b, "t");
    put_u32(&mut b, 17);
    assert_eq!(err(parse_gguf(&b, 1000)), GgufError::TooManyDimensions(17));
}

#[test]
fn array_too_long() {
    let mut b = header(3, 0, 1);
    put_str(&mut b, "arr");
    put_u32(&mut b, 9);
    put_u32(&mut b, 4);
    put_u64(&mut b, 10_000_001);
    assert_eq!(err(parse_gguf(&b, 1000)), GgufError::ArrayTooLong(10_000_001));
}

#[test]
fn element_count_overflow_is_integer_overflow() {
    let mut b = header(3, 1, 0);
    tensor(&mut b, "t", &[u64::MAX, 2], 0, 0);
    assert_eq!(err(parse_gguf(&b, 1000)), GgufError::IntegerOverflow);
}

#[test]
fn reads_values_of_each_kind() {
    let mut b = Vec::new();
    put_u32(&mut b, 7);
    b.push(1);
    assert_eq!(read_value(&b, 0).unwrap(), (MetadataValue::Bool(true), 5));
    let mut b = Vec::new();
    put_u32(&mut b, 9);
    put_u32(&mut b, 4);
    put_u64(&mut b, 2);
    put_u32(&mut b, 10);
    put_u32(&mut b, 20);
    let (v, end) = read_value(&b, 0).unwrap();
    assert_eq!(end, b.len());
    assert_eq!(v, MetadataValue::Array(vec![MetadataValue::UInt32(10), MetadataValue::UInt32(20)]));
    let mut b = Vec::new();
    put_u32(&mut b, 6);
    put_u32(&mut b, 1.5f32.to_bits());
    assert_eq!(read_value(&b, 0).unwrap().0, MetadataValue::Float32(1.5f32.to_bits()));
    let mut b = Vec::new();
    put_u32(&mut b, 1);
    b.push(0xFF);
    assert_eq!(read_value(&b, 0).unwrap().0, MetadataValue::Int8(-1));
}

#[test]
fn metadata_value_conversions() {
    assert_eq!(MetadataValue::UInt32(7).as_u64(), Some(7));
    assert_eq!(MetadataValue::Int32(-1).as_u64(), None);
    assert_eq!(MetadataValue::Int64(5).as_u64(), Some(5));
    assert_eq!(MetadataValue::UInt8(3).as_u64(), Some(3));
    assert_eq!(MetadataValue::String("x".to_string()).as_u64(), None);
    assert_eq!(MetadataValue::String("x".to_string()).as_str(), Some("x"));
    assert_eq!(MetadataValue::Bool(true).as_str(), None);
}

#[test]
fn primitive_reads() {
    assert_eq!(read_u32(&[1, 0, 0, 0, 9], 0).unwrap(), (1, 4));
    assert_eq!(err(read_u32(&[1, 0, 0], 0)), GgufError::UnexpectedEof);
    let mut b = Vec::new();
    put_str(&mut b, "héllo");
    assert_eq!(read_string(&b, 0).unwrap(), ("héllo".to_string(), b.len()));
    let mut b = Vec::new();
    put_u64(&mut b, 2);
    b.extend_from_slice(&[0xFF, 0x41]);
    assert_eq!(read_string(&b, 0).unwrap().0, "\u{FFFD}A");
}

#[test]
fn ggml_type_tags_and_sizes() {
    assert_eq!(GGMLType::from_u32(0), Some(GGMLType::F32));
    assert_eq!(GGMLType::from_u32(4), None);
    assert_eq!(GGMLType::from_u32(5), None);
    assert_eq!(GGMLType::from_u32(30), Some(GGMLType::BF16));
    assert_eq!(GGMLType::from_u32(31), None);
    assert_eq!(GGMLType::Q5_0.type_tag(), 6);
    for tag in 0..40u32 {
        if let Some(t) = GGMLType::from_u32(tag) {
            assert_eq!(t.type_tag(), tag);
        }
    }
    assert_eq!(GGMLType::Q4_0.block_size(), 32);
    assert_eq!(GGMLType::Q4_0.type_size(), 18);
    assert_eq!(GGMLType::Q4_0.tensor_byte_size(64), 36);
    assert_eq!(GGMLType::Q4_0.tensor_byte_size(65), 54);
    assert_eq!(GGMLType::Q6K.tensor_byte_size(256), 210);
    assert_eq!(GGMLType::F16.tensor_byte_size(10), 20);
    assert_eq!(GGMLType::F32.tensor_byte_size_checked(u64::MAX), None);
    assert_eq!(GGMLType::F32.tensor_byte_size(u64::MAX), u64::MAX);
}

#[test]
fn tensor_element_counts() {
    let t = TensorInfo {
        name: "x".to_string(),
        dimensions: vec![3, 4, 5],
        ggml_type: GGMLType::F32,
        offset: 0,
        byte_size: 240,
    };
    assert_eq!(t.n_elements(), 60);
    let scalar = TensorInfo {
        name: "s".to_string(),
        dimensions: vec![],
        ggml_type: GGMLType::F32,
        offset: 0,
        byte_size: 4,
    };
    assert_eq!(scalar.n_elements(), 1);
    let empty = TensorInfo {
        name: "e".to_string(),
        dimensions: vec![0, 7],
        ggml_type: GGMLType::F32,
        offset: 0,
        byte_size: 4,
    };
    assert_eq!(empty.n_elements(), 1);
}

#[test]
fn read_tensor_infos_computes_byte_sizes() {
    let mut b = Vec::new();
    tensor(&mut b, "blk.0.ffn.weight", &[32, 2], 2, 64);
    let (ts, end) = read_tensor_infos(&b, 0, 1).unwrap();
    assert_eq!(end, b.len());
    assert_eq!(ts[0].name, "blk.0.ffn.weight");
    assert_eq!(ts[0].dimensions, vec![32, 2]);
    assert_eq!(ts[0].ggml_type, GGMLType::Q4_0);
    assert_eq!(ts[0].offset, 64);
    assert_eq!(ts[0].byte_size, 36);
}

#[test]
fn classifies_tensor_names() {
    assert_eq!(classify_tensor("token_embd.weight"), LayerKind::TokenEmbedding);
    assert_eq!(classify_tensor("token_embd.bias"), LayerKind::TokenEmbedding);
    assert_eq!(classify_tensor("blk.12.attn_k.weight"), LayerKind::TransformerBlock(12));
    assert_eq!(classify_tensor("blk.+3.attn_k.weight"), LayerKind::TransformerBlock(3));
    assert_eq!(classify_tensor("blk.x.attn_k.weight"), LayerKind::Other("blk.x.attn_k.weight".to_string()));
    assert_eq!(classify_tensor("blk.7"), LayerKind::Other("blk.7".to_string()));
    assert_eq!(classify_tensor("output_norm.bias"), LayerKind::OutputNorm);
    assert_eq!(classify_tensor("output.weight"), LayerKind::OutputHead);
    assert_eq!(classify_tensor("rope_freqs"), LayerKind::Other("rope_freqs".to_string()));
}

#[test]
fn layer_kind_names_and_sort_keys() {
    assert_eq!(LayerKind::TokenEmbedding.to_string(), "token_embedding");
    assert_eq!(LayerKind::TransformerBlock(4).to_string(), "block.4");
    assert_eq!(LayerKind::OutputNorm.to_string(), "output_norm");
    assert_eq!(LayerKind::OutputHead.to_string(), "output_head");
    assert_eq!(LayerKind::Other("rope".to_string()).to_string(), "other(rope)");
    assert_eq!(LayerKind::TransformerBlock(4).sort_key(), (1, 4));
    assert_eq!(LayerKind::Other("a".to_string()).sort_key(), (4, 0));
    assert!(LayerKind::OutputNorm.same(&LayerKind::OutputNorm));
    assert!(!LayerKind::TransformerBlock(1).same(&LayerKind::TransformerBlock(2)));
}

#[test]
fn align_offset_rounds_up() {
    assert_eq!(align_offset(0, 32), 0);
    assert_eq!(align_offset(1, 32), 32);
    assert_eq!(align_offset(32, 32), 32);
    assert_eq!(align_offset(33, 32), 64);
    assert_eq!(align_offset(17, 0), 17);
}

#[test]
fn build_layout_groups_and_sums() {
    let t = |name: &str, offset: u64, size: u64| TensorInfo {
        name: name.to_string(),
        dimensions: vec![size / 4],
        ggml_type: GGMLType::F32,
        offset,
        byte_size: size,
    };
    let tensors = vec![
        t("blk.1.b", 300, 50),
        t("token_embd.weight", 0, 100),
        t("blk.1.a", 200, 100),
        t("rope_freqs", 400, 8),
        t("blk.0.a", 100, 100),
    ];
    let mut meta = StrMap::new();
    meta.insert("general.architecture".to_string(), MetadataValue::String("phi".to_string()));
    meta.insert("phi.block_count".to_string(), MetadataValue::UInt64(2));
    let layout = build_layout(tensors, 1000, 5000, meta).unwrap();
    let kinds: Vec<String> = layout.layer_groups.iter().map(|g| g.kind.to_string()).collect();
    assert_eq!(kinds, vec!["token_embedding", "block.0", "block.1", "other(rope_freqs)"]);
    let b1 = &layout.layer_groups[2];
    assert_eq!(b1.tensor_indices, vec![0, 2]);
    assert_eq!(b1.file_offset_start, 1200);
    assert_eq!(b1.file_offset_end, 1350);
    assert_eq!(b1.total_bytes, 150);
    assert_eq!(layout.block_count, Some(2));
    assert_eq!(layout.model_name, None);
}

#[test]
fn build_layout_overflow_is_an_error() {
    let tensors = vec![TensorInfo {
        name: "token_embd.weight".to_string(),
        dimensions: vec![1],
        ggml_type: GGMLType::F32,
        offset: u64::MAX - 10,
        byte_size: 4,
    }];
    assert_eq!(err(build_layout(tensors, 100, 0, StrMap::new())), GgufError::IntegerOverflow);
}

#[test]
fn gguf_provider_layout_of_a_parsed_model() {
    let bytes = tiny_model(None);
    let model = parse_gguf(&bytes, 100_000).unwrap();
    let l = GgufProvider.file_layout(&model);
    assert_eq!(l.file_size, 100_000);
    assert_eq!(l.format_name, "GGUF (llama)");
    let segs: Vec<(&str, u32, u64)> = l.segments.iter().map(|s| (s.name.as_str(), s.priority, s.length)).collect();
    assert_eq!(
        segs,
        vec![
            ("token_embedding", 0, 128),
            ("block.0", 100, 32),
            ("block.1", 101, 32),
            ("output_norm", 10000, 32),
            ("output_head", 10001, 128),
        ]
    );
    assert_eq!(l.segments[1].offset, model.tensor_data_offset + 128);
    assert_eq!(l.metadata.get("architecture").map(|s| s.as_str()), Some("llama"));
    assert_eq!(l.metadata.get("model_name").map(|s| s.as_str()), Some("tiny"));
    assert_eq!(l.metadata.get("block_count").map(|s| s.as_str()), Some("2"));
    assert_eq!(l.metadata.get("tensor_count").map(|s| s.as_str()), Some("5"));
    assert_eq!(l.metadata.len(), 4);
}

#[test]
fn tensor_data_after_the_tables_does_not_change_the_parse() {
    let bytes = tiny_model(None);
    let mut with_data = bytes.clone();
    with_data.extend(std::iter::repeat(0xAB).take(4096));
    let a = parse_gguf(&bytes, 5000).unwrap();
    let b = parse_gguf(&with_data, 5000).unwrap();
    assert_eq!(a.tensor_data_offset, b.tensor_data_offset);
    assert_eq!(a.tensors.len(), b.tensors.len());
    for (x, y) in a.tensors.iter().zip(b.tensors.iter()) {
        assert_eq!(x.name, y.name);
        assert_eq!(x.offset, y.offset);
        assert_eq!(x.byte_size, y.byte_size);
    }
    assert_eq!(a.model_name, b.model_name);
    assert_eq!(a.block_count, b.block_count);
}

#[test]
fn gguf_segments_by_priority_keep_inference_order() {
    let bytes = tiny_model(None);
    let model = parse_gguf(&bytes, 100_000).unwrap();
    let l = GgufProvider.file_layout(&model);
    let ordered: Vec<&str> = l.ordered_segments().iter().map(|s| s.name.as_str()).collect();
    let groups: Vec<String> = model.layer_groups.iter().map(|g| g.kind.to_string()).collect();
    assert_eq!(ordered, groups);
}

#[test]
fn every_tensor_lies_in_exactly_one_group() {
    let bytes = tiny_model(None);
    let layout = parse_gguf(&bytes, 100_000).unwrap();
    for (j, t) in layout.tensors.iter().enumerate() {
        let holders: Vec<&str> = layout
            .layer_groups
            .iter()
            .filter(|g| g.tensor_indices.contains(&j))
            .map(|g| if g.kind == classify_tensor(&t.name) { "own" } else { "other" })
            .collect();
        assert_eq!(holders, vec!["own"]);
    }
}

#[test]
fn group_totals_add_up_to_the_tensor_total() {
    let bytes = tiny_model(None);
    let layout = parse_gguf(&bytes, 100_000).unwrap();
    let sum: u64 = layout.layer_groups.iter().map(|g| g.total_bytes).sum();
    assert_eq!(sum, layout.total_tensor_bytes());
    for g in &layout.layer_groups {
        assert!(g.tensor_indices.windows(2).all(|w| w[0] < w[1]));
    }
    let empty = build_layout(vec![], 64, 64, StrMap::new()).unwrap();
    assert!(empty.layer_groups.is_empty());
}

#[test]
fn ascii_tensor_names_read_as_written() {
    let (ts, _) = read_tensor_infos(
        &[1, 0, 0, 0, 0, 0, 0, 0, 0x61, 1, 0, 0, 0, 33, 0, 0, 0, 0, 0, 0, 0, 2, 0, 0, 0, 64, 0, 0, 0, 0, 0, 0, 0],
        0,
        1,
    )
    .unwrap();
    assert_eq!(ts[0].name, "a");
    assert_eq!(ts[0].dimensions, vec![33]);
    assert_eq!(ts[0].ggml_type, GGMLType::Q4_0);
    assert_eq!(ts[0].byte_size, 36);
}

#[test]
fn priorities_fit_check() {
    let bytes = tiny_model(None);
    let mut model = parse_gguf(&bytes, 100_000).unwrap();
    assert!(check_priorities(&model));
    model.layer_groups[1].kind = LayerKind::TransformerBlock(u32::MAX - 100);
    assert!(check_priorities(&model));
    model.layer_groups[1].kind = LayerKind::TransformerBlock(u32::MAX - 99);
    assert!(!check_priorities(&model));
}
