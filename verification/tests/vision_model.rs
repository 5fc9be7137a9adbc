use candle_core::quantized::gguf_file::{self, Content, Value};
use candle_core::quantized::{GgmlDType, QTensor};
use candle_core::{DType, Device, Tensor};
use qwen3vl::attention::plan_tiles;
use qwen3vl::components::{
    MergedShape, Qwen3VLVisionAttention, Qwen3VLVisionBlock, Qwen3VLVisionPatchEmbed,
    Qwen3VLVisionPatchMerger,
};
use qwen3vl::config::Qwen3VLVisionConfig;
use qwen3vl::error::ModelError;
use qwen3vl::grid::{chunk_frames, find_longest_side, split_features, Thw};
use qwen3vl::header::{check_header, read_header};
use qwen3vl::interpolate::Floors;
use qwen3vl::metadata::VisionMetadata;
use qwen3vl::modules::{ModuleRequest, ModuleShape};
use qwen3vl::parse_grid;
use qwen3vl::streaming::BlockAction;
use qwen3vl::vision::Qwen3VLVisionModel;
use qwen3vl::weights::{decimal_text, Component, LoadKind, LoadStep, Slot};
use std::io::Cursor;

fn config() -> Qwen3VLVisionConfig {
    Qwen3VLVisionConfig {
        patch_size: 16,
        temporal_patch_size: 2,
        in_channels: 3,
        hidden_size: 8,
        intermediate_size: 32,
        out_hidden_size: 24,
        num_heads: 2,
        depth: 3,
        spatial_merge_size: 2,
        num_position_embeddings: 16,
        deepstack_visual_indexes: vec![0, 2],
    }
}

fn model() -> Qwen3VLVisionModel {
    Qwen3VLVisionModel::new(&config(), 4).unwrap().0
}

fn numbers() -> Vec<(String, u32)> {
    vec![
        ("clip.vision.spatial_merge_size".to_string(), 2),
        ("clip.vision.embedding_length".to_string(), 8),
        ("clip.vision.patch_size".to_string(), 16),
        ("clip.vision.image_size".to_string(), 70),
        ("clip.vision.attention.head_count".to_string(), 2),
        ("clip.vision.block_count".to_string(), 3),
    ]
}

fn epsilon() -> (String, Value) {
    ("clip.vision.attention.layer_norm_epsilon".to_string(), Value::F32(1e-6))
}

fn written(entries: &[(String, Value)]) -> Vec<u8> {
    let borrowed: Vec<(&str, &Value)> = entries.iter().map(|(k, v)| (k.as_str(), v)).collect();
    let mut bytes = Cursor::new(Vec::new());
    gguf_file::write(&mut bytes, &borrowed, &[]).unwrap();
    bytes.into_inner()
}

fn entries(numbers: &[(String, u32)], flags: Option<Vec<bool>>) -> Vec<(String, Value)> {
    let mut list: Vec<(String, Value)> =
        numbers.iter().map(|(k, v)| (k.clone(), Value::U32(*v))).collect();
    if let Some(f) = flags {
        let marks = f.into_iter().map(Value::Bool).collect();
        list.push(("clip.vision.is_deepstack_layers".to_string(), Value::Array(marks)));
    }
    list
}

fn content(numbers: &[(String, u32)], flags: Option<Vec<bool>>) -> Content {
    let mut list = entries(numbers, flags);
    list.push(epsilon());
    read_header(&written(&list)).unwrap()
}

fn header_bytes() -> Vec<u8> {
    let mut list = entries(&numbers(), Some(vec![true, false, true]));
    list.push(epsilon());
    written(&list)
}

fn header() -> Content {
    read_header(&header_bytes()).unwrap()
}

fn names(steps: &[LoadStep]) -> Vec<(Slot, String)> {
    steps.iter().map(|s| (s.slot, s.name.clone())).collect()
}

fn paths(list: &[ModuleRequest]) -> Vec<String> {
    list.iter().map(|m| m.path.clone()).collect()
}

fn grid(rows: Vec<Vec<u32>>) -> Tensor {
    Tensor::new(rows, &Device::Cpu).unwrap()
}

#[test]
fn layers_of_a_new_model() {
    let (m, list) = Qwen3VLVisionModel::new(&config(), 4).unwrap();
    assert_eq!((m.head_dim, m.num_blocks, m.num_grid_per_side), (4, 3, 4));
    assert_eq!(m.deepstack_visual_indexes, vec![0, 2]);
    assert!(m.is_weights_loaded && !m.stream_blocks && !m.is_jit_capable());
    let p = paths(&list);
    assert_eq!(p[0..3].to_vec(), vec!["patch_embed.proj.weight", "patch_embed.proj.bias", "pos_embed"]);
    assert_eq!(p[3], "blocks.0.norm1");
    assert!(p.contains(&"blocks.2.mlp.linear_fc2".to_string()));
    assert!(p.contains(&"merger.linear_fc1".to_string()));
    assert_eq!(p.last().unwrap(), "deepstack_merger_list.1.linear_fc2");
    match &list[0].shape {
        ModuleShape::Tensor(d) => assert_eq!(d, &vec![8, 3, 2, 16, 16]),
        _ => panic!("the first layer is a tensor"),
    }
    assert!(matches!(list[2].shape, ModuleShape::Embedding { entries: 16, width: 8 }));
}

#[test]
fn layers_too_large_to_count_are_refused() {
    let mut c = config();
    c.hidden_size = usize::MAX / 2;
    assert!(matches!(Qwen3VLVisionModel::new(&c, 4), Err(ModelError::Overflow)));
}

#[test]
fn attention_has_joint_queries_keys_and_values() {
    let (a, list) = Qwen3VLVisionAttention::new(&config(), "blocks.1.attn.").unwrap();
    assert_eq!((a.num_heads, a.head_dim), (2, 4));
    assert_eq!(paths(&list), vec!["blocks.1.attn.qkv", "blocks.1.attn.proj"]);
    assert!(matches!(list[0].shape, ModuleShape::Linear { inputs: 8, outputs: 24 }));
}

#[test]
fn merger_regroups_features() {
    let (m, list) = Qwen3VLVisionPatchMerger::new(&config(), "merger.", false).unwrap();
    assert_eq!(m.hidden_size, 32);
    assert!(matches!(list[0].shape, ModuleShape::LayerNorm(8)));
    assert_eq!(m.forward(12, 8).unwrap(), MergedShape { norm_width: 8, rows: 3 });
    let (d, list) = Qwen3VLVisionPatchMerger::new(&config(), "x.", true).unwrap();
    assert!(matches!(list[0].shape, ModuleShape::LayerNorm(32)));
    assert_eq!(d.forward(12, 8).unwrap(), MergedShape { norm_width: 32, rows: 3 });
    assert!(matches!(d.forward(5, 8), Err(ModelError::ShapeMismatch)));
}

#[test]
fn model_from_a_header() {
    let (m, steps) = Qwen3VLVisionModel::new_from_gguf(&header()).unwrap();
    assert_eq!((m.spatial_merge_size, m.num_grid_per_side, m.hidden_size), (2, 4, 8));
    assert_eq!((m.head_dim, m.num_blocks), (4, 3));
    assert_eq!(m.deepstack_visual_indexes, vec![0, 2]);
    let n = names(&steps);
    assert_eq!(n.len(), 3 + 1 + 3 * 6 + 3 + 2 * 3);
    assert_eq!(n[0], (Slot::PatchFirst, "v.patch_embd.weight".to_string()));
    assert_eq!(n[1], (Slot::PatchSecond, "v.patch_embd.weight.1".to_string()));
    assert_eq!(n[2], (Slot::PatchBias, "v.patch_embd.bias".to_string()));
    assert_eq!(n[3], (Slot::Positions, "v.position_embd.weight".to_string()));
    assert_eq!(n[4], (Slot::Norm1(0), "v.blk.0.ln1".to_string()));
    assert_eq!(n[6], (Slot::Qkv(0), "v.blk.0.attn_qkv".to_string()));
    assert_eq!(n[21], (Slot::FfnDown(2), "v.blk.2.ffn_down".to_string()));
    assert_eq!(n[22], (Slot::MergerNorm, "v.post_ln".to_string()));
    assert_eq!(n[23], (Slot::MergerFc1, "mm.0".to_string()));
    assert_eq!(n[24], (Slot::MergerFc2, "mm.2".to_string()));
    assert_eq!(n[25], (Slot::DeepstackNorm(0), "v.deepstack.0.norm".to_string()));
    assert_eq!(n[30], (Slot::DeepstackFc2(1), "v.deepstack.2.fc2".to_string()));
}

#[test]
fn incomplete_headers_are_refused() {
    for gone in 0..6 {
        let mut n = numbers();
        n.remove(gone);
        let ct = content(&n, Some(vec![true]));
        assert!(matches!(Qwen3VLVisionModel::new_from_gguf(&ct), Err(ModelError::Metadata)));
    }
    let ct = content(&numbers(), None);
    assert!(matches!(VisionMetadata::read(&ct), Err(ModelError::Metadata)));
    let list = entries(&numbers(), Some(vec![true]));
    let ct = read_header(&written(&list)).unwrap();
    assert!(matches!(VisionMetadata::read(&ct), Err(ModelError::Metadata)));
    let mut whole = entries(&numbers(), Some(vec![true]));
    whole.push((epsilon().0, Value::U32(1)));
    let ct = read_header(&written(&whole)).unwrap();
    assert!(matches!(VisionMetadata::read(&ct), Err(ModelError::Metadata)));
}

#[test]
fn headers_that_divide_by_zero_are_refused() {
    for zero in [2, 4] {
        let mut n = numbers();
        n[zero].1 = 0;
        let ct = content(&n, Some(vec![]));
        assert!(matches!(Qwen3VLVisionModel::new_from_gguf(&ct), Err(ModelError::Metadata)));
    }
}

#[test]
fn header_squares_too_large_to_count_are_refused() {
    let mut n = numbers();
    n[0].1 = u32::MAX;
    n[1].1 = u32::MAX;
    let ct = content(&n, Some(vec![]));
    assert!(matches!(Qwen3VLVisionModel::new_from_gguf(&ct), Err(ModelError::Overflow)));
}

#[test]
fn headers_are_read_from_bytes() {
    let bytes = header_bytes();
    assert!(check_header(&bytes));
    let m = VisionMetadata::read(&read_header(&bytes).unwrap()).unwrap();
    assert_eq!((m.patch_size, m.image_size, m.block_count), (16, 70, 3));
    assert_eq!(m.is_deepstack_layers, vec![true, false, true]);
    assert!(matches!(read_header(&[]), Err(ModelError::Source)));
    assert!(matches!(read_header(&bytes[..40]), Err(ModelError::Source)));
    let mut other = bytes.clone();
    other[0] = 0;
    assert!(matches!(read_header(&other), Err(ModelError::Source)));
    let mut version = bytes.clone();
    version[4] = 9;
    assert!(matches!(read_header(&version), Err(ModelError::Source)));
}

#[test]
fn an_alignment_of_zero_is_refused() {
    let aligned = |v: Value| written(&[("general.alignment".to_string(), v)]);
    assert!(check_header(&aligned(Value::U32(64))));
    assert!(read_header(&aligned(Value::I32(-1))).is_ok());
    assert!(read_header(&aligned(Value::F32(0.0))).is_ok());
    for zero in [
        Value::U8(0),
        Value::I8(0),
        Value::U16(0),
        Value::I16(0),
        Value::U32(0),
        Value::I32(0),
    ] {
        assert!(matches!(read_header(&aligned(zero)), Err(ModelError::Source)));
    }
    let padded = written(&[("general.alignment\0\0".to_string(), Value::U32(0))]);
    assert!(matches!(read_header(&padded), Err(ModelError::Source)));
    let other = written(&[("general.alignments".to_string(), Value::U32(0))]);
    assert!(read_header(&other).is_ok());
    let twice = written(&[
        ("general.alignment".to_string(), Value::U32(0)),
        ("general.alignment".to_string(), Value::U32(32)),
    ]);
    assert!(read_header(&twice).is_ok());
}

#[test]
fn lengths_beyond_the_file_are_refused() {
    let text = written(&[("k".to_string(), Value::String("abc".to_string()))]);
    assert!(read_header(&text).is_ok());
    // The length of the string comes after the key and the type.
    let mut long = text.clone();
    long[24 + 8 + 1 + 4 + 7] = 0xff;
    assert!(matches!(read_header(&long), Err(ModelError::Source)));
    let list = written(&[("k".to_string(), Value::Array(vec![Value::U8(1)]))]);
    assert!(read_header(&list).is_ok());
    let mut long = list.clone();
    long[24 + 8 + 1 + 4 + 4 + 7] = 0x7f;
    assert!(matches!(read_header(&long), Err(ModelError::Source)));
    let mut many = text.clone();
    many[8 + 7] = 1;
    assert!(matches!(read_header(&many), Err(ModelError::Source)));
}

#[test]
fn deep_arrays_are_refused() {
    let nested = |depth: usize| {
        let mut v = Value::U8(1);
        for _ in 0..depth {
            v = Value::Array(vec![v]);
        }
        written(&[("k".to_string(), v)])
    };
    assert!(read_header(&nested(3)).is_ok());
    assert!(read_header(&nested(256)).is_ok());
    assert!(matches!(read_header(&nested(257)), Err(ModelError::Source)));
}

#[test]
fn stored_tensors_are_described_in_the_header() {
    let t = Tensor::zeros((2, 3), DType::F32, &Device::Cpu).unwrap();
    let q = QTensor::quantize(&t, GgmlDType::F32).unwrap();
    let mut bytes = Cursor::new(Vec::new());
    gguf_file::write(&mut bytes, &[], &[("w", &q)]).unwrap();
    let bytes = bytes.into_inner();
    let ct = read_header(&bytes).unwrap();
    assert_eq!(ct.tensor_infos["w"].shape.dims(), &[2, 3]);
    // The number of dimensions comes after the name.
    let mut many = bytes.clone();
    many[24 + 8 + 1 + 3] = 0xff;
    assert!(matches!(read_header(&many), Err(ModelError::Source)));
}

#[test]
fn headers_of_the_first_version() {
    let mut bytes: Vec<u8> = vec![];
    bytes.extend(0x46554747u32.to_le_bytes());
    bytes.extend(1u32.to_le_bytes());
    bytes.extend(0u32.to_le_bytes());
    bytes.extend(1u32.to_le_bytes());
    bytes.extend(1u32.to_le_bytes());
    bytes.push(b'k');
    bytes.extend(4u32.to_le_bytes());
    bytes.extend(7u32.to_le_bytes());
    let ct = read_header(&bytes).unwrap();
    assert_eq!(ct.metadata["k"].to_u32().unwrap(), 7);
    assert!(matches!(read_header(&bytes[..bytes.len() - 1]), Err(ModelError::Source)));
}

#[test]
fn stored_tensor_names() {
    let norm = LoadStep { slot: Slot::Norm1(4), name: "v.blk.4.ln1".to_string() };
    assert_eq!(norm.slot.kind(), LoadKind::Norm);
    assert_eq!(norm.weight_tensor(), "v.blk.4.ln1.weight");
    assert_eq!(norm.bias_tensor(), Some("v.blk.4.ln1.bias".to_string()));
    let dense = LoadStep { slot: Slot::PatchSecond, name: "v.patch_embd.weight.1".to_string() };
    assert_eq!(dense.slot.kind(), LoadKind::Dense);
    assert_eq!(dense.weight_tensor(), "v.patch_embd.weight.1");
    assert_eq!(dense.bias_tensor(), None);
    assert_eq!(Slot::MergerFc2.kind(), LoadKind::Linear);
}

#[test]
fn components_reload_what_they_were_read_from() {
    let (_, first) = Qwen3VLVisionBlock::new_from_gguf(2, 8, 12, "v.blk.12");
    let again = Qwen3VLVisionBlock::load_weights_inplace(12, "v.blk.12");
    assert_eq!(names(&first), names(&again));
    let first = Qwen3VLVisionPatchEmbed::new_from_gguf();
    assert_eq!(names(&first), names(&Qwen3VLVisionPatchEmbed::load_weights_inplace()));
    let (_, first) =
        Qwen3VLVisionPatchMerger::new_from_gguf(true, 8, 2, Some(1), "a", "b", "c").unwrap();
    let again = Qwen3VLVisionPatchMerger::load_weights_inplace(Some(1), "a", "b", "c");
    assert_eq!(names(&first), names(&again));
    let (_, first) = Qwen3VLVisionAttention::new_from_gguf(2, 8, 3, "v.blk.3");
    assert_eq!(names(&first), names(&Qwen3VLVisionAttention::load_weights_inplace(3, "v.blk.3")));
}

#[test]
fn without_a_source_weights_stay() {
    let mut m = model();
    assert!(m.unload_weights().is_empty());
    assert!(m.is_weights_loaded);
    assert!(m.reload_weights().is_none());
    assert!(m.load_block(0).is_empty());
    assert!(m.load_shared_weights().is_empty());
    m.set_block_streaming(true);
    assert!(!m.stream_blocks);
}

#[test]
fn a_failed_source_keeps_weights() {
    let mut m = model();
    let r = m.set_mmproj_source(Some("gone.gguf".to_string()), None);
    assert!(matches!(r, Err(ModelError::Source)));
    assert!(!m.is_jit_capable());
    assert_eq!(m.mmproj_path, Some("gone.gguf".to_string()));
    assert!(m.unload_weights().is_empty());
    m.set_mmproj_path(Some("gone.gguf".to_string()), None);
    assert!(!m.is_jit_capable() && m.is_weights_loaded);
    let r = m.set_mmproj_source(Some("odd.gguf".to_string()), Some(&[1, 2, 3]));
    assert!(matches!(r, Err(ModelError::Source)));
    assert!(!m.is_jit_capable());
    m.register_source(Some("mmproj.gguf".to_string()), Some(header())).unwrap();
    assert!(m.is_jit_capable());
}

#[test]
fn unload_and_reload() {
    let mut m = model();
    m.set_mmproj_source(Some("mmproj.gguf".to_string()), Some(&header_bytes())).unwrap();
    assert!(m.is_jit_capable());
    let dropped = m.unload_weights();
    assert_eq!(
        dropped,
        vec![
            Component::PatchEmbed,
            Component::Positions,
            Component::Block(0),
            Component::Block(1),
            Component::Block(2),
            Component::Merger,
            Component::DeepstackMerger(0),
            Component::DeepstackMerger(1)
        ]
    );
    assert!(!m.is_weights_loaded);
    assert!(m.unload_weights().is_empty());
    let steps = m.reload_weights().unwrap();
    assert_eq!(steps.len(), 3 + 1 + 3 + 6 + 3 * 6);
    assert_eq!(steps[4].name, "v.post_ln");
    assert_eq!(steps[13].name, "v.blk.0.ln1");
    assert!(!m.is_weights_loaded);
    m.weights_reloaded();
    assert!(m.is_weights_loaded);
    assert!(m.reload_weights().is_none());
}

#[test]
fn streaming_skips_the_blocks_at_a_reload() {
    let mut m = model();
    m.set_mmproj_path(Some("mmproj.gguf".to_string()), Some(&header_bytes()));
    m.set_block_streaming(true);
    assert!(m.stream_blocks);
    m.unload_weights();
    let steps = m.reload_weights().unwrap();
    assert_eq!(steps.len(), 3 + 1 + 3 + 6);
    assert!(steps.iter().all(|s| !s.name.starts_with("v.blk.")));
    assert_eq!(m.load_block(2)[5].name, "v.blk.2.ffn_down");
    m.set_mmproj_source(None, Some(&header_bytes())).unwrap();
    assert!(!m.is_jit_capable());
}

fn floors(rows: Vec<u32>, columns: Vec<u32>) -> Floors {
    Floors { rows, columns }
}

#[test]
fn position_tables_around_patches() {
    let m = model();
    let g = grid(vec![vec![1, 2, 4]]);
    let p = m.fast_pos_embed_interpolate(&g, &vec![floors(vec![0, 3], vec![0, 1, 2, 3])]).unwrap();
    let e = p.entries.to_vec2::<u32>().unwrap();
    assert_eq!(e[0], vec![0, 1, 2, 3, 12, 13, 14, 15]);
    assert_eq!(e[1], vec![1, 2, 3, 3, 13, 14, 15, 15]);
    assert_eq!(e[2], vec![4, 5, 6, 7, 12, 13, 14, 15]);
    assert_eq!(e[3], vec![5, 6, 7, 7, 13, 14, 15, 15]);
    assert_eq!(p.lengths, vec![8]);
    assert_eq!(p.orders, vec![vec![0, 1, 4, 5, 2, 3, 6, 7]]);
}

#[test]
fn position_tables_repeat_for_frames() {
    let m = model();
    let g = grid(vec![vec![2, 2, 2]]);
    let p = m.fast_pos_embed_interpolate(&g, &vec![floors(vec![0, 3], vec![0, 3])]).unwrap();
    assert_eq!(p.entries.dims(), &[4, 4]);
    assert_eq!(p.orders, vec![vec![0, 1, 2, 3, 0, 1, 2, 3]]);
}

#[test]
fn refused_position_tables() {
    let m = model();
    let f = || vec![floors(vec![0, 3], vec![0, 3])];
    let none = Tensor::zeros((0, 3), DType::U32, &Device::Cpu).unwrap();
    assert!(matches!(m.fast_pos_embed_interpolate(&none, &vec![]), Err(ModelError::NoPictures)));
    let wide = grid(vec![vec![1, 2, 2, 2]]);
    assert!(matches!(m.fast_pos_embed_interpolate(&wide, &f()), Err(ModelError::GridWidth)));
    let g = grid(vec![vec![1, 2, 2]]);
    assert!(matches!(m.fast_pos_embed_interpolate(&g, &vec![]), Err(ModelError::ShapeMismatch)));
    let outside = vec![floors(vec![0, 4], vec![0, 3])];
    assert!(matches!(m.fast_pos_embed_interpolate(&g, &outside), Err(ModelError::ShapeMismatch)));
    let odd = grid(vec![vec![1, 2, 3]]);
    let three = vec![floors(vec![0, 3], vec![0, 1, 3])];
    assert!(matches!(m.fast_pos_embed_interpolate(&odd, &three), Err(ModelError::PartialSquare)));
    let mut big = model();
    big.num_grid_per_side = 0x1_0001;
    assert!(matches!(big.fast_pos_embed_interpolate(&g, &f()), Err(ModelError::Overflow)));
    let floats = Tensor::zeros((1, 3), DType::F32, &Device::Cpu).unwrap();
    assert!(matches!(m.fast_pos_embed_interpolate(&floats, &f()), Err(ModelError::ElementType)));
}

#[test]
fn the_largest_position_table() {
    let mut m = model();
    m.num_grid_per_side = 0x1_0000;
    let g = grid(vec![vec![1, 2, 2]]);
    let p = m
        .fast_pos_embed_interpolate(&g, &vec![floors(vec![0, 0xffff], vec![0, 0xffff])])
        .unwrap();
    let entries = p.entries.to_vec2::<u32>().unwrap();
    assert_eq!(entries[0], vec![0, 0xffff, 0xffff_0000, 0xffff_ffff]);
}

#[test]
fn rotary_coordinates_go_square_by_square() {
    let p = model().rot_pos_emb(&grid(vec![vec![2, 2, 4]])).unwrap();
    assert_eq!(p.table_len, 4);
    let rows = p.rows.to_vec1::<u32>().unwrap();
    let columns = p.columns.to_vec1::<u32>().unwrap();
    assert_eq!(rows, vec![0, 0, 1, 1, 0, 0, 1, 1, 0, 0, 1, 1, 0, 0, 1, 1]);
    assert_eq!(columns, vec![0, 1, 0, 1, 2, 3, 2, 3, 0, 1, 0, 1, 2, 3, 2, 3]);
}

#[test]
fn rotary_coordinates_of_several_pictures() {
    let p = model().rot_pos_emb(&grid(vec![vec![1, 2, 2], vec![1, 4, 2]])).unwrap();
    assert_eq!(p.table_len, 4);
    assert_eq!(p.rows.to_vec1::<u32>().unwrap(), vec![0, 0, 1, 1, 0, 0, 1, 1, 2, 2, 3, 3]);
    assert_eq!(p.columns.to_vec1::<u32>().unwrap(), vec![0, 1, 0, 1, 0, 1, 0, 1, 0, 1, 0, 1]);
    let none = Tensor::zeros((0, 3), DType::U32, &Device::Cpu).unwrap();
    assert!(matches!(model().rot_pos_emb(&none), Err(ModelError::NoPictures)));
    let huge = grid(vec![vec![u32::MAX, u32::MAX, u32::MAX]]);
    assert!(matches!(model().rot_pos_emb(&huge), Err(ModelError::Overflow)));
}

#[test]
fn pictures_are_encoded_side_by_side() {
    let m = model();
    let list = |t: &Tensor| t.to_vec1::<u32>().unwrap();
    let x = m.rot_pos_emb(&grid(vec![vec![1, 2, 4]])).unwrap();
    let y = m.rot_pos_emb(&grid(vec![vec![2, 4, 2]])).unwrap();
    let both = m.rot_pos_emb(&grid(vec![vec![1, 2, 4], vec![2, 4, 2]])).unwrap();
    assert_eq!(list(&both.rows), [list(&x.rows), list(&y.rows)].concat());
    assert_eq!(list(&both.columns), [list(&x.columns), list(&y.columns)].concat());
    let g = |t, h, w| Thw { t, h, w };
    assert_eq!(chunk_frames(&vec![g(1, 2, 4), g(2, 4, 2)]).unwrap(), vec![8, 8, 8]);
}

#[test]
fn deepstack_mergers_norm_after_regrouping() {
    for m in [model(), Qwen3VLVisionModel::new_from_gguf(&header()).unwrap().0] {
        let last = m.merger(None).unwrap();
        assert_eq!((last.hidden_size, last.use_postshuffle_norm), (32, false));
        for k in 0..2 {
            let deep = m.merger(Some(k)).unwrap();
            assert_eq!((deep.hidden_size, deep.use_postshuffle_norm), (32, true));
        }
        assert!(matches!(m.merger(Some(2)), Err(ModelError::ShapeMismatch)));
        assert_eq!(m.blocks.len(), 3);
        assert!(m.blocks.iter().all(|b| b.attn.num_heads == 2 && b.attn.head_dim == 4));
    }
}

#[test]
fn pictures_need_a_merge_size() {
    let mut m = model();
    m.spatial_merge_size = 0;
    let g = grid(vec![vec![1, 2, 2]]);
    let f = vec![floors(vec![0, 3], vec![0, 3])];
    assert!(matches!(m.rot_pos_emb(&g), Err(ModelError::MergeSize)));
    assert!(matches!(m.fast_pos_embed_interpolate(&g, &f), Err(ModelError::MergeSize)));
    assert!(matches!(m.forward(&g, &f), Err(ModelError::MergeSize)));
}

#[test]
fn attention_chunks_stand_alone() {
    let first = plan_tiles(&vec![3, 2], 5, 2).unwrap();
    let next = plan_tiles(&vec![4], 4, 2).unwrap();
    let both = plan_tiles(&vec![3, 2, 4], 9, 2).unwrap();
    assert_eq!(both[..first.len()], first[..]);
    for (t, u) in both[first.len()..].iter().zip(&next) {
        assert_eq!(t.queries.start, u.queries.start + 5);
        assert_eq!(t.keys.start, u.keys.start + 5);
        assert_eq!((t.queries.take, t.keys.take), (u.queries.take, u.keys.take));
    }
    assert_eq!(both.len(), first.len() + next.len());
}

#[test]
fn a_resident_pass() {
    let m = model();
    let g = grid(vec![vec![2, 2, 2]]);
    let p = m.forward(&g, &vec![floors(vec![0, 3], vec![0, 3])]).unwrap();
    assert_eq!(p.chunks, vec![4, 4]);
    assert!(!p.streaming);
    assert_eq!(
        p.actions,
        vec![
            BlockAction::Run(0),
            BlockAction::Deepstack(0),
            BlockAction::Run(1),
            BlockAction::Run(2),
            BlockAction::Deepstack(1)
        ]
    );
    assert_eq!(p.positions.orders[0].len(), p.rotary.rows.dims()[0]);
    assert_eq!(p.positions.orders[0].len(), p.chunks.iter().sum::<usize>());
}

#[test]
fn a_streamed_pass() {
    let mut m = model();
    m.set_mmproj_path(Some("mmproj.gguf".to_string()), Some(&header_bytes()));
    m.set_block_streaming(true);
    let g = grid(vec![vec![1, 2, 2]]);
    let p = m.forward(&g, &vec![floors(vec![0, 3], vec![0, 3])]).unwrap();
    assert!(p.streaming);
    assert_eq!(
        p.actions,
        vec![
            BlockAction::Load(0),
            BlockAction::Run(0),
            BlockAction::Deepstack(0),
            BlockAction::Clear(0),
            BlockAction::Load(1),
            BlockAction::Run(1),
            BlockAction::Clear(1),
            BlockAction::Load(2),
            BlockAction::Run(2),
            BlockAction::Deepstack(1),
            BlockAction::Clear(2)
        ]
    );
    m.set_mmproj_path(None, None);
    assert!(!m.forward(&g, &vec![floors(vec![0, 3], vec![0, 3])]).unwrap().streaming);
}

#[test]
fn attention_tiles() {
    let a = Qwen3VLVisionAttention { num_heads: 2, head_dim: 4 };
    let tiles = a.forward(7, &vec![5, 2], 2).unwrap();
    let shape: Vec<(usize, usize, usize, usize)> =
        tiles.iter().map(|t| (t.queries.start, t.queries.take, t.keys.start, t.keys.take)).collect();
    assert_eq!(shape, vec![(0, 2, 0, 5), (2, 2, 0, 5), (4, 1, 0, 5), (5, 2, 5, 2)]);
    assert_eq!(a.forward(7, &vec![5, 2], 0).unwrap().len(), 2);
    assert!(matches!(a.forward(6, &vec![5, 2], 2), Err(ModelError::ShapeMismatch)));
    assert!(matches!(a.forward(8, &vec![5, 2], 2), Err(ModelError::ShapeMismatch)));
    assert!(matches!(a.forward(0, &vec![], 2), Err(ModelError::ShapeMismatch)));
    assert_eq!(Qwen3VLVisionAttention::max_keys(&vec![5, 2], 7), 5);
    assert_eq!(Qwen3VLVisionAttention::max_keys(&vec![], 7), 7);
}

#[test]
fn grids_and_their_sizes() {
    let g = parse_grid(&vec![vec![1, 4, 6], vec![3, 2, 2]]).unwrap();
    assert_eq!(g[1], Thw { t: 3, h: 2, w: 2 });
    assert!(matches!(parse_grid(&vec![vec![1, 2]]), Err(ModelError::GridWidth)));
    assert_eq!(split_features(&g, 2).unwrap(), vec![6, 3]);
    assert_eq!(chunk_frames(&g).unwrap(), vec![24, 4, 4, 4]);
    assert_eq!(find_longest_side(&g), 6);
    assert_eq!(find_longest_side(&vec![]), 0);
    let huge = vec![Thw { t: 1, h: u32::MAX, w: 2 }];
    assert!(matches!(split_features(&huge, 2), Err(ModelError::Overflow)));
}

#[test]
fn a_full_reload_reads_what_the_first_load_read() {
    let (mut m, first) = Qwen3VLVisionModel::new_from_gguf(&header()).unwrap();
    m.set_mmproj_path(Some("mmproj.gguf".to_string()), Some(&header_bytes()));
    m.unload_weights();
    let mut first: Vec<String> = first.iter().map(|s| format!("{:?} {}", s.slot, s.name)).collect();
    let again = m.reload_weights().unwrap();
    let mut again: Vec<String> = again.iter().map(|s| format!("{:?} {}", s.slot, s.name)).collect();
    first.sort();
    again.sort();
    assert_eq!(first, again);
}

#[test]
fn blocks_have_names_of_their_own() {
    let name = |i: usize| Qwen3VLVisionBlock::load_weights_inplace(i, &format!("v.blk.{}", decimal_text(i)))[0].name.clone();
    assert_eq!(name(0), "v.blk.0.ln1");
    assert_eq!(name(10), "v.blk.10.ln1");
    assert_eq!(decimal_text(0), "0");
    assert_eq!(decimal_text(1090), "1090");
    assert_ne!(name(1), name(11));
    assert_eq!(decimal_text(usize::MAX), usize::MAX.to_string());
}

#[test]
fn every_patch_is_taken_once_per_frame() {
    let m = model();
    let g = grid(vec![vec![1, 6, 4]]);
    let f = vec![floors(vec![0, 0, 1, 1, 2, 3], vec![0, 1, 2, 3])];
    let mut order = m.fast_pos_embed_interpolate(&g, &f).unwrap().orders[0].clone();
    assert_eq!(order[0..8].to_vec(), vec![0, 1, 4, 5, 2, 3, 6, 7]);
    order.sort();
    assert_eq!(order, (0..24).collect::<Vec<u32>>());
}
