use candle_core::{DType, Device, Tensor};
use qwen3vl::config::{Qwen3VLConfig, Qwen3VLTextConfig, Qwen3VLVisionConfig};
use qwen3vl::error::ModelError;
use qwen3vl::marks::MarkRows;
use qwen3vl::model::{ImageSource, Qwen3VLModel, StoredImages};
use qwen3vl::modules::ModuleShape;
use qwen3vl::prefill::{plan_passes, PassVisual};
use qwen3vl::rope::Position;
use qwen3vl::spans::cut;
use qwen3vl::tensor::Element;
use qwen3vl::text::Qwen3VLTextModel;
use qwen3vl::visual::{merge_visual, VisualSource};

const IMAGE: u32 = 101;
const VIDEO: u32 = 102;
const START: u32 = 100;

fn config(tied: bool) -> Qwen3VLConfig {
    Qwen3VLConfig {
        vision_config: Qwen3VLVisionConfig {
            patch_size: 16,
            temporal_patch_size: 2,
            in_channels: 3,
            hidden_size: 8,
            intermediate_size: 32,
            out_hidden_size: 24,
            num_heads: 2,
            depth: 3,
            spatial_merge_size: 2,
            num_position_embeddings: 16,
            deepstack_visual_indexes: vec![0, 2],
        },
        text_config: Qwen3VLTextConfig {
            vocab_size: 1000,
            hidden_size: 24,
            num_hidden_layers: 4,
            head_dim: 6,
            mrope_section: vec![1, 1, 1],
        },
        image_token_id: IMAGE,
        video_token_id: VIDEO,
        vision_start_token_id: START,
        tie_word_embeddings: tied,
    }
}

fn model() -> Qwen3VLModel {
    Qwen3VLModel::new(config(true), 4).unwrap().0
}

fn tensor(rows: Vec<Vec<u32>>) -> Tensor {
    Tensor::new(rows, &Device::Cpu).unwrap()
}

fn vector(v: Vec<u32>) -> Tensor {
    Tensor::new(v, &Device::Cpu).unwrap()
}

fn at(t: u32, h: u32, w: u32) -> Position {
    Position { t, h, w }
}

fn all(p: u32) -> Position {
    at(p, p, p)
}

fn prompt() -> Tensor {
    tensor(vec![vec![10, 20, START, IMAGE, IMAGE, IMAGE, IMAGE, 30]])
}

fn marks(rows: Vec<Vec<bool>>) -> MarkRows {
    let width = rows[0].len();
    MarkRows { rows, width }
}

fn pair(x: f32) -> Option<(Tensor, Tensor)> {
    Some((Tensor::new(x, &Device::Cpu).unwrap(), Tensor::new(-x, &Device::Cpu).unwrap()))
}

fn keys(cache: &[Option<(Tensor, Tensor)>]) -> Vec<Option<f32>> {
    cache.iter().map(|c| c.as_ref().map(|p| p.0.to_scalar::<f32>().unwrap())).collect()
}

#[test]
fn layers_of_the_whole_model() {
    let (m, list) = Qwen3VLModel::new(config(true), 4).unwrap();
    assert_eq!(list[0].path, "model.visual.patch_embed.proj.weight");
    assert_eq!(list.last().unwrap().path, "model.language_model.norm");
    assert!(list.iter().any(|r| r.path == "model.language_model.layers.3"));
    assert!(m.rope_deltas.is_none());
    assert_eq!(m.language_model.layers.len(), 4);
    let (_, list) = Qwen3VLModel::new(config(false), 4).unwrap();
    assert_eq!(list.last().unwrap().path, "lm_head");
    assert!(matches!(
        list.last().unwrap().shape,
        ModuleShape::LinearNoBias { inputs: 24, outputs: 1000 }
    ));
}

#[test]
fn model_too_large_to_count_is_refused() {
    let mut c = config(true);
    c.vision_config.hidden_size = usize::MAX;
    assert!(matches!(Qwen3VLModel::new(c, 4), Err(ModelError::Overflow)));
}

#[test]
fn placeholder_masks() {
    let m = model();
    let ids = tensor(vec![vec![1, IMAGE, VIDEO, IMAGE]]);
    let t = m.get_placeholder_mask(&ids, true).unwrap();
    assert_eq!(t.dtype(), DType::U8);
    assert_eq!(t.to_vec2::<u8>().unwrap(), vec![vec![0, 1, 0, 1]]);
    let t = m.get_placeholder_mask(&ids, false).unwrap();
    assert_eq!(t.to_vec2::<u8>().unwrap(), vec![vec![0, 0, 1, 0]]);
    let t = m.get_placeholder_mask(&vector(vec![IMAGE, 1]), true).unwrap();
    assert_eq!((t.dims(), t.dtype()), (&[2usize][..], DType::U8));
    assert_eq!(t.to_vec1::<u8>().unwrap(), vec![1, 0]);
    let single = Tensor::new(VIDEO, &Device::Cpu).unwrap();
    assert_eq!(m.get_placeholder_mask(&single, false).unwrap().to_vec1::<u8>().unwrap(), vec![1]);
    let signed = Tensor::new(vec![1i64], &Device::Cpu).unwrap();
    assert!(matches!(m.get_placeholder_mask(&signed, true), Err(ModelError::ElementType)));
    let short = Tensor::from_vec(vec![1u32], 4, &Device::Cpu).unwrap();
    assert!(matches!(m.get_placeholder_mask(&short, true), Err(ModelError::Storage)));
}

#[test]
fn feature_rows_of_pictures() {
    let m = model();
    let g = tensor(vec![vec![1, 4, 4], vec![2, 2, 6]]);
    assert_eq!(m.get_vision_features(&g).unwrap(), vec![4, 6]);
    assert!(matches!(m.get_vision_features(&tensor(vec![vec![4, 4]])), Err(ModelError::GridWidth)));
}

#[test]
fn rope_index_as_tensors() {
    let m = model();
    let g = tensor(vec![vec![1, 4, 4]]);
    let (p, d) = m.get_rope_index(&prompt(), Some(&g), None, None).unwrap();
    assert_eq!(p.dims(), &[3, 1, 8]);
    let v = p.to_vec3::<u32>().unwrap();
    assert_eq!(v[0][0], vec![0, 1, 2, 3, 3, 3, 3, 5]);
    assert_eq!(v[1][0], vec![0, 1, 2, 3, 3, 4, 4, 5]);
    assert_eq!(v[2][0], vec![0, 1, 2, 3, 4, 3, 4, 5]);
    assert_eq!(d.to_vec2::<i64>().unwrap(), vec![vec![-2]]);
}

#[test]
fn rope_index_with_a_mask() {
    let m = model();
    let ids = tensor(vec![vec![1, 2, 3]]);
    let (p, d) = m.get_rope_index(&ids, None, None, Some(&tensor(vec![vec![0, 1, 1]]))).unwrap();
    assert_eq!(p.to_vec3::<u32>().unwrap()[0][0], vec![1, 0, 1]);
    assert_eq!(d.to_vec2::<u32>().unwrap(), vec![vec![4294967295]]);
    let r = m.get_rope_index(&ids, None, None, Some(&vector(vec![1])));
    assert!(matches!(r, Err(ModelError::Rank)));
}

#[test]
fn positions_round_a_wide_picture() {
    let mut c = config(true);
    c.image_token_id = 5;
    c.video_token_id = 6;
    c.vision_start_token_id = 4;
    let m = Qwen3VLModel::new(c, 4).unwrap().0;
    let ids = tensor(vec![vec![7, 4, 5, 5, 5, 5, 5, 5, 8, 9]]);
    let (p, d) = m.get_rope_index(&ids, Some(&tensor(vec![vec![1, 4, 6]])), None, None).unwrap();
    let v = p.to_vec3::<u32>().unwrap();
    assert_eq!(v[0][0], vec![0, 1, 2, 2, 2, 2, 2, 2, 5, 6]);
    assert_eq!(v[1][0], vec![0, 1, 2, 2, 2, 3, 3, 3, 5, 6]);
    assert_eq!(v[2][0], vec![0, 1, 2, 3, 4, 2, 3, 4, 5, 6]);
    assert_eq!(d.to_vec2::<i64>().unwrap(), vec![vec![-3]]);
}

#[test]
fn text_of_any_integer_type_is_numbered() {
    let m = model();
    let ids = tensor(vec![vec![9, 9, 9], vec![8, 8, 8]]);
    let (p, d) = m.get_rope_index(&ids, None, None, None).unwrap();
    assert_eq!((p.dims(), p.dtype()), (&[3usize, 2, 3][..], DType::U32));
    assert_eq!(p.to_vec3::<u32>().unwrap(), vec![vec![vec![0, 1, 2]; 2]; 3]);
    assert_eq!(d.to_vec2::<u32>().unwrap(), vec![vec![0], vec![0]]);
    let signed = ids.to_dtype(DType::I64).unwrap();
    let (p, d) = m.get_rope_index(&signed, None, None, None).unwrap();
    assert_eq!(p.to_vec3::<u32>().unwrap(), vec![vec![vec![0, 1, 2]; 2]; 3]);
    assert_eq!(d.to_vec2::<i64>().unwrap(), vec![vec![0], vec![0]]);
    let bytes = ids.to_dtype(DType::U8).unwrap();
    let (_, d) = m.get_rope_index(&bytes, None, None, None).unwrap();
    assert_eq!(d.to_vec2::<u8>().unwrap(), vec![vec![0], vec![0]]);
    let int = ids.to_dtype(DType::I32).unwrap();
    let (p, d) = m.get_rope_index(&int, None, None, None).unwrap();
    assert_eq!(p.to_vec3::<u32>().unwrap(), vec![vec![vec![0, 1, 2]; 2]; 3]);
    assert_eq!((d.dims(), d.dtype()), (&[2usize, 1][..], DType::I32));
    assert_eq!(d.to_dtype(DType::I64).unwrap().to_vec2::<i64>().unwrap(), vec![vec![0], vec![0]]);
    let (p, d) = m.get_rope_index(&vector(vec![7, 7]), None, None, None).unwrap();
    assert_eq!((p.dims(), d.dims()), (&[3usize, 2, 2][..], &[2usize, 1][..]));
    for dtype in [DType::F32, DType::F16, DType::BF16, DType::F64] {
        let real = ids.to_dtype(dtype).unwrap();
        let (p, d) = m.get_rope_index(&real, None, None, None).unwrap();
        assert_eq!(p.to_vec3::<u32>().unwrap(), vec![vec![vec![0, 1, 2]; 2]; 3]);
        assert_eq!((d.dims(), d.dtype()), (&[2usize, 1][..], dtype));
        let zeros = d.to_dtype(DType::F64).unwrap().to_vec2::<f64>().unwrap();
        assert_eq!(zeros, vec![vec![0.0], vec![0.0]]);
    }
    let single = Tensor::new(3u32, &Device::Cpu).unwrap();
    let r = m.get_rope_index(&single, None, None, None);
    assert!(matches!(r, Err(ModelError::Rank)));
}

#[test]
fn text_needs_no_merge_size() {
    let mut c = config(true);
    c.vision_config.spatial_merge_size = 0;
    let mut m = Qwen3VLModel::new(c, 4).unwrap().0;
    let ids = tensor(vec![vec![1, 2]]);
    assert!(m.get_rope_index(&ids, None, None, None).is_ok());
    assert!(m.forward(&ids, None, None, None, None, None, 0).is_ok());
    let g = tensor(vec![vec![1, 4, 4]]);
    assert!(m.get_rope_index(&ids, Some(&g), None, None).is_ok());
    assert!(m.forward(&ids, None, Some(&g), None, None, Some(&vector(vec![0])), 0).is_ok());
    let r = m.get_rope_index(&prompt(), Some(&g), None, None);
    assert!(matches!(r, Err(ModelError::MergeSize)));
    let r = m.forward(&prompt(), None, Some(&g), None, None, Some(&vector(vec![0])), 0);
    assert!(matches!(r, Err(ModelError::MergeSize)));
    assert!(matches!(m.get_vision_features(&g), Err(ModelError::MergeSize)));
}

#[test]
fn deep_masks_beside_pictures() {
    let m = model();
    let g = tensor(vec![vec![1, 4, 4]]);
    let plain = m.get_rope_index(&prompt(), Some(&g), None, None).unwrap();
    for shape in [vec![1usize, 8, 1], vec![2, 8, 1, 1]] {
        let ones = Tensor::ones(shape, DType::U32, &Device::Cpu).unwrap();
        let (p, d) = m.get_rope_index(&prompt(), Some(&g), None, Some(&ones)).unwrap();
        assert_eq!(p.to_vec3::<u32>().unwrap(), plain.0.to_vec3::<u32>().unwrap());
        assert_eq!(d.to_vec2::<i64>().unwrap(), plain.1.to_vec2::<i64>().unwrap());
    }
    let zeros = Tensor::zeros((1, 8, 1), DType::U32, &Device::Cpu).unwrap();
    let r = m.get_rope_index(&prompt(), Some(&g), None, Some(&zeros));
    assert!(matches!(r, Err(ModelError::Rank)));
    let none = Tensor::ones((0, 8, 1), DType::U32, &Device::Cpu).unwrap();
    let r = m.get_rope_index(&prompt(), Some(&g), None, Some(&none));
    assert!(matches!(r, Err(ModelError::ShapeMismatch)));
    let bytes = Tensor::ones((1, 8, 1), DType::U8, &Device::Cpu).unwrap();
    let r = m.get_rope_index(&prompt(), Some(&g), None, Some(&bytes));
    assert!(matches!(r, Err(ModelError::ElementType)));
    let r = m.get_rope_index(&prompt(), Some(&g), None, Some(&vector(vec![1])));
    assert!(matches!(r, Err(ModelError::Rank)));
    let ones = Tensor::ones((1, 8, 1), DType::U32, &Device::Cpu).unwrap();
    let r = m.get_rope_index(&prompt(), None, None, Some(&ones));
    assert!(matches!(r, Err(ModelError::Rank)));
    // Without a prompt a mask is not looked at.
    let empty = Tensor::zeros((0, 4), DType::U32, &Device::Cpu).unwrap();
    let (p, d) = m.get_rope_index(&empty, Some(&g), None, Some(&bytes)).unwrap();
    assert_eq!((p.dims(), d.dims()), (&[3usize, 0, 4][..], &[1usize, 0][..]));
}

#[test]
fn only_the_last_token_is_scored() {
    let mut m = model();
    for (len, passes, scored) in [(1usize, 1usize, 0usize), (8, 1, 7), (256, 1, 255), (600, 3, 87)] {
        let ids = tensor(vec![vec![1; len]; 2]);
        let p = m.forward(&ids, None, None, None, None, Some(&vector(vec![0])), 0).unwrap();
        assert_eq!((p.passes.len(), p.scored), (passes, scored));
        assert_eq!(p.passes[passes - 1].start + p.scored + 1, len);
    }
}

#[test]
fn plain_text_is_not_looked_at() {
    let (mut m, mut n) = (model(), model());
    let p = m.forward(&prompt(), None, None, None, None, None, 0).unwrap();
    let q = n.forward(&tensor(vec![vec![1; 8]]), None, None, None, None, None, 0).unwrap();
    assert_eq!(p.positions.rows, q.positions.rows);
    assert_eq!(p.positions.rows[0][7], all(7));
}

#[test]
fn requests_of_signed_ids_go_through_plain_text() {
    let mut m = model();
    let ids = Tensor::new(vec![vec![1i64, 2, 3]], &Device::Cpu).unwrap();
    let p = m.forward(&ids, None, None, None, None, Some(&vector(vec![0])), 0).unwrap();
    assert_eq!(p.positions.rows, vec![vec![all(0), all(1), all(2)]]);
    assert_eq!(m.rope_deltas.as_ref().unwrap().element, Element::I64);
    let step = Tensor::new(vec![vec![4i64]], &Device::Cpu).unwrap();
    let p = m.forward(&step, None, None, None, None, Some(&vector(vec![3])), 3).unwrap();
    assert_eq!(p.positions.rows, vec![vec![all(3)]]);
    let g = tensor(vec![vec![1, 4, 4]]);
    let r = m.forward(&ids, None, Some(&g), None, None, Some(&vector(vec![0])), 0);
    assert!(matches!(r, Err(ModelError::ElementType)));
    let int = ids.to_dtype(DType::I32).unwrap();
    let r = m.forward(&int, None, None, None, None, None, 0);
    assert!(matches!(r, Err(ModelError::ElementType)));
    let real = Tensor::new(vec![vec![1f32]], &Device::Cpu).unwrap();
    let r = m.forward(&real, None, None, None, None, None, 0);
    assert!(matches!(r, Err(ModelError::ElementType)));
    let r = m.forward(&vector(vec![1]), None, None, None, None, None, 0);
    assert!(matches!(r, Err(ModelError::Rank)));
}

#[test]
fn grids_count_once_a_picture_asks_for_them() {
    let m = model();
    let text = tensor(vec![vec![1, 2, 3]]);
    let narrow = tensor(vec![vec![1, 2]]);
    let signed = Tensor::new(vec![vec![1i64, 4, 4]], &Device::Cpu).unwrap();
    let flat = vector(vec![1, 4, 4]);
    for g in [&narrow, &signed, &flat] {
        assert!(m.get_rope_index(&text, Some(g), None, None).is_ok());
    }
    let r = m.get_rope_index(&prompt(), Some(&narrow), None, None);
    assert!(matches!(r, Err(ModelError::GridWidth)));
    let r = m.get_rope_index(&prompt(), Some(&signed), None, None);
    assert!(matches!(r, Err(ModelError::ElementType)));
    let r = m.get_rope_index(&prompt(), Some(&flat), None, None);
    assert!(matches!(r, Err(ModelError::Rank)));
    let r = m.get_rope_index(&prompt(), None, Some(&tensor(vec![vec![1, 4, 4]])), None);
    assert!(matches!(r, Err(ModelError::MissingImageGrid)));
}

#[test]
fn video_grids_tell_their_frames_at_once() {
    let m = model();
    let text = tensor(vec![vec![1, 2, 3]]);
    assert!(m.get_rope_index(&text, None, Some(&tensor(vec![vec![2, 2]])), None).is_ok());
    let r = m.get_rope_index(&text, None, Some(&tensor(vec![vec![0, 2]])), None);
    assert!(matches!(r, Err(ModelError::EmptyVideo)));
    let r = m.get_rope_index(&text, None, Some(&vector(vec![1, 2, 2])), None);
    assert!(matches!(r, Err(ModelError::Rank)));
    let film = tensor(vec![vec![START, VIDEO, 3]]);
    let r = m.get_rope_index(&film, None, Some(&tensor(vec![vec![1, 2]])), None);
    assert!(matches!(r, Err(ModelError::GridWidth)));
    let r = m.get_rope_index(&film, None, Some(&tensor(vec![vec![1, 2, 2]])), None);
    assert!(r.is_ok());
}

#[test]
fn a_fourth_column_of_a_grid_is_not_looked_at() {
    let m = model();
    let (p, d) = m
        .get_rope_index(&prompt(), Some(&tensor(vec![vec![1, 4, 4, 99]])), None, None)
        .unwrap();
    let (q, e) = m.get_rope_index(&prompt(), Some(&tensor(vec![vec![1, 4, 4]])), None, None).unwrap();
    assert_eq!(p.to_vec3::<u32>().unwrap(), q.to_vec3::<u32>().unwrap());
    assert_eq!(d.to_vec2::<i64>().unwrap(), e.to_vec2::<i64>().unwrap());
}

#[test]
fn stored_images_are_used_only_if_they_fit() {
    let m = model();
    let ids = prompt();
    let choose = |key: bool, found: Option<&StoredImages>| m.image_source(&ids, key, found).unwrap();
    let good = StoredImages { dims: vec![4, 24], deepstack: 2 };
    assert_eq!(choose(true, Some(&good)), ImageSource::Stored);
    let shallow = StoredImages { dims: vec![4, 24], deepstack: 1 };
    assert_eq!(choose(true, Some(&shallow)), ImageSource::Encoded { store: true });
    let stale = StoredImages { dims: vec![5, 24], deepstack: 2 };
    assert_eq!(choose(true, Some(&stale)), ImageSource::Encoded { store: true });
    let flat = StoredImages { dims: vec![], deepstack: 2 };
    assert_eq!(choose(true, Some(&flat)), ImageSource::Encoded { store: true });
    assert_eq!(choose(true, None), ImageSource::Encoded { store: true });
    assert_eq!(choose(false, Some(&good)), ImageSource::Encoded { store: false });
    assert_eq!(m.choose_source(4, true, Some(&good)), ImageSource::Stored);
    assert_eq!(m.choose_source(3, true, Some(&good)), ImageSource::Encoded { store: true });
    let signed = ids.to_dtype(DType::I64).unwrap();
    assert!(matches!(m.image_source(&signed, true, None), Err(ModelError::ElementType)));
}

#[test]
fn image_prompt_and_decoding() {
    let mut m = model();
    let g = tensor(vec![vec![1, 4, 4]]);
    let p = m
        .forward(&prompt(), Some(4), Some(&g), None, None, Some(&vector(vec![0])), 0)
        .unwrap();
    assert_eq!(p.positions.rows[0][7], all(5));
    assert_eq!(p.positions.rows[0][6], at(3, 4, 4));
    assert_eq!(p.passes.len(), 1);
    assert_eq!((p.passes[0].start, p.passes[0].take, p.passes[0].offset), (0, 8, 0));
    assert_eq!(p.passes[0].visual, PassVisual::Rows { from: 0, count: 4 });
    let v = p.visual.unwrap();
    assert_eq!(v.marks.rows[0], vec![false, false, false, true, true, true, true, false]);
    assert!(matches!(v.source, VisualSource::Image));
    assert!(p.image_marks.is_some() && p.video_marks.is_none());
    assert_eq!(m.rope_deltas.as_ref().unwrap().values, vec![-2]);

    let step = tensor(vec![vec![7]]);
    let p = m
        .forward(&step, None, Some(&g), None, None, Some(&vector(vec![8])), 8)
        .unwrap();
    assert_eq!(p.positions.rows, vec![vec![all(6)]]);
    assert_eq!(p.passes.len(), 1);
    assert_eq!((p.passes[0].take, p.passes[0].offset), (1, 8));
    assert_eq!(p.passes[0].visual, PassVisual::Nothing);
    assert_eq!(m.rope_deltas.as_ref().unwrap().values, vec![-2]);

    let p = m.forward(&step, None, None, None, None, Some(&vector(vec![11, 12])), 11).unwrap();
    assert_eq!(p.positions.rows, vec![vec![all(9)]]);
}

#[test]
fn a_new_prompt_starts_afresh() {
    let mut m = model();
    let g = tensor(vec![vec![1, 4, 4]]);
    m.forward(&prompt(), Some(4), Some(&g), None, None, Some(&vector(vec![0])), 0).unwrap();
    let p = m
        .forward(&tensor(vec![vec![1, 2]]), None, None, None, None, Some(&vector(vec![0])), 0)
        .unwrap();
    assert_eq!(p.positions.rows[0], vec![all(0), all(1)]);
    assert_eq!(m.rope_deltas.as_ref().unwrap().values, vec![0]);
}

#[test]
fn token_and_feature_counts_must_agree() {
    let mut m = model();
    let g = tensor(vec![vec![1, 4, 4]]);
    let r = m.forward(&prompt(), Some(5), Some(&g), None, None, None, 0);
    assert!(matches!(r, Err(ModelError::TokenCount { tokens: 4, features: 5 })));
    assert!(m.rope_deltas.is_none());
    let v = tensor(vec![vec![1, 2, 2]]);
    let r = m.forward(&prompt(), None, None, Some(1), Some(&v), None, 0);
    assert!(matches!(r, Err(ModelError::TokenCount { tokens: 0, features: 1 })));
}

#[test]
fn features_without_a_grid_are_ignored() {
    let mut m = model();
    let p = m.forward(&tensor(vec![vec![1, 2, 3]]), Some(9), None, None, None, None, 0).unwrap();
    assert!(p.visual.is_none() && p.image_marks.is_none());
}

#[test]
fn images_and_videos_in_one_prompt() {
    let mut m = model();
    let ids = tensor(vec![vec![START, VIDEO, 5, START, IMAGE, IMAGE, START, VIDEO]]);
    let images = tensor(vec![vec![1, 2, 4]]);
    let videos = tensor(vec![vec![2, 2, 2]]);
    let p = m.forward(&ids, Some(2), Some(&images), Some(2), Some(&videos), None, 0).unwrap();
    let v = p.visual.unwrap();
    assert_eq!(v.marks.rows[0], vec![false, true, false, false, true, true, false, true]);
    match v.source {
        VisualSource::Joint { rows, image_rows, video_rows } => {
            assert_eq!(rows, 4);
            assert_eq!(image_rows, vec![1, 2]);
            assert_eq!(video_rows, vec![0, 3]);
        }
        _ => panic!("images and videos are joined"),
    }
    assert_eq!(p.positions.rows[0][4], at(4, 4, 4));
    assert_eq!(p.positions.rows[0][5], at(4, 4, 5));
}

#[test]
fn images_and_videos_in_a_batch_are_refused() {
    let row = vec![START, VIDEO, START, IMAGE];
    let ids = tensor(vec![row.clone(), row]);
    let g = tensor(vec![vec![1, 2, 2], vec![1, 2, 2]]);
    let r = model().forward(&ids, Some(2), Some(&g), Some(2), Some(&g), None, 0);
    assert!(matches!(r, Err(ModelError::ShapeMismatch)));
}

#[test]
fn refused_requests() {
    let mut m = model();
    let empty = Tensor::zeros((1, 0), DType::U32, &Device::Cpu).unwrap();
    assert!(matches!(
        m.forward(&empty, None, None, None, None, None, 0),
        Err(ModelError::EmptyPrompt)
    ));
    let ids = tensor(vec![vec![1, 2]]);
    let none = Tensor::zeros(0, DType::U32, &Device::Cpu).unwrap();
    assert!(matches!(
        m.forward(&ids, None, None, None, None, Some(&none), 0),
        Err(ModelError::NoCachePosition)
    ));
    let signed = Tensor::new(vec![0i64], &Device::Cpu).unwrap();
    assert!(matches!(
        m.forward(&ids, None, None, None, None, Some(&signed), 0),
        Err(ModelError::ElementType)
    ));
    assert!(matches!(
        m.forward(&ids, None, None, None, None, None, usize::MAX),
        Err(ModelError::Overflow)
    ));
    let bad = tensor(vec![vec![1, 2]]);
    assert!(matches!(
        m.forward(&prompt(), None, Some(&bad), None, None, None, 0),
        Err(ModelError::GridWidth)
    ));
    assert!(m.rope_deltas.is_none());
    m.forward(&ids, None, None, None, None, None, 0).unwrap();
    assert!(matches!(
        m.forward(&ids, None, None, None, None, None, 2),
        Err(ModelError::NoCachePosition)
    ));
    // Within a prompt the grid is not looked at.
    assert!(m.forward(&ids, None, Some(&bad), None, None, Some(&vector(vec![2])), 2).is_ok());
}

#[test]
fn long_prompts_go_in_passes() {
    let mut row = vec![false; 600];
    for i in [0, 255, 256, 257] {
        row[i] = true;
    }
    let m = marks(vec![row]);
    let p = plan_passes(600, 10, Some(&m));
    let shape: Vec<(usize, usize, usize)> =
        p.iter().map(|x| (x.start, x.take, x.offset)).collect();
    assert_eq!(shape, vec![(0, 256, 10), (256, 256, 266), (512, 88, 522)]);
    assert_eq!(p[0].visual, PassVisual::Rows { from: 0, count: 2 });
    assert_eq!(p[1].visual, PassVisual::Rows { from: 2, count: 2 });
    assert_eq!(p[2].visual, PassVisual::Nothing);
    assert_eq!(plan_passes(1, 3, Some(&marks(vec![vec![true]])))[0].visual, PassVisual::Whole);
    assert_eq!(plan_passes(257, 0, None).len(), 2);
    assert_eq!(plan_passes(256, 0, None).len(), 1);
}

#[test]
fn pieces_of_a_range() {
    let p: Vec<(usize, usize)> = cut(7, 3).iter().map(|s| (s.start, s.take)).collect();
    assert_eq!(p, vec![(0, 3), (3, 3), (6, 1)]);
    assert!(cut(0, 3).is_empty());
}

#[test]
fn single_kinds_keep_their_marks() {
    let v = merge_visual(None, Some(marks(vec![vec![true, false]]))).unwrap().unwrap();
    assert!(matches!(v.source, VisualSource::Video));
    assert_eq!(v.marks.rows, vec![vec![true, false]]);
    assert!(merge_visual(None, None).unwrap().is_none());
}

#[test]
fn marks_are_counted_by_columns() {
    let m = marks(vec![vec![true, true, false], vec![false, true, true]]);
    assert_eq!(m.count_columns(0, 3), 4);
    assert_eq!(m.count_columns(1, 2), 2);
    assert_eq!(m.count_columns(2, 2), 0);
    assert_eq!(m.to_tensor().unwrap().to_vec2::<u8>().unwrap(), vec![vec![1, 1, 0], vec![0, 1, 1]]);
}

#[test]
fn text_pass_without_positions() {
    let (t, list) = Qwen3VLTextModel::new(&config(true).text_config);
    assert_eq!(list[0].path, "embed_tokens");
    assert_eq!(list[1].path, "layers.0");
    assert_eq!(t.mrope_section, vec![1, 1, 1]);
    let x = Tensor::zeros((2, 3, 24), DType::F32, &Device::Cpu).unwrap();
    let p = t.forward(&x, 5, None, None, None).unwrap();
    assert!(p.causal_mask);
    assert_eq!(p.injected_layers, 0);
    let v = p.positions.unwrap().to_vec3::<u32>().unwrap();
    assert_eq!(v, vec![vec![vec![5, 6, 7]; 2]; 3]);
}

#[test]
fn text_pass_with_positions_and_features() {
    let (t, _) = Qwen3VLTextModel::new(&config(true).text_config);
    let x = Tensor::zeros((1, 1, 24), DType::F32, &Device::Cpu).unwrap();
    let given = tensor(vec![vec![0]]);
    let p = t.forward(&x, 5, Some(&given), Some(&given), Some(3)).unwrap();
    assert!(p.positions.is_none() && !p.causal_mask);
    assert_eq!(p.injected_layers, 3);
    assert_eq!(t.forward(&x, 5, Some(&given), Some(&given), Some(9)).unwrap().injected_layers, 4);
    let flat = Tensor::zeros((1, 24), DType::F32, &Device::Cpu).unwrap();
    assert!(matches!(t.forward(&flat, 0, None, None, None), Err(ModelError::ShapeMismatch)));
    assert!(matches!(
        t.forward(&x, u32::MAX as usize, None, None, None),
        Err(ModelError::Overflow)
    ));
}

#[test]
fn caches_are_saved_and_restored() {
    let mut m = model();
    m.set_kv_cache(vec![pair(1.0), None, pair(3.0), pair(4.0)]);
    let saved = m.get_kv_cache();
    assert_eq!(keys(&saved), vec![Some(1.0), None, Some(3.0), Some(4.0)]);
    m.clear_kv_cache();
    assert_eq!(keys(&m.get_kv_cache()), vec![None; 4]);
    m.set_kv_cache(saved);
    assert_eq!(keys(&m.get_kv_cache()), vec![Some(1.0), None, Some(3.0), Some(4.0)]);
    m.set_kv_cache(vec![pair(9.0)]);
    assert_eq!(keys(&m.get_kv_cache()), vec![Some(9.0), None, Some(3.0), Some(4.0)]);
    m.set_kv_cache(vec![pair(5.0), pair(5.0), pair(5.0), pair(5.0), pair(5.0)]);
    assert_eq!(keys(&m.get_kv_cache()), vec![Some(5.0); 4]);
}

#[test]
fn features_take_the_places_of_marked_tokens() {
    let m = marks(vec![vec![false, true, true], vec![true, false, false]]);
    assert_eq!(m.places().unwrap(), vec![1, 2, 3]);
    assert_eq!(m.sources().unwrap(), vec![0, 6, 7, 8, 4, 5]);
    let part = m.columns(1, 2);
    assert_eq!(part.rows, vec![vec![true, true], vec![false, false]]);
    assert_eq!(part.width, 2);
    assert!(m.columns(3, 0).rows.iter().all(|r| r.is_empty()));
}
