use candle_core::{DType, Device, Tensor};
use qwen3vl::decode::continue_positions;
use qwen3vl::error::ModelError;
use qwen3vl::grid::Thw;
use qwen3vl::positions::{index_plain, text_positions, PositionIds, RopeDeltas, RopeIndex};
use qwen3vl::rope::{Position, PromptLayout};
use qwen3vl::tensor::{check_room, read_elements, Element, Room};
use qwen3vl::tokens::TokenRows;

const IMAGE: u32 = 151655;
const VIDEO: u32 = 151656;
const START: u32 = 151652;

fn layout() -> PromptLayout {
    PromptLayout { image_token: IMAGE, video_token: VIDEO, vision_start: START, merge: 2 }
}

fn rows(ids: Vec<Vec<u32>>) -> TokenRows {
    let width = ids[0].len();
    TokenRows { rows: ids, width }
}

fn at(t: u32, h: u32, w: u32) -> Position {
    Position { t, h, w }
}

fn all(p: u32) -> Position {
    at(p, p, p)
}

fn with_images(ids: Vec<u32>, images: Vec<Thw>) -> Result<RopeIndex, ModelError> {
    layout().index(&rows(vec![ids]), Some(&images), None, None)
}

#[test]
fn text_image_text() {
    let ids = vec![10, 20, START, IMAGE, IMAGE, IMAGE, IMAGE, 30];
    let x = with_images(ids, vec![Thw { t: 1, h: 4, w: 4 }]).unwrap();
    assert_eq!(
        x.positions.rows[0],
        vec![all(0), all(1), all(2), at(3, 3, 3), at(3, 3, 4), at(3, 4, 3), at(3, 4, 4), all(5)]
    );
    assert_eq!(x.deltas.values, vec![-2]);
    assert_eq!((x.deltas.height, x.deltas.width, x.deltas.element), (1, 1, Element::I64));
}

#[test]
fn two_images_use_their_grids_in_order() {
    let mut ids = vec![START];
    ids.extend(vec![IMAGE; 2]);
    ids.push(7);
    ids.push(START);
    ids.extend(vec![IMAGE; 3]);
    let grids = vec![Thw { t: 1, h: 2, w: 4 }, Thw { t: 1, h: 6, w: 2 }];
    let x = with_images(ids, grids).unwrap();
    assert_eq!(
        x.positions.rows[0],
        vec![
            all(0),
            at(1, 1, 1),
            at(1, 1, 2),
            all(3),
            all(4),
            at(5, 5, 5),
            at(5, 6, 5),
            at(5, 7, 5)
        ]
    );
    assert_eq!(x.deltas.values, vec![0]);
}

#[test]
fn video_frames_are_placed_one_by_one() {
    let ids = vec![START, VIDEO, 1, START, VIDEO, 2];
    let x = layout()
        .index(&rows(vec![ids]), None, Some(&vec![Thw { t: 2, h: 2, w: 2 }]), None)
        .unwrap();
    assert_eq!(x.positions.rows[0], vec![all(0), all(1), all(2), all(3), all(4), all(5)]);
    assert_eq!(x.deltas.values, vec![0]);
}

#[test]
fn batch_hands_grids_out_in_order() {
    let a = vec![START, IMAGE, IMAGE, 5];
    let b = vec![START, IMAGE, 5, 6];
    let grids = vec![Thw { t: 1, h: 4, w: 2 }, Thw { t: 1, h: 2, w: 2 }];
    let x = layout().index(&rows(vec![a, b]), Some(&grids), None, None).unwrap();
    assert_eq!(x.positions.rows[0], vec![all(0), at(1, 1, 1), at(1, 2, 1), all(3)]);
    assert_eq!(x.positions.rows[1], vec![all(0), all(1), all(2), all(3)]);
    assert_eq!(x.deltas.values, vec![0, 0]);
    assert_eq!((x.deltas.height, x.deltas.width), (1, 2));
}

#[test]
fn plain_text_is_numbered() {
    let x = layout().index(&rows(vec![vec![1, 2, 3], vec![4, 5, 6]]), None, None, None).unwrap();
    assert_eq!(x.positions.rows[1], vec![all(0), all(1), all(2)]);
    assert_eq!(x.deltas.values, vec![0, 0]);
    assert_eq!((x.deltas.height, x.deltas.width, x.deltas.element), (2, 1, Element::U32));
}

#[test]
fn text_with_a_grid_is_numbered_too() {
    let x = with_images(vec![1, 2, 3], vec![Thw { t: 1, h: 4, w: 4 }]).unwrap();
    assert_eq!(x.positions.rows[0], vec![all(0), all(1), all(2)]);
    assert_eq!(x.deltas.values, vec![0]);
}

#[test]
fn left_padding_counts_from_the_first_kept_token() {
    let mask = rows(vec![vec![0, 0, 1, 1, 1]]);
    let x = layout().index(&rows(vec![vec![9; 5]]), None, None, Some(&mask)).unwrap();
    assert_eq!(x.positions.rows[0], vec![all(1), all(1), all(0), all(1), all(2)]);
    // 2 + 1 - 5 as an unsigned number
    assert_eq!(x.deltas.values, vec![4294967294]);
    assert_eq!(x.deltas.element, Element::U32);
}

#[test]
fn full_mask_is_plain_text() {
    let mask = rows(vec![vec![1; 4]]);
    let x = layout().index(&rows(vec![vec![9; 4]]), None, None, Some(&mask)).unwrap();
    assert_eq!(x.positions.rows[0], vec![all(0), all(1), all(2), all(3)]);
    assert_eq!(x.deltas.values, vec![0]);
}

#[test]
fn full_mask_with_pictures_changes_nothing() {
    let ids = vec![START, IMAGE, 3];
    let mask = rows(vec![vec![1; 3]]);
    let x = layout()
        .index(&rows(vec![ids]), Some(&vec![Thw { t: 1, h: 2, w: 2 }]), None, Some(&mask))
        .unwrap();
    assert_eq!(x.positions.rows[0], vec![all(0), all(1), all(2)]);
}

#[test]
fn padded_picture_prompt_is_refused() {
    let ids = vec![9, START, IMAGE, 3];
    let mask = rows(vec![vec![0, 1, 1, 1]]);
    let r = layout().index(&rows(vec![ids]), Some(&vec![Thw { t: 1, h: 2, w: 2 }]), None, Some(&mask));
    assert!(matches!(r, Err(ModelError::PaddedRow)));
}

#[test]
fn refused_prompts() {
    let g = vec![Thw { t: 1, h: 4, w: 4 }];
    assert!(matches!(with_images(vec![1, START], g.clone()), Err(ModelError::DanglingVisionStart)));
    assert!(matches!(with_images(vec![START, 1, 2], g.clone()), Err(ModelError::UnexpectedVisionToken)));
    assert!(matches!(with_images(vec![START, IMAGE, 2], vec![]), Err(ModelError::MissingImageGrid)));
    assert!(matches!(with_images(vec![START, VIDEO, 2], g.clone()), Err(ModelError::MissingVideoGrid)));
    assert!(matches!(with_images(vec![START, IMAGE, IMAGE], g.clone()), Err(ModelError::GridOverrun)));
    assert!(matches!(
        with_images(vec![START, IMAGE, 2], vec![Thw { t: 1, h: 1, w: 4 }]),
        Err(ModelError::EmptyGrid)
    ));
    let overlap = vec![START, IMAGE, START, IMAGE, IMAGE, IMAGE];
    let two = vec![Thw { t: 1, h: 4, w: 4 }, Thw { t: 1, h: 2, w: 2 }];
    assert!(matches!(with_images(overlap, two), Err(ModelError::OverlappingVision)));
    assert!(matches!(with_images(vec![], g), Err(ModelError::EmptyPrompt)));
}

#[test]
fn videos_without_frames_are_refused() {
    let none = layout().index(&rows(vec![vec![1]]), None, Some(&vec![]), None);
    assert!(matches!(none, Err(ModelError::EmptyVideo)));
    let still = layout().index(&rows(vec![vec![1]]), None, Some(&vec![Thw { t: 0, h: 2, w: 2 }]), None);
    assert!(matches!(still, Err(ModelError::EmptyVideo)));
}

#[test]
fn mask_of_another_shape_is_refused() {
    let r = layout().index(&rows(vec![vec![1, 2]]), None, None, Some(&rows(vec![vec![1; 3]])));
    assert!(matches!(r, Err(ModelError::ShapeMismatch)));
    let r = layout().index(&rows(vec![vec![1, 2]]), None, None, Some(&rows(vec![vec![1, 1]; 3])));
    assert!(matches!(r, Err(ModelError::ShapeMismatch)));
}

#[test]
fn mask_with_too_large_a_sum_is_refused() {
    let r = layout().index(&rows(vec![vec![1, 2]]), None, None, Some(&rows(vec![vec![u32::MAX, 1]])));
    assert!(matches!(r, Err(ModelError::Overflow)));
}

#[test]
fn positions_become_a_tensor_axis_by_axis() {
    let p = PositionIds { rows: vec![vec![at(1, 2, 3), at(4, 5, 6)]], width: 2 };
    let t = p.to_tensor().unwrap();
    assert_eq!(t.dims(), &[3, 1, 2]);
    assert_eq!(t.dtype(), DType::U32);
    assert_eq!(t.flatten_all().unwrap().to_vec1::<u32>().unwrap(), vec![1, 4, 2, 5, 3, 6]);
}

#[test]
fn differences_become_a_tensor_of_their_kind() {
    let d = RopeDeltas { values: vec![-2, 0], height: 1, width: 2, element: Element::I64 };
    let t = d.to_tensor().unwrap();
    assert_eq!(t.to_vec2::<i64>().unwrap(), vec![vec![-2, 0]]);
    let u = RopeDeltas { values: vec![5, 4294967295], height: 2, width: 1, element: Element::U32 };
    let t = u.to_tensor().unwrap();
    assert_eq!(t.to_vec2::<u32>().unwrap(), vec![vec![5], vec![4294967295]]);
}

#[test]
fn text_positions_start_where_asked() {
    let p = text_positions(2, 3, 7);
    assert_eq!(p.rows, vec![vec![all(7), all(8), all(9)]; 2]);
}

#[test]
fn decoding_goes_on_after_the_prompt() {
    let d = RopeDeltas { values: vec![-2], height: 1, width: 1, element: Element::I64 };
    let p = continue_positions(8, &d, 1, 1).unwrap();
    assert_eq!(p.rows, vec![vec![all(6)]]);
    let p = continue_positions(9, &d, 1, 3).unwrap();
    assert_eq!(p.rows, vec![vec![all(7), all(8), all(9)]]);
}

#[test]
fn decoding_wraps_an_unsigned_difference() {
    let d = RopeDeltas { values: vec![4294967294], height: 1, width: 1, element: Element::U32 };
    assert_eq!(continue_positions(5, &d, 1, 1).unwrap().rows, vec![vec![all(3)]]);
}

#[test]
fn decoding_a_batch() {
    let column = RopeDeltas { values: vec![0, 10], height: 2, width: 1, element: Element::U32 };
    let p = continue_positions(3, &column, 2, 1).unwrap();
    assert_eq!(p.rows, vec![vec![all(3)], vec![all(13)]]);
    let row = RopeDeltas { values: vec![0, -1], height: 1, width: 2, element: Element::I64 };
    assert!(matches!(continue_positions(3, &row, 2, 1), Err(ModelError::ShapeMismatch)));
}

#[test]
fn text_batches_go_on_where_the_cache_ends() {
    let x = layout().index(&rows(vec![vec![1; 4]; 3]), None, None, None).unwrap();
    let p = continue_positions(4, &x.deltas, 3, 2).unwrap();
    assert_eq!(p.rows, vec![vec![all(4), all(5)]; 3]);
}

#[test]
fn decoding_past_the_last_position_is_refused() {
    let d = RopeDeltas { values: vec![0], height: 1, width: 1, element: Element::U32 };
    assert!(matches!(continue_positions(u32::MAX, &d, 1, 2), Err(ModelError::Overflow)));
}

#[test]
fn token_rows_come_from_a_tensor() {
    let t = Tensor::new(vec![vec![1u32, 2, 3], vec![4, 5, 6]], &Device::Cpu).unwrap();
    let r = TokenRows::read(&t.t().unwrap()).unwrap();
    assert_eq!(r.rows, vec![vec![1, 4], vec![2, 5], vec![3, 6]]);
    assert_eq!(r.width, 2);
    let wrong = Tensor::new(vec![1u32, 2], &Device::Cpu).unwrap();
    assert!(matches!(TokenRows::read(&wrong), Err(ModelError::Rank)));
    let signed = Tensor::new(vec![vec![1i64]], &Device::Cpu).unwrap();
    assert!(matches!(TokenRows::read(&signed), Err(ModelError::ElementType)));
    let cut = t.narrow(1, 1, 2).unwrap();
    assert_eq!(TokenRows::read(&cut).unwrap().rows, vec![vec![2, 3], vec![5, 6]]);
    let none = Tensor::zeros((2, 0), DType::U32, &Device::Cpu).unwrap();
    assert_eq!(TokenRows::read(&none).unwrap().rows, vec![Vec::<u32>::new(); 2]);
}

#[test]
fn a_storage_shorter_than_its_shape_is_refused() {
    let short = Tensor::from_vec(vec![1u32], (2, 3), &Device::Cpu).unwrap();
    assert!(matches!(TokenRows::read(&short), Err(ModelError::Storage)));
    assert!(matches!(read_elements(&short), Err(ModelError::Storage)));
    let whole = Tensor::from_vec(vec![1u32, 2, 3, 4, 5, 6], (2, 3), &Device::Cpu).unwrap();
    assert_eq!(read_elements(&whole).unwrap(), vec![1, 2, 3, 4, 5, 6]);
}

#[test]
fn rooms_that_shapes_fit_in() {
    let room = |len, offset, strides| Room { len, offset, strides };
    assert!(check_room(&vec![2, 3], &room(6, 0, vec![3, 1])));
    assert!(!check_room(&vec![2, 3], &room(5, 0, vec![3, 1])));
    assert!(check_room(&vec![2, 3], &room(7, 1, vec![3, 1])));
    assert!(!check_room(&vec![2, 3], &room(6, 1, vec![3, 1])));
    assert!(check_room(&vec![2, 3], &room(3, 0, vec![0, 1])));
    assert!(check_room(&vec![0, 3], &room(0, 0, vec![3, 1])));
    assert!(!check_room(&vec![2, 3], &room(6, 0, vec![3])));
    assert!(!check_room(&vec![usize::MAX, usize::MAX], &room(6, 0, vec![0, 0])));
    assert!(!check_room(&vec![0, usize::MAX, usize::MAX], &room(6, 0, vec![0, 0, 0])));
    assert!(check_room(&vec![], &room(1, 0, vec![])));
}

#[test]
fn a_mask_of_one_column_serves_all_tokens() {
    let x = layout().index(&rows(vec![vec![9; 3]]), None, None, Some(&rows(vec![vec![1]]))).unwrap();
    assert_eq!(x.positions.rows[0], vec![all(0); 3]);
    assert_eq!(x.deltas.values, vec![0]);
    let x = layout().index(&rows(vec![vec![9; 3]]), None, None, Some(&rows(vec![vec![0]]))).unwrap();
    assert_eq!(x.positions.rows[0], vec![all(1); 3]);
    assert_eq!(x.deltas.values, vec![1]);
}

#[test]
fn a_longer_mask_beside_pictures_keeps_only_tokens() {
    let g = vec![Thw { t: 1, h: 2, w: 2 }];
    let ids = rows(vec![vec![START, IMAGE, 3]]);
    let x = layout().index(&ids, Some(&g), None, Some(&rows(vec![vec![1, 1, 1, 0, 0]]))).unwrap();
    assert_eq!(x.positions.rows[0], vec![all(0), all(1), all(2)]);
    for len in [1, 2, 4] {
        let x = layout().index(&ids, Some(&g), None, Some(&rows(vec![vec![1; len]]))).unwrap();
        assert_eq!(x.positions.rows[0], vec![all(0), all(1), all(2)]);
    }
    let r = layout().index(&ids, Some(&g), None, Some(&rows(vec![vec![1, 1, 1, 0, 1]])));
    assert!(matches!(r, Err(ModelError::ShapeMismatch)));
    let r = layout().index(&ids, Some(&g), None, Some(&rows(vec![vec![1, 1, 0]])));
    assert!(matches!(r, Err(ModelError::PaddedRow)));
}

#[test]
fn a_picture_may_fill_a_shortened_row() {
    // The last token is masked out, and the picture has room for it.
    let g = vec![Thw { t: 1, h: 4, w: 4 }];
    let ids = rows(vec![vec![START, IMAGE, IMAGE, IMAGE, IMAGE]]);
    let mask = rows(vec![vec![1, 1, 1, 1, 0]]);
    let x = layout().index(&ids, Some(&g), None, Some(&mask)).unwrap();
    assert_eq!(x.positions.rows[0], vec![all(0), at(1, 1, 1), at(1, 1, 2), at(1, 2, 1), at(1, 2, 2)]);
    assert_eq!(x.deltas.values, vec![-1]);
}

#[test]
fn prompts_of_a_batch_stand_alone() {
    let a = vec![1, START, IMAGE, IMAGE, 2, 3];
    let b = vec![START, IMAGE, 4, 5, START, IMAGE];
    let first = vec![Thw { t: 1, h: 2, w: 4 }];
    let next = vec![Thw { t: 1, h: 2, w: 2 }, Thw { t: 1, h: 2, w: 2 }];
    let x = with_images(a.clone(), first.clone()).unwrap();
    let y = with_images(b.clone(), next.clone()).unwrap();
    let both = layout()
        .index(&rows(vec![a, b]), Some(&[first, next].concat()), None, None)
        .unwrap();
    assert_eq!(both.positions.rows, [x.positions.rows, y.positions.rows].concat());
    assert_eq!(both.deltas.values, [x.deltas.values, y.deltas.values].concat());
}

#[test]
fn a_merge_size_of_zero_is_refused_at_the_first_picture() {
    let zero = PromptLayout { merge: 0, ..layout() };
    let g = vec![Thw { t: 1, h: 2, w: 2 }];
    let x = zero.index(&rows(vec![vec![1, 2]]), Some(&g), None, None).unwrap();
    assert_eq!(x.positions.rows[0], vec![all(0), all(1)]);
    let r = zero.index(&rows(vec![vec![START, IMAGE]]), Some(&g), None, None);
    assert!(matches!(r, Err(ModelError::MergeSize)));
    let r = zero.index(&rows(vec![vec![START, IMAGE]]), Some(&vec![]), None, None);
    assert!(matches!(r, Err(ModelError::MissingImageGrid)));
}

#[test]
fn text_differences_have_the_type_of_the_ids() {
    for element in [Element::U8, Element::U32, Element::I64] {
        let x = index_plain(2, 3, None, element).unwrap();
        assert_eq!(x.deltas.element, element);
        assert_eq!(x.deltas.values, vec![0, 0]);
        assert_eq!(x.positions.rows, vec![vec![all(0), all(1), all(2)]; 2]);
    }
}

#[test]
fn no_two_tokens_share_a_position() {
    let mut ids = vec![1, START];
    ids.extend(vec![IMAGE; 12]);
    ids.extend(vec![2, 3]);
    let x = with_images(ids, vec![Thw { t: 2, h: 4, w: 6 }]).unwrap();
    let row = &x.positions.rows[0];
    for i in 0..row.len() {
        for j in 0..i {
            assert_ne!(row[i], row[j]);
        }
    }
    assert_eq!(row[14], all(5));
    assert_eq!(x.deltas.values, vec![-9]);
}
