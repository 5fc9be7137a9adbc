//! The whole model: what a request does with the vision model and the language model.
use candle_core::Tensor;
use vstd::prelude::*;

use crate::config::Qwen3VLConfig;
use crate::error::ModelError;
use crate::grid::{read_grid, split_features};
use crate::marks::MarkRows;
use crate::modules::{
    extend_modules, nest_modules, push_module, ModuleRequest, ModuleShape, ModuleView, ShapeView,
};
use crate::picture_grids::PictureGrids;
use crate::positions::{index_plain, RopeDeltas, RopeIndex, RopeView};
use crate::rope::PromptLayout;
use crate::tensor::{
    bring_beside, make_u8, make_zeros, read_dims, read_element, read_elements, Element, Place,
};
use crate::text::Qwen3VLTextModel;
use crate::tokens::TokenRows;
use crate::vision::Qwen3VLVisionModel;

verus! {

/// Answers prompts of text, images and videos.
pub struct Qwen3VLModel {
    pub config: Qwen3VLConfig,
    pub visual: Qwen3VLVisionModel,
    pub language_model: Qwen3VLTextModel,
    /// How far the positions of the last prompt ran ahead of its tokens.
    pub rope_deltas: Option<RopeDeltas>,
}

/// All layers of the model. With tied embeddings the output layer is the token table.
pub open spec fn model_modules(cfg: Qwen3VLConfig) -> Seq<ModuleView> {
    crate::modules::nested(
        "model.visual."@,
        crate::vision::vision_modules(cfg.vision_config),
    ) + crate::modules::nested(
        "model.language_model."@,
        crate::text::text_modules(cfg.text_config),
    ) + if cfg.tie_word_embeddings {
        Seq::empty()
    } else {
        seq![
            ModuleView {
                path: "lm_head"@,
                shape: ShapeView::LinearNoBias {
                    inputs: cfg.text_config.hidden_size,
                    outputs: cfg.text_config.vocab_size,
                },
            },
        ]
    }
}

/// Where the features of the images come from.
#[derive(Clone, Copy, Debug, PartialEq, Eq, Structural)]
pub enum ImageSource {
    /// The stored features serve.
    Stored,
    /// The images are encoded, and the features stored where `store` says so.
    Encoded { store: bool },
}

/// What was found under the key of some images.
#[derive(Debug)]
pub struct StoredImages {
    /// The sizes of the stored features.
    pub dims: Vec<usize>,
    /// How many deep features are stored with them.
    pub deepstack: usize,
}

/// Stored features serve where there is a row for every image token and all deep features
/// are with them.
pub open spec fn serves(tokens: nat, expected: nat, dims: Seq<usize>, deepstack: nat) -> bool {
    dims.len() > 0 && dims[0] == tokens && deepstack == expected
}

/// Where the features of images come from, for a prompt with `tokens` image tokens and a
/// model with `expected` deepstack mergers.
pub open spec fn chosen(
    tokens: nat,
    expected: nat,
    key: bool,
    found: Option<(Seq<usize>, nat)>,
) -> ImageSource {
    match found {
        Some(f) => if key && serves(tokens, expected, f.0, f.1) {
            ImageSource::Stored
        } else {
            ImageSource::Encoded { store: key }
        },
        None => ImageSource::Encoded { store: key },
    }
}

/// What was found, as plain values.
pub open spec fn found_values(found: Option<&StoredImages>) -> Option<(Seq<usize>, nat)> {
    match found {
        None => None,
        Some(f) => Some((f.dims@, f.deepstack as nat)),
    }
}

/// A stale entry is discarded: features with another number of rows than the prompt has image
/// tokens, or with another number of deep features than the model has mergers, are treated
/// like none at all, and the images are encoded.
pub proof fn stale_entries_are_discarded(
    tokens: nat,
    expected: nat,
    key: bool,
    dims: Seq<usize>,
    deepstack: nat,
)
    requires
        dims.len() == 0 || dims[0] != tokens || deepstack != expected,
    ensures
        chosen(tokens, expected, key, Some((dims, deepstack))) == chosen(
            tokens,
            expected,
            key,
            None,
        ),
        chosen(tokens, expected, key, Some((dims, deepstack))) == (ImageSource::Encoded {
            store: key,
        }),
{
}

/// The image tokens of a tensor of ids.
pub open spec fn image_tokens(ids: Tensor, token: u32) -> nat {
    crate::marks::count_columns(
        crate::marks::marks_of(crate::tensor::matrix_of(ids), token),
        0,
        crate::tensor::tensor_dims(ids)[1] as int,
    )
}

/// One for each value that is equal to `token`, and zero elsewhere.
pub open spec fn marked(values: Seq<int>, token: u32) -> Seq<int> {
    values.map_values(
        |x: int|
            if x == token {
                1int
            } else {
                0int
            },
    )
}

/// `t` has the shape `dims` and a byte for each value, one where it is equal to `token` and
/// zero elsewhere.
pub open spec fn marks_equal(t: Tensor, dims: Seq<usize>, values: Seq<int>, token: u32) -> bool {
    &&& crate::tensor::tensor_dims(t) == dims
    &&& crate::tensor::tensor_element(t) == Element::U8
    &&& crate::tensor::tensor_elements(t) == marked(values, token)
}

/// The shape of a mask for ids of the given shape: a single id counts as a row of one.
pub open spec fn mask_shape(dims: Seq<usize>) -> Seq<usize> {
    if dims.len() == 0 {
        seq![1usize]
    } else {
        dims
    }
}

impl Qwen3VLModel {
    /// The special tokens and the merge size that positions go by.
    pub open spec fn layout(self) -> PromptLayout {
        PromptLayout {
            image_token: self.config.image_token_id,
            video_token: self.config.video_token_id,
            vision_start: self.config.vision_start_token_id,
            merge: self.config.vision_config.spatial_merge_size,
        }
    }

    /// The vision model is in order, and so are the stored differences.
    pub open spec fn wf(self) -> bool {
        &&& self.visual.wf()
        &&& self.rope_deltas matches Some(d) ==> d.wf() && d.element.is_index()
    }

    /// A new model and its layers. The side of the position table is the square root of its
    /// number of entries, which the caller has taken.
    pub fn new(config: Qwen3VLConfig, num_grid_per_side: u32) -> (r: Result<
        (Qwen3VLModel, Vec<ModuleRequest>),
        ModelError,
    >)
        requires
            config.vision_config.num_heads > 0,
        ensures
            match r {
                Ok((m, list)) => {
                    &&& crate::vision::sizes_fit(config.vision_config)
                    &&& m.wf()
                    &&& m.config == config
                    &&& m.rope_deltas is None
                    &&& m.visual.spatial_merge_size == config.vision_config.spatial_merge_size
                    &&& m.visual.num_grid_per_side == num_grid_per_side
                    &&& m.visual.hidden_size == config.vision_config.hidden_size
                    &&& m.visual.head_dim == config.vision_config.hidden_size
                        / config.vision_config.num_heads
                    &&& m.visual.num_blocks == config.vision_config.depth
                    &&& m.visual.deepstack_visual_indexes@
                        == config.vision_config.deepstack_visual_indexes@
                    &&& m.visual.blocks_fit(config.vision_config.num_heads)
                    &&& m.visual.mergers_fit()
                    &&& m.visual.is_weights_loaded
                    &&& !m.visual.stream_blocks
                    &&& m.visual.mmproj_path is None
                    &&& !m.visual.can_reload()
                    &&& m.language_model.layers@ == Seq::new(
                        config.text_config.num_hidden_layers as nat,
                        |i: int| None::<(Tensor, Tensor)>,
                    )
                    &&& m.language_model.head_dim == config.text_config.head_dim
                    &&& m.language_model.mrope_section@ == config.text_config.mrope_section@
                    &&& crate::modules::requests(list@) == model_modules(config)
                },
                Err(e) => !crate::vision::sizes_fit(config.vision_config) && e
                    == ModelError::Overflow,
            },
    {
        let (visual, layers) = match Qwen3VLVisionModel::new(
            &config.vision_config,
            num_grid_per_side,
        ) {
            Ok(v) => v,
            Err(e) => return Err(e),
        };
        let mut out = nest_modules("model.visual.", layers);
        let (language_model, layers) = Qwen3VLTextModel::new(&config.text_config);
        extend_modules(&mut out, nest_modules("model.language_model.", layers));
        if !config.tie_word_embeddings {
            push_module(
                &mut out,
                String::from_str("lm_head"),
                ModuleShape::LinearNoBias {
                    inputs: config.text_config.hidden_size,
                    outputs: config.text_config.vocab_size,
                },
            );
        }
        assert(crate::modules::requests(out@) =~= model_modules(config));
        Ok((Qwen3VLModel { config, visual, language_model, rope_deltas: None }, out))
    }

    /// Decides where the features of images come from, for a prompt with `tokens` image
    /// tokens. `key` says whether the images have a key to be stored under, `found` what is
    /// stored under it.
    pub fn choose_source(&self, tokens: usize, key: bool, found: Option<&StoredImages>) -> (r:
        ImageSource)
        ensures
            r == chosen(
                tokens as nat,
                self.visual.deepstack_visual_indexes@.len(),
                key,
                found_values(found),
            ),
    {
        let expected: usize = self.visual.deepstack_visual_indexes.len();
        if key {
            if let Some(f) = found {
                if f.dims.len() > 0 && f.dims[0] == tokens && f.deepstack == expected {
                    return ImageSource::Stored;
                }
            }
        }
        ImageSource::Encoded { store: key }
    }

    /// Decides where the features of the images of a prompt come from.
    pub fn image_source(&self, input_ids: &Tensor, key: bool, found: Option<&StoredImages>) -> (r:
        Result<ImageSource, ModelError>)
        ensures
            ({
                let dims = crate::tensor::tensor_dims(*input_ids);
                match r {
                    Ok(s) => crate::tensor::holds_u32(*input_ids, 2) && s == chosen(
                        image_tokens(*input_ids, self.config.image_token_id),
                        self.visual.deepstack_visual_indexes@.len(),
                        key,
                        found_values(found),
                    ),
                    Err(e) => {
                        ||| crate::tensor::refused(*input_ids, 2, e)
                        ||| crate::tensor::holds_u32(*input_ids, 2) && dims[0] * dims[1] > usize::MAX
                            && e == ModelError::Overflow
                    },
                }
            }),
    {
        let ids = match TokenRows::read(input_ids) {
            Ok(ids) => ids,
            Err(e) => return Err(e),
        };
        match ids.rows.len().checked_mul(ids.width) {
            Some(_) => {},
            None => return Err(ModelError::Overflow),
        }
        let marks = MarkRows::of_token(&ids, self.config.image_token_id);
        let tokens: usize = marks.count_columns(0, ids.width);
        Ok(self.choose_source(tokens, key, found))
    }

    /// How many rows of features each picture of a grid tensor ends up as.
    pub fn get_vision_features(&self, grid_thw: &Tensor) -> (r: Result<Vec<usize>, ModelError>)
        ensures
            ({
                let grids = crate::grid::grids_in(*grid_thw);
                match r {
                    Ok(v) => {
                        &&& self.visual.spatial_merge_size > 0
                        &&& crate::encode::is_grid(*grid_thw)
                        &&& crate::grid::patches_fit(grids)
                        &&& crate::grid::sizes(v@) == crate::grid::feature_split(
                            grids,
                            self.visual.spatial_merge_size,
                        )
                    },
                    Err(e) => {
                        ||| self.visual.spatial_merge_size == 0 && e == ModelError::MergeSize
                        ||| crate::encode::refused_grid(*grid_thw, e)
                        ||| crate::encode::is_grid(*grid_thw) && !crate::grid::patches_fit(grids)
                            && e == ModelError::Overflow
                    },
                }
            }),
    {
        if self.visual.spatial_merge_size == 0 {
            return Err(ModelError::MergeSize);
        }
        match read_grid(grid_thw) {
            Ok(grids) => split_features(&grids, self.visual.spatial_merge_size),
            Err(e) => Err(e),
        }
    }

    /// Marks the image tokens among ids of any shape, or the video tokens.
    pub fn get_placeholder_mask(&self, input_ids: &Tensor, is_image: bool) -> (r: Result<
        Tensor,
        ModelError,
    >)
        ensures
            match r {
                Ok(t) => {
                    &&& crate::tensor::tensor_element(*input_ids) == Element::U32
                    &&& marks_equal(
                        t,
                        mask_shape(crate::tensor::tensor_dims(*input_ids)),
                        crate::tensor::tensor_elements(*input_ids),
                        if is_image {
                            self.config.image_token_id
                        } else {
                            self.config.video_token_id
                        },
                    )
                    &&& crate::tensor::tensor_place(t) == crate::tensor::tensor_place(*input_ids)
                },
                Err(e) => {
                    ||| crate::tensor::unreadable(*input_ids, e)
                    ||| crate::tensor::copy_refused(*input_ids, e)
                },
            },
    {
        let token: u32 = if is_image {
            self.config.image_token_id
        } else {
            self.config.video_token_id
        };
        let ids = match read_elements(input_ids) {
            Ok(v) => v,
            Err(e) => return Err(e),
        };
        let ghost values = crate::tensor::tensor_elements(*input_ids);
        let ghost want = marked(values, token);
        let mut data: Vec<u8> = Vec::new();
        let mut i: usize = 0;
        assert(data@.map_values(|x: u8| x as int) =~= want.take(0));
        while i < ids.len()
            invariant
                values == ids@.map_values(|x: u32| x as int),
                want == marked(values, token),
                i <= ids@.len(),
                data@.len() == i,
                data@.map_values(|x: u8| x as int) == want.take(i as int),
            decreases ids@.len() - i,
        {
            let ghost was = data@;
            let x: u8 = if ids[i] == token {
                1
            } else {
                0
            };
            data.push(x);
            assert(data@.map_values(|x: u8| x as int) =~= was.map_values(|x: u8| x as int).push(
                x as int,
            ));
            assert(data@.map_values(|x: u8| x as int) =~= want.take(i + 1));
            i = i + 1;
        }
        assert(want.take(i as int) =~= want);
        let mut dims = read_dims(input_ids);
        if dims.len() == 0 {
            dims.push(1);
            proof {
                crate::tensor::lemma_volume1(1);
                assert(dims@ =~= seq![1usize]);
            }
        }
        match make_u8(data, dims) {
            Ok(t) => bring_beside(t, input_ids),
            Err(e) => Err(ModelError::Tensor(e)),
        }
    }
}

/// The mask that an optional tensor holds.
pub open spec fn mask_of_tensor(t: Option<&Tensor>) -> Option<crate::positions::MaskView> {
    match t {
        None => None,
        Some(t) => Some(
            crate::positions::MaskView {
                rows: crate::tensor::matrix_of(*t),
                width: crate::tensor::tensor_dims(*t)[1] as nat,
            },
        ),
    }
}

/// The numbers of a mask of more than two dimensions that belong to prompt `i`.
pub open spec fn mask_part(t: Tensor, i: int) -> Seq<u32> {
    let n = crate::tensor::tensor_elements(t).len() as int / crate::tensor::tensor_dims(
        t,
    )[0] as int;
    crate::tensor::vector_of(t).subrange(i * n, (i + 1) * n)
}

/// What a mask of more than two dimensions is refused for beside pictures, if anything: it
/// has a part for every prompt, and every part counts as many as a prompt has places, so that
/// no token is left out.
pub open spec fn deep_mask_fault(t: Tensor, prompts: nat) -> Option<ModelError> {
    let dims = crate::tensor::tensor_dims(t);
    if dims[0] < prompts {
        Some(ModelError::ShapeMismatch)
    } else if exists|i: int|
        0 <= i < prompts && #[trigger] crate::tokens::total(mask_part(t, i)) != dims[1] {
        Some(ModelError::Rank)
    } else {
        None
    }
}

/// A mask has more dimensions than prompts and tokens.
pub open spec fn is_deep(t: Tensor) -> bool {
    crate::tensor::tensor_dims(t).len() > 2
}

/// The mask that counts beside pictures. Without a prompt none does, and one of more than two
/// dimensions leaves no token out.
pub open spec fn picture_mask(mask: Option<&Tensor>, prompts: nat) -> Option<
    crate::positions::MaskView,
> {
    if prompts == 0 || (mask matches Some(t) && is_deep(*t)) {
        None
    } else {
        mask_of_tensor(mask)
    }
}

/// A mask can serve beside pictures, where it is looked at.
pub open spec fn picture_mask_read(mask: Option<&Tensor>, prompts: nat) -> bool {
    prompts > 0 && mask is Some ==> {
        let t = *mask->0;
        if is_deep(t) {
            &&& crate::tensor::holds_u32(t, crate::tensor::tensor_dims(t).len())
            &&& deep_mask_fault(t, prompts) is None
        } else {
            crate::tensor::holds_u32(t, 2)
        }
    }
}

/// A mask cannot serve beside pictures, for the given reason.
pub open spec fn picture_mask_refused(mask: Option<&Tensor>, prompts: nat, e: ModelError) -> bool {
    &&& prompts > 0
    &&& mask matches Some(t) && if is_deep(*t) {
        ||| crate::tensor::unreadable(*t, e)
        ||| deep_mask_fault(*t, prompts) == Some(e)
    } else {
        crate::tensor::refused(*t, 2, e)
    }
}

/// Whether some numbers add up to `want`.
fn adds_up(v: &Vec<u32>, from: usize, to: usize, want: usize) -> (r: bool)
    requires
        from <= to <= v@.len(),
    ensures
        r == (crate::tokens::total(v@.subrange(from as int, to as int)) == want),
{
    let ghost part = v@.subrange(from as int, to as int);
    let mut sum: u128 = 0;
    let mut k: usize = from;
    assert(part.take(0) =~= Seq::<u32>::empty());
    while k < to
        invariant
            from <= k <= to <= v@.len(),
            part == v@.subrange(from as int, to as int),
            sum == crate::tokens::total(part.take(k - from)),
            sum <= (k - from) * 0xffff_ffff,
        decreases to - k,
    {
        assert(part.take(k - from + 1).drop_last() =~= part.take(k - from));
        sum = sum + v[k] as u128;
        k = k + 1;
    }
    assert(part.take(to - from) =~= part);
    sum == want as u128
}

/// Tests a mask of more than two dimensions beside the pictures of some prompts.
fn check_deep_mask(t: &Tensor, prompts: usize) -> (r: Result<(), ModelError>)
    requires
        is_deep(*t),
        prompts > 0,
    ensures
        match r {
            Ok(_) => {
                &&& crate::tensor::holds_u32(*t, crate::tensor::tensor_dims(*t).len())
                &&& deep_mask_fault(*t, prompts as nat) is None
            },
            Err(e) => {
                ||| crate::tensor::unreadable(*t, e)
                ||| deep_mask_fault(*t, prompts as nat) == Some(e)
            },
        },
{
    let dims = read_dims(t);
    let flat = match read_elements(t) {
        Ok(v) => v,
        Err(e) => return Err(e),
    };
    assert(flat@ =~= crate::tensor::vector_of(*t));
    if dims[0] < prompts {
        return Err(ModelError::ShapeMismatch);
    }
    let n: usize = flat.len() / dims[0];
    proof {
        vstd::arithmetic::div_mod::lemma_fundamental_div_mod(flat@.len() as int, dims[0] as int);
        assert(0 * n == 0) by (nonlinear_arith);
    }
    let total: usize = flat.len();
    let mut i: usize = 0;
    let mut at: usize = 0;
    while i < prompts
        invariant
            dims@ == crate::tensor::tensor_dims(*t),
            flat@ == crate::tensor::vector_of(*t),
            total == flat@.len(),
            flat@.len() == crate::tensor::tensor_elements(*t).len(),
            prompts <= dims@[0],
            dims@.len() > 2,
            n == flat@.len() as int / dims@[0] as int,
            dims@[0] * n <= total,
            i <= prompts,
            at == i * n,
            forall|k: int|
                0 <= k < i ==> #[trigger] crate::tokens::total(mask_part(*t, k)) == dims@[1],
        decreases prompts - i,
    {
        proof {
            assert((i + 1) * n == i * n + n && (i + 1) * n <= dims@[0] * n) by (nonlinear_arith)
                requires
                    0 <= i < dims@[0],
                    n >= 0,
            ;
        }
        assert(mask_part(*t, i as int) =~= flat@.subrange(at as int, at + n));
        if !adds_up(&flat, at, at + n, dims[1]) {
            assert(crate::tokens::total(mask_part(*t, i as int)) != dims@[1]);
            return Err(ModelError::Rank);
        }
        at = at + n;
        i = i + 1;
    }
    Ok(())
}

/// Reads the mask that counts beside the pictures of some prompts.
fn read_picture_mask(mask: Option<&Tensor>, prompts: usize) -> (r: Result<
    Option<TokenRows>,
    ModelError,
>)
    ensures
        match r {
            Ok(m) => {
                &&& picture_mask_read(mask, prompts as nat)
                &&& picture_mask(mask, prompts as nat) == match m {
                    None => None,
                    Some(m) => crate::positions::mask_view(Some(&m)),
                }
                &&& m matches Some(m) ==> m.wf()
            },
            Err(e) => picture_mask_refused(mask, prompts as nat, e),
        },
{
    if prompts == 0 {
        return Ok(None);
    }
    match mask {
        None => Ok(None),
        Some(t) => if read_dims(t).len() > 2 {
            match check_deep_mask(t, prompts) {
                Ok(_) => Ok(None),
                Err(e) => Err(e),
            }
        } else {
            match TokenRows::read(t) {
                Ok(rows) => Ok(Some(rows)),
                Err(e) => Err(e),
            }
        },
    }
}

/// How many prompts and tokens ids without pictures have; a mask asks for two dimensions.
pub open spec fn plain_shape(dims: Seq<usize>, masked: bool) -> Option<(usize, usize)> {
    if masked {
        if dims.len() < 2 {
            None
        } else {
            Some((dims[0], dims[1]))
        }
    } else if dims.len() == 0 {
        None
    } else {
        Some((dims[0], dims.last()))
    }
}

/// How many tokens a row of the ids of a request has.
pub open spec fn row_width(
    ids: Tensor,
    images: Option<&Tensor>,
    videos: Option<&Tensor>,
    mask: Option<&Tensor>,
) -> usize {
    let dims = crate::tensor::tensor_dims(ids);
    if images is Some || videos is Some {
        dims[1]
    } else {
        match plain_shape(dims, mask is Some) {
            None => 0,
            Some(shape) => shape.1,
        }
    }
}

/// The differences of plain text: a column of zeros of the type of the ids.
fn zero_deltas(ids: &Tensor, x: &RopeIndex) -> (r: Result<Tensor, ModelError>)
    requires
        crate::tensor::tensor_element(*ids) != Element::Other,
        x.placed().height <= usize::MAX / 16,
        x.placed().width == 1,
        x.placed().element == crate::tensor::tensor_element(*ids),
        x.placed().deltas == Seq::new(x.placed().height, |i: int| 0int),
    ensures
        r is Ok,
        ({
            let v = x.placed();
            crate::positions::holds_deltas(r->Ok_0, v.deltas, v.height, v.width, v.element)
        }),
        crate::tensor::tensor_place(r->Ok_0) == Place::Host,
{
    let mut dims: Vec<usize> = Vec::new();
    dims.push(x.deltas.height);
    dims.push(1);
    proof {
        assert(dims@ =~= seq![x.deltas.height, 1usize]);
        crate::tensor::lemma_volume2(x.deltas.height, 1);
        crate::tensor::lemma_volume1(x.deltas.height);
        assert(dims@.drop_last() =~= seq![x.deltas.height]);
        assert(seq![x.deltas.height].drop_last() =~= Seq::<usize>::empty());
        reveal_with_fuel(crate::tensor::prefixes_fit, 3);
    }
    match make_zeros(ids, dims) {
        Ok(t) => Ok(t),
        Err(e) => Err(ModelError::Tensor(e)),
    }
}

/// All tensors of a request hold what they stand for; without pictures the ids themselves are
/// not looked at.
pub open spec fn inputs_read(
    ids: Tensor,
    images: Option<&Tensor>,
    videos: Option<&Tensor>,
    mask: Option<&Tensor>,
) -> bool {
    if images is Some || videos is Some {
        &&& crate::tensor::holds_u32(ids, 2)
        &&& crate::picture_grids::videos_read(videos)
        &&& picture_mask_read(mask, crate::tensor::tensor_dims(ids)[0] as nat)
    } else {
        mask matches Some(m) ==> crate::tensor::holds_u32(*m, 2)
    }
}

impl Qwen3VLModel {
    /// The positions that the tensors of a request ask for.
    pub open spec fn wanted_index(
        self,
        ids: Tensor,
        images: Option<&Tensor>,
        videos: Option<&Tensor>,
        mask: Option<&Tensor>,
    ) -> Result<RopeView, ModelError> {
        let dims = crate::tensor::tensor_dims(ids);
        if images is Some || videos is Some {
            crate::positions::pictures_index(
                self.layout(),
                crate::tensor::matrix_of(ids),
                dims[1] as nat,
                crate::picture_grids::image_list(images),
                crate::picture_grids::frame_list(videos),
                picture_mask(mask, dims[0] as nat),
            )
        } else {
            match plain_shape(dims, mask is Some) {
                None => Err(ModelError::Rank),
                Some(shape) => if mask is Some {
                    crate::positions::plain_index(
                        shape.0 as nat,
                        shape.1 as nat,
                        mask_of_tensor(mask),
                        Element::U32,
                    )
                } else if crate::tensor::tensor_element(ids) == Element::Other {
                    Err(ModelError::ElementType)
                } else if shape.0 > usize::MAX / 16 {
                    Err(ModelError::Overflow)
                } else {
                    crate::positions::plain_index(
                        shape.0 as nat,
                        shape.1 as nat,
                        None,
                        crate::tensor::tensor_element(ids),
                    )
                },
            }
        }
    }

    /// The special tokens and the merge size that positions go by.
    pub(crate) fn prompt_layout(&self) -> (r: PromptLayout)
        ensures
            r == self.layout(),
    {
        PromptLayout {
            image_token: self.config.image_token_id,
            video_token: self.config.video_token_id,
            vision_start: self.config.vision_start_token_id,
            merge: self.config.vision_config.spatial_merge_size,
        }
    }

    /// The positions of a batch without pictures.
    fn index_text_tensor(&self, input_ids: &Tensor, mask: Option<&Tensor>) -> (r: Result<
        RopeIndex,
        ModelError,
    >)
        ensures
            ({
                let want = self.wanted_index(*input_ids, None, None, mask);
                match r {
                    Ok(x) => {
                        &&& inputs_read(*input_ids, None, None, mask)
                        &&& x.wf()
                        &&& x.positions.width == row_width(*input_ids, None, None, mask)
                        &&& want == Ok::<RopeView, ModelError>(x.placed())
                    },
                    Err(e) => {
                        ||| mask matches Some(m) && crate::tensor::refused(*m, 2, e)
                        ||| inputs_read(*input_ids, None, None, mask) && want == Err::<
                            RopeView,
                            ModelError,
                        >(e)
                    },
                }
            }),
    {
        let dims = read_dims(input_ids);
        match mask {
            Some(m) => {
                let rows = match TokenRows::read(m) {
                    Ok(rows) => rows,
                    Err(e) => return Err(e),
                };
                if dims.len() < 2 {
                    return Err(ModelError::Rank);
                }
                index_plain(dims[0], dims[1], Some(&rows), Element::U32)
            },
            None => {
                if dims.len() == 0 {
                    return Err(ModelError::Rank);
                }
                let element = read_element(input_ids);
                if element == Element::Other {
                    return Err(ModelError::ElementType);
                }
                if dims[0] > usize::MAX / 16 {
                    return Err(ModelError::Overflow);
                }
                index_plain(dims[0], dims[dims.len() - 1], None, element)
            },
        }
    }

    /// The positions of a batch with pictures.
    fn index_picture_tensors(
        &self,
        input_ids: &Tensor,
        images: Option<&Tensor>,
        videos: Option<&Tensor>,
        mask: Option<&Tensor>,
    ) -> (r: Result<RopeIndex, ModelError>)
        requires
            images is Some || videos is Some,
        ensures
            ({
                let want = self.wanted_index(*input_ids, images, videos, mask);
                match r {
                    Ok(x) => {
                        &&& inputs_read(*input_ids, images, videos, mask)
                        &&& x.wf()
                        &&& x.positions.width == row_width(*input_ids, images, videos, mask)
                        &&& want == Ok::<RopeView, ModelError>(x.placed())
                    },
                    Err(e) => {
                        ||| crate::picture_grids::images_refused(images, e)
                        ||| crate::picture_grids::videos_refused(videos, e)
                        ||| crate::tensor::refused(*input_ids, 2, e)
                        ||| crate::tensor::holds_u32(*input_ids, 2) && picture_mask_refused(
                            mask,
                            crate::tensor::tensor_dims(*input_ids)[0] as nat,
                            e,
                        )
                        ||| inputs_read(*input_ids, images, videos, mask) && (want matches Err(x)
                            && crate::picture_grids::settled(x, images, videos, e))
                    },
                }
            }),
    {
        let grids = match PictureGrids::read(images, videos) {
            Ok(g) => g,
            Err(e) => return Err(e),
        };
        let ids = match TokenRows::read(input_ids) {
            Ok(ids) => ids,
            Err(e) => return Err(e),
        };
        let marks = match read_picture_mask(mask, ids.rows.len()) {
            Ok(m) => m,
            Err(e) => return Err(e),
        };
        match self.prompt_layout().index_pictures(
            &ids,
            &grids.images,
            &grids.frames,
            marks.as_ref(),
        ) {
            Ok(x) => Ok(x),
            Err(x) => Err(grids.settle(x, images, videos)),
        }
    }

    /// The positions of a batch, axis by axis, and how far they run ahead of its tokens.
    pub fn get_rope_index(
        &self,
        input_ids: &Tensor,
        image_grid_thw: Option<&Tensor>,
        video_grid_thw: Option<&Tensor>,
        mask: Option<&Tensor>,
    ) -> (r: Result<(Tensor, Tensor), ModelError>)
        ensures
            ({
                let want = self.wanted_index(*input_ids, image_grid_thw, video_grid_thw, mask);
                let pictures = image_grid_thw is Some || video_grid_thw is Some;
                match r {
                    Ok((positions, deltas)) => {
                        &&& inputs_read(*input_ids, image_grid_thw, video_grid_thw, mask)
                        &&& want matches Ok(x) && {
                            &&& crate::positions::holds_positions(
                                positions,
                                x.rows,
                                row_width(*input_ids, image_grid_thw, video_grid_thw, mask),
                            )
                            &&& crate::positions::holds_deltas(
                                deltas,
                                x.deltas,
                                x.height,
                                x.width,
                                x.element,
                            )
                        }
                        &&& crate::tensor::tensor_place(positions) == crate::tensor::tensor_place(
                            *input_ids,
                        )
                        &&& crate::tensor::tensor_place(deltas) == crate::tensor::tensor_place(
                            *input_ids,
                        )
                    },
                    Err(e) => {
                        ||| crate::tensor::copy_refused(*input_ids, e)
                        ||| crate::picture_grids::images_refused(image_grid_thw, e)
                        ||| crate::picture_grids::videos_refused(video_grid_thw, e)
                        ||| pictures && crate::tensor::refused(*input_ids, 2, e)
                        ||| pictures && crate::tensor::holds_u32(*input_ids, 2)
                            && picture_mask_refused(
                            mask,
                            crate::tensor::tensor_dims(*input_ids)[0] as nat,
                            e,
                        )
                        ||| !pictures && (mask matches Some(m) && crate::tensor::refused(*m, 2, e))
                        ||| inputs_read(*input_ids, image_grid_thw, video_grid_thw, mask) && (
                        want matches Err(x) && crate::picture_grids::settled(
                            x,
                            image_grid_thw,
                            video_grid_thw,
                            e,
                        ))
                    },
                }
            }),
    {
        let pictures = image_grid_thw.is_some() || video_grid_thw.is_some();
        let index = if pictures {
            self.index_picture_tensors(input_ids, image_grid_thw, video_grid_thw, mask)
        } else {
            self.index_text_tensor(input_ids, mask)
        };
        match index {
            Ok(x) => {
                let positions = match x.positions.to_tensor() {
                    Ok(t) => match bring_beside(t, input_ids) {
                        Ok(t) => t,
                        Err(e) => return Err(e),
                    },
                    Err(e) => return Err(e),
                };
                let deltas = if pictures || mask.is_some() {
                    x.deltas.to_tensor()
                } else {
                    zero_deltas(input_ids, &x)
                };
                match deltas {
                    Ok(t) => match bring_beside(t, input_ids) {
                        Ok(deltas) => Ok((positions, deltas)),
                        Err(e) => Err(e),
                    },
                    Err(e) => Err(e),
                }
            },
            Err(e) => Err(e),
        }
    }
}

/// The whole model has the layers of the vision model and of the language model, each under a
/// path of its own, and an output layer of its own unless it is tied to the token table.
pub proof fn the_model_has_all_its_layers(cfg: Qwen3VLConfig, i: int)
    ensures
        ({
            let m = model_modules(cfg);
            let v = crate::vision::vision_modules(cfg.vision_config);
            let t = crate::text::text_modules(cfg.text_config);
            let n = (v.len() + t.len()) as int;
            &&& 0 <= i < v.len() ==> m[i].path == "model.visual."@ + v[i].path && m[i].shape
                == v[i].shape
            &&& 0 <= i < t.len() ==> m[v.len() + i].path == "model.language_model."@ + t[i].path
                && m[v.len() + i].shape == t[i].shape
            &&& cfg.tie_word_embeddings ==> m.len() == n
            &&& !cfg.tie_word_embeddings ==> {
                &&& m.len() == n + 1
                &&& m[n].path == "lm_head"@
                &&& m[n].shape == (ShapeView::LinearNoBias {
                    inputs: cfg.text_config.hidden_size,
                    outputs: cfg.text_config.vocab_size,
                })
            }
        }),
{
}

/// Stored features are used just where they have a row for every image token and all deep
/// features; images without a key are encoded and not stored.
pub proof fn fitting_entries_are_used(
    tokens: usize,
    expected: nat,
    width: usize,
    found: Option<(Seq<usize>, nat)>,
)
    ensures
        chosen(tokens as nat, expected, true, Some((seq![tokens, width], expected)))
            == ImageSource::Stored,
        chosen(tokens as nat, expected, true, None) == (ImageSource::Encoded { store: true }),
        chosen(tokens as nat, expected, false, found) == (ImageSource::Encoded { store: false }),
{
}

/// In the mask of a token an id is marked by a one just where it is that token, whatever the
/// shape of the ids; a single id counts as a row of one.
pub proof fn masks_mark_their_token(t: Tensor, ids: Tensor, token: u32, i: int)
    requires
        marks_equal(
            t,
            mask_shape(crate::tensor::tensor_dims(ids)),
            crate::tensor::tensor_elements(ids),
            token,
        ),
        0 <= i < crate::tensor::tensor_elements(ids).len(),
    ensures
        crate::tensor::tensor_elements(t).len() == crate::tensor::tensor_elements(ids).len(),
        crate::tensor::tensor_elements(t)[i] == 1 <==> crate::tensor::tensor_elements(ids)[i]
            == token,
        crate::tensor::tensor_elements(t)[i] == 0 <==> crate::tensor::tensor_elements(ids)[i]
            != token,
        crate::tensor::tensor_dims(ids).len() > 0 ==> crate::tensor::tensor_dims(t)
            == crate::tensor::tensor_dims(ids),
        crate::tensor::tensor_dims(ids).len() == 0 ==> crate::tensor::tensor_dims(t) == seq![1usize],
        crate::tensor::tensor_element(t) == Element::U8,
{
}

/// Positions go by the special tokens and by the merge size of the configuration.
pub proof fn positions_go_by_the_configuration(m: Qwen3VLModel)
    ensures
        m.layout().image_token == m.config.image_token_id,
        m.layout().video_token == m.config.video_token_id,
        m.layout().vision_start == m.config.vision_start_token_id,
        m.layout().merge == m.config.vision_config.spatial_merge_size,
{
}

/// Without pictures and without a mask every row of ids is numbered from zero, whatever the
/// ids are, and nothing runs ahead.
pub proof fn text_tensors_are_numbered(m: Qwen3VLModel, ids: Tensor, i: int, j: int)
    requires
        ({
            let dims = crate::tensor::tensor_dims(ids);
            &&& dims.len() > 0
            &&& crate::tensor::tensor_element(ids) != Element::Other
            &&& dims[0] <= usize::MAX / 16
            &&& dims.last() <= u32::MAX
            &&& 0 <= i < dims[0]
            &&& 0 <= j < dims.last()
        }),
    ensures
        ({
            let dims = crate::tensor::tensor_dims(ids);
            m.wanted_index(ids, None, None, None) matches Ok(x) && {
                &&& x.rows.len() == dims[0]
                &&& x.rows[i].len() == dims.last()
                &&& x.rows[i][j] == (j as nat, j as nat, j as nat)
                &&& x.deltas == Seq::new(dims[0] as nat, |k: int| 0int)
                &&& x.height == dims[0]
                &&& x.width == 1
                &&& x.element == crate::tensor::tensor_element(ids)
            }
        }),
{
}

/// The ids of a batch with pictures are placed with the grids that the tensors hold, under no
/// mask where none is given.
pub proof fn picture_tensors_are_placed(
    m: Qwen3VLModel,
    ids: Tensor,
    images: Option<&Tensor>,
    videos: Option<&Tensor>,
)
    requires
        images is Some || videos is Some,
        crate::tensor::tensor_dims(ids)[1] <= u32::MAX,
        crate::positions::place_batch(
            m.layout(),
            crate::picture_grids::image_list(images),
            crate::picture_grids::frame_list(videos),
            crate::tensor::matrix_of(ids),
            None,
            crate::tensor::tensor_dims(ids)[1] as nat,
            crate::tensor::tensor_dims(ids)[0] as nat,
        ) is Ok,
    ensures
        ({
            let b = crate::positions::place_batch(
                m.layout(),
                crate::picture_grids::image_list(images),
                crate::picture_grids::frame_list(videos),
                crate::tensor::matrix_of(ids),
                None,
                crate::tensor::tensor_dims(ids)[1] as nat,
                crate::tensor::tensor_dims(ids)[0] as nat,
            )->Ok_0;
            m.wanted_index(ids, images, videos, None) matches Ok(x) && x.rows == b.rows && x.deltas
                == b.deltas && x.height == 1 && x.width == crate::tensor::tensor_dims(ids)[0]
        }),
{
    assert(crate::tensor::matrix_of(ids).len() == crate::tensor::tensor_dims(ids)[0]);
}

/// A mask of more than two dimensions passes beside pictures just where it has a part for every
/// prompt and each part adds up to the second dimension. The parts are equally long and stand
/// one behind the other.
pub proof fn deep_masks_keep_every_token(t: Tensor, prompts: nat, i: int, k: int)
    requires
        is_deep(t),
        crate::tensor::tensor_dims(t)[0] > 0,
        0 <= i < prompts,
        prompts <= crate::tensor::tensor_dims(t)[0],
        0 <= k,
        (k + 1) * crate::tensor::tensor_dims(t)[0] <= crate::tensor::tensor_elements(t).len(),
    ensures
        ({
            let dims = crate::tensor::tensor_dims(t);
            let e = crate::tensor::vector_of(t);
            let part = mask_part(t, i);
            &&& part.len() * dims[0] <= e.len() < (part.len() + 1) * dims[0]
            &&& k < part.len()
            &&& part[k] == e[i * part.len() + k]
            &&& deep_mask_fault(t, prompts) is None ==> crate::tokens::total(part) == dims[1]
            &&& crate::tokens::total(part) != dims[1] ==> deep_mask_fault(t, prompts) == Some(
                ModelError::Rank,
            )
            &&& deep_mask_fault(t, (dims[0] + 1) as nat) == Some(ModelError::ShapeMismatch)
        }),
{
    let dims = crate::tensor::tensor_dims(t);
    let len = crate::tensor::tensor_elements(t).len() as int;
    let d = dims[0] as int;
    let n = len / d;
    vstd::arithmetic::div_mod::lemma_fundamental_div_mod(len, d);
    vstd::arithmetic::div_mod::lemma_mod_bound(len, d);
    assert(n >= 0 && (i + 1) * n == i * n + n && 0 <= i * n && (i + 1) * n <= d * n && n * d == d
        * n && (n + 1) * d == d * n + d && k < n) by (nonlinear_arith)
        requires
            len == d * n + len % d,
            0 <= len % d < d,
            0 <= i < d,
            0 <= k,
            (k + 1) * d <= len,
            d > 0,
    ;
    let part = mask_part(t, i);
    assert(part.len() == n);
    assert(crate::tokens::total(mask_part(t, i)) == crate::tokens::total(part));
}

/// A mask is read row by row, and counts beside text as beside pictures.
pub proof fn masks_count_beside_text_and_pictures(
    m: Qwen3VLModel,
    ids: Tensor,
    mask: &Tensor,
    images: Option<&Tensor>,
    videos: Option<&Tensor>,
)
    requires
        crate::tensor::tensor_dims(ids).len() == 2,
        crate::tensor::tensor_dims(ids)[0] > 0,
        crate::tensor::holds_u32(*mask, 2),
    ensures
        ({
            let dims = crate::tensor::tensor_dims(ids);
            let view = crate::positions::MaskView {
                rows: crate::tensor::matrix_of(*mask),
                width: crate::tensor::tensor_dims(*mask)[1] as nat,
            };
            &&& images is None && videos is None ==> m.wanted_index(ids, images, videos, Some(mask))
                == crate::positions::plain_index(
                dims[0] as nat,
                dims[1] as nat,
                Some(view),
                Element::U32,
            )
            &&& images is Some || videos is Some ==> m.wanted_index(
                ids,
                images,
                videos,
                Some(mask),
            ) == crate::positions::pictures_index(
                m.layout(),
                crate::tensor::matrix_of(ids),
                dims[1] as nat,
                crate::picture_grids::image_list(images),
                crate::picture_grids::frame_list(videos),
                Some(view),
            )
            &&& inputs_read(ids, None, None, Some(mask))
        }),
{
}

/// A mask of two dimensions that can be read is not refused beside pictures, nor is one where
/// there is no prompt.
pub proof fn readable_masks_are_not_refused(t: Tensor, prompts: nat, e: ModelError)
    requires
        crate::tensor::readable(t),
        crate::tensor::tensor_dims(t).len() == 2,
    ensures
        !picture_mask_refused(Some(&t), prompts, e),
        !picture_mask_refused(None, prompts, e),
        picture_mask_read(None, prompts),
        picture_mask(Some(&t), 0) is None,
{
}

proof fn lemma_flat_count(rows: Seq<Seq<bool>>, width: nat)
    requires
        forall|k: int| 0 <= k < rows.len() ==> (#[trigger] rows[k]).len() == width,
    ensures
        crate::marks::count_columns(rows, 0, width as int) == crate::marks::count(
            crate::scatter::flat(rows),
        ),
    decreases rows.len(),
{
    if rows.len() > 0 {
        let head = rows.drop_last();
        let last = rows.last();
        assert forall|k: int| 0 <= k < head.len() implies (#[trigger] head[k]).len() == width by {
            assert(head[k] == rows[k]);
        }
        lemma_flat_count(head, width);
        assert(rows[rows.len() - 1].len() == width);
        assert(last.subrange(0, width as int) =~= last);
        crate::marks::lemma_count_add(crate::scatter::flat(head), last);
    }
}

/// The image tokens of ids are all elements that are equal to the image token.
pub proof fn image_tokens_are_counted(ids: Tensor, token: u32)
    requires
        crate::tensor::holds_u32(ids, 2),
    ensures
        image_tokens(ids, token) == crate::marks::count(
            Seq::new(
                crate::tensor::tensor_elements(ids).len(),
                |k: int| crate::tensor::tensor_elements(ids)[k] == token,
            ),
        ),
{
    let e = crate::tensor::tensor_elements(ids);
    let dims = crate::tensor::tensor_dims(ids);
    let width = dims[1] as nat;
    let rows = crate::marks::marks_of(crate::tensor::matrix_of(ids), token);
    let flat = crate::scatter::flat(rows);
    let want = Seq::new(e.len(), |k: int| e[k] == token);
    assert(dims =~= seq![dims[0], dims[1]]);
    crate::tensor::lemma_volume2(dims[0], dims[1]);
    assert forall|k: int| 0 <= k < rows.len() implies (#[trigger] rows[k]).len() == width by {}
    lemma_flat_count(rows, width);
    crate::scatter::lemma_flat_width(rows, width);
    assert forall|k: int| 0 <= k < want.len() implies flat[k] == #[trigger] want[k] by {
        let w = width as int;
        assert(w > 0 && 0 <= k / w < dims[0] && 0 <= k % w < w && (k / w) * w + k % w == k)
            by (nonlinear_arith)
            requires
                0 <= k < dims[0] * w,
                w >= 0,
                dims[0] >= 0,
        ;
        crate::scatter::prompts_are_taken_in_turn(rows, width, k / w, k % w);
        crate::tensor::matrices_read_row_by_row(ids, k / w, k % w);
    }
    assert(flat =~= want);
}

/// The rows of ids beside pictures or a mask are as long as their second dimension, and those of
/// plain text as their last.
pub proof fn rows_are_as_long_as_their_ids(ids: Tensor, grid: &Tensor)
    requires
        crate::tensor::tensor_dims(ids).len() >= 1,
    ensures
        row_width(ids, None, None, None) == crate::tensor::tensor_dims(ids).last(),
        crate::tensor::tensor_dims(ids).len() == 2 ==> {
            let width = crate::tensor::tensor_dims(ids)[1];
            &&& row_width(ids, Some(grid), None, None) == width
            &&& row_width(ids, None, Some(grid), None) == width
            &&& row_width(ids, None, None, Some(grid)) == width
        },
{
}

} // verus!
