//! What a request does, from its tokens to the passes of the language model.
use candle_core::Tensor;
use vstd::prelude::*;

use crate::decode::continue_positions;
use crate::error::ModelError;
use crate::grid::Thw;
use crate::marks::MarkRows;
use crate::model::Qwen3VLModel;
use crate::picture_grids::PictureGrids;
use crate::positions::{index_plain, PositionIds, RopeDeltas, RopeView};
use crate::prefill::{plan_passes, PrefillPass};
use crate::rope::PromptLayout;
use crate::tensor::{read_dims, read_element, read_vector, Element};
use crate::tokens::TokenRows;
use crate::visual::{merge_visual, VisualPlan, VisualView};

verus! {

/// What a request does.
pub struct ForwardPlan {
    /// The tokens that image features replace, where there are images.
    pub image_marks: Option<MarkRows>,
    /// The tokens that video features replace, where there are videos.
    pub video_marks: Option<MarkRows>,
    /// The deep visual features.
    pub visual: Option<VisualPlan>,
    pub positions: PositionIds,
    pub passes: Vec<PrefillPass>,
    /// Which token of the last pass is scored; no other token is.
    pub scored: usize,
}

/// How far the positions of a prompt ran ahead of its tokens.
pub struct DeltasView {
    pub values: Seq<int>,
    pub height: nat,
    pub width: nat,
    pub element: Element,
}

/// What a request comes to.
pub struct ForwardView {
    pub image_marks: Option<Seq<Seq<bool>>>,
    pub video_marks: Option<Seq<Seq<bool>>>,
    pub visual: Option<VisualView>,
    pub positions: Seq<Seq<(nat, nat, nat)>>,
    pub passes: Seq<PrefillPass>,
    /// The differences that later requests go by.
    pub deltas: Option<DeltasView>,
}

/// The differences that a model stores, as a value.
pub open spec fn deltas_view(d: Option<RopeDeltas>) -> Option<DeltasView> {
    match d {
        None => None,
        Some(d) => Some(
            DeltasView {
                values: crate::decode::delta_values(d),
                height: d.height as nat,
                width: d.width as nat,
                element: d.element,
            },
        ),
    }
}

/// The sizes of a request can be counted.
pub open spec fn request_fits(prompts: nat, width: nat, offset: nat) -> bool {
    &&& prompts * width <= usize::MAX
    &&& width <= u32::MAX
    &&& offset + width <= usize::MAX
}

/// The tokens of a kind, where there are features for them.
pub open spec fn marks_for(ids: Seq<Seq<u32>>, token: u32, features: Option<usize>) -> Option<
    Seq<Seq<bool>>,
> {
    match features {
        None => None,
        Some(_) => Some(crate::marks::marks_of(ids, token)),
    }
}

/// There is a token of a kind for every row of features.
pub open spec fn count_fault(
    ids: Seq<Seq<u32>>,
    width: nat,
    token: u32,
    features: Option<usize>,
) -> Option<ModelError> {
    match features {
        None => None,
        Some(n) => {
            let tokens = crate::marks::count_columns(
                crate::marks::marks_of(ids, token),
                0,
                width as int,
            );
            if tokens == n {
                None
            } else {
                Some(ModelError::TokenCount { tokens: tokens as usize, features: n })
            }
        },
    }
}

/// Positions are taken anew at the start of a prompt, and where there was none before.
pub open spec fn starts_prompt(cache: Option<u32>, deltas: Option<DeltasView>) -> bool {
    cache == Some(0u32) || deltas is None
}

/// The positions that are taken anew: those of the pictures and the text round them where a
/// grid is given, plain ones elsewhere.
pub open spec fn first_positions(
    layout: PromptLayout,
    ids: Seq<Seq<u32>>,
    width: nat,
    element: Element,
    images: Option<Seq<Thw>>,
    frames: Option<Seq<Thw>>,
) -> Result<RopeView, ModelError> {
    if images is Some || frames is Some {
        crate::positions::pictures_index(
            layout,
            ids,
            width,
            crate::positions::or_empty(images),
            crate::positions::or_empty(frames),
            None,
        )
    } else {
        crate::positions::plain_index(ids.len(), width, None, element)
    }
}

/// The positions of a request, and the differences that later requests go by.
pub open spec fn request_positions(
    layout: PromptLayout,
    deltas: Option<DeltasView>,
    ids: Seq<Seq<u32>>,
    width: nat,
    element: Element,
    images: Option<Seq<Thw>>,
    frames: Option<Seq<Thw>>,
    cache: Option<u32>,
) -> Result<(Seq<Seq<(nat, nat, nat)>>, Option<DeltasView>), ModelError> {
    if starts_prompt(cache, deltas) {
        match first_positions(layout, ids, width, element, images, frames) {
            Ok(x) => Ok(
                (
                    x.rows,
                    Some(
                        DeltasView {
                            values: x.deltas,
                            height: x.height,
                            width: x.width,
                            element: x.element,
                        },
                    ),
                ),
            ),
            Err(e) => Err(e),
        }
    } else {
        match cache {
            None => Err(ModelError::NoCachePosition),
            Some(c) => match crate::decode::continued(
                deltas->0.element,
                c as nat,
                deltas->0.values,
                deltas->0.height,
                deltas->0.width,
                ids.len(),
                width,
            ) {
                Ok(rows) => Ok((rows, deltas)),
                Err(e) => Err(e),
            },
        }
    }
}

/// What a request comes to. `frames` are the grids of the frames of its videos, `element` is
/// the type of its ids; `image` and `video` are the numbers of feature rows, where there
/// are any; `cache` is the first cached position, where it was given.
pub open spec fn outcome(
    layout: PromptLayout,
    deltas: Option<DeltasView>,
    ids: Seq<Seq<u32>>,
    width: nat,
    element: Element,
    image: Option<usize>,
    images: Option<Seq<Thw>>,
    video: Option<usize>,
    frames: Option<Seq<Thw>>,
    cache: Option<u32>,
    offset: nat,
) -> Result<ForwardView, ModelError> {
    let image_marks = marks_for(ids, layout.image_token, image);
    let video_marks = marks_for(ids, layout.video_token, video);
    if !request_fits(ids.len(), width, offset) {
        Err(ModelError::Overflow)
    } else if let Some(e) = count_fault(ids, width, layout.image_token, image) {
        Err(e)
    } else if let Some(e) = count_fault(ids, width, layout.video_token, video) {
        Err(e)
    } else {
        match crate::visual::merged(image_marks, video_marks) {
            Err(e) => Err(e),
            Ok(visual) => if width == 0 {
                Err(ModelError::EmptyPrompt)
            } else {
                match request_positions(
                    layout,
                    deltas,
                    ids,
                    width,
                    element,
                    images,
                    frames,
                    cache,
                ) {
                    Err(e) => Err(e),
                    Ok((positions, next)) => Ok(
                        ForwardView {
                            image_marks,
                            video_marks,
                            visual,
                            positions,
                            passes: crate::prefill::passes(
                                width,
                                offset,
                                match visual {
                                    None => None,
                                    Some(v) => Some(v.marks),
                                },
                            ),
                            deltas: next,
                        },
                    ),
                }
            },
        }
    }
}

/// Marks have a column for every token, where they are there.
pub open spec fn marks_span(marks: Option<MarkRows>, width: nat) -> bool {
    marks matches Some(m) ==> m.wf() && m.width == width
}

impl ForwardPlan {
    /// The last pass reaches the end of the prompts, and the token that is scored is its
    /// last one: the last token of each prompt.
    pub open spec fn scores_the_end(self, width: nat) -> bool {
        &&& self.passes@.len() > 0
        &&& self.scored + 1 == self.passes@.last().take
        &&& self.passes@.last().start + self.scored + 1 == width
    }

    /// The plan does what a request comes to.
    pub open spec fn does(self, want: ForwardView, width: nat) -> bool {
        &&& crate::visual::owned_marks(self.image_marks) == want.image_marks
        &&& crate::visual::owned_marks(self.video_marks) == want.video_marks
        &&& crate::visual::plan_view(self.visual) == want.visual
        &&& marks_span(self.image_marks, width)
        &&& marks_span(self.video_marks, width)
        &&& self.visual matches Some(v) ==> v.marks.wf() && v.marks.width == width
        &&& self.positions.cells() == want.positions
        &&& self.positions.wf()
        &&& self.positions.width == width
        &&& self.passes@ == want.passes
        &&& self.scores_the_end(width)
    }
}

/// Marks the tokens of a kind and compares their number with that of the features.
fn mark_features(ids: &TokenRows, token: u32, features: Option<usize>) -> (r: Result<
    Option<MarkRows>,
    ModelError,
>)
    requires
        ids.wf(),
        ids.cells().len() * ids.width <= usize::MAX,
    ensures
        match r {
            Ok(m) => {
                &&& count_fault(ids.cells(), ids.width as nat, token, features) is None
                &&& crate::visual::owned_marks(m) == marks_for(ids.cells(), token, features)
                &&& m matches Some(m) ==> m.wf() && m.width == ids.width && m.cells().len() == ids.cells().len()
            },
            Err(e) => count_fault(ids.cells(), ids.width as nat, token, features) == Some(e),
        },
{
    match features {
        None => Ok(None),
        Some(n) => {
            let marks = MarkRows::of_token(ids, token);
            let tokens: usize = marks.count_columns(0, ids.width);
            if tokens != n {
                return Err(ModelError::TokenCount { tokens, features: n });
            }
            Ok(Some(marks))
        },
    }
}

fn copy_marks(marks: &Option<MarkRows>) -> (r: Option<MarkRows>)
    requires
        marks matches Some(m) ==> m.wf(),
    ensures
        crate::visual::owned_marks(r) == crate::visual::owned_marks(*marks),
        marks matches Some(m) ==> r matches Some(c) && c.wf() && c.width == m.width,
{
    match marks {
        None => None,
        Some(m) => {
            let c = m.columns(0, m.width);
            proof {
                assert forall|i: int| 0 <= i < m.cells().len() implies #[trigger] c.cells()[i] == m.cells()[i] by {
                    assert(m.cells()[i].len() == m.width);
                    assert(m.cells()[i].subrange(0, m.width as int) =~= m.cells()[i]);
                }
                assert(c.cells() =~= m.cells());
            }
            Some(c)
        },
    }
}

impl Qwen3VLModel {
    /// Everything but the stored differences.
    pub open spec fn same_parts(self, other: Qwen3VLModel) -> bool {
        &&& self.config == other.config
        &&& self.visual == other.visual
        &&& self.language_model == other.language_model
    }

    /// What a request to this model comes to.
    pub open spec fn outcome(
        self,
        ids: Seq<Seq<u32>>,
        width: nat,
        element: Element,
        image: Option<usize>,
        images: Option<Seq<Thw>>,
        video: Option<usize>,
        frames: Option<Seq<Thw>>,
        cache: Option<u32>,
        offset: nat,
    ) -> Result<ForwardView, ModelError> {
        outcome(
            self.layout(),
            deltas_view(self.rope_deltas),
            ids,
            width,
            element,
            image,
            images,
            video,
            frames,
            cache,
            offset,
        )
    }

    /// Whether a request takes its positions anew.
    fn is_prompt_start(&self, cache: Option<u32>) -> (r: bool)
        ensures
            r == starts_prompt(cache, deltas_view(self.rope_deltas)),
    {
        let zero = match cache {
            Some(c) => c == 0,
            None => false,
        };
        zero || self.rope_deltas.is_none()
    }

    /// The positions of a request; the differences are stored where they were taken anew.
    fn place_request(
        &mut self,
        ids: &TokenRows,
        element: Element,
        images: Option<&Vec<Thw>>,
        frames: Option<&Vec<Thw>>,
        cache: Option<u32>,
    ) -> (r: Result<PositionIds, ModelError>)
        requires
            old(self).wf(),
            ids.wf(),
            element.is_index(),
        ensures
            final(self).wf(),
            final(self).same_parts(*old(self)),
            match request_positions(
                old(self).layout(),
                deltas_view(old(self).rope_deltas),
                ids.cells(),
                ids.width as nat,
                element,
                crate::positions::grid_view(images),
                crate::positions::grid_view(frames),
                cache,
            ) {
                Ok((rows, next)) => {
                    &&& r matches Ok(p) && p.cells() == rows && p.wf() && p.width == ids.width
                    &&& deltas_view(final(self).rope_deltas) == next
                },
                Err(e) => {
                    &&& r == Err::<PositionIds, ModelError>(e)
                    &&& final(self).rope_deltas == old(self).rope_deltas
                },
            },
    {
        if self.is_prompt_start(cache) {
            let index = if images.is_some() || frames.is_some() {
                let none: Vec<Thw> = Vec::new();
                assert(none@ =~= Seq::<Thw>::empty());
                let i = match images {
                    Some(g) => g,
                    None => &none,
                };
                let f = match frames {
                    Some(g) => g,
                    None => &none,
                };
                self.prompt_layout().index_pictures(ids, i, f, None)
            } else {
                index_plain(ids.rows.len(), ids.width, None, element)
            };
            match index {
                Ok(x) => {
                    self.rope_deltas = Some(x.deltas);
                    Ok(x.positions)
                },
                Err(e) => Err(e),
            }
        } else {
            match (cache, &self.rope_deltas) {
                (Some(c), Some(deltas)) => continue_positions(
                    c,
                    deltas,
                    ids.rows.len(),
                    ids.width,
                ),
                _ => Err(ModelError::NoCachePosition),
            }
        }
    }

    /// Plans a request over the tokens of a batch.
    ///
    /// `element` is the type of the ids, `image` and `video` are the numbers of feature rows
    /// that pictures were encoded to, `frames` are the grids of the frames of the videos.
    /// Tokens and features are counted, positions are taken anew or continued, and the
    /// tokens are cut into passes. A refused request changes nothing.
    pub fn plan(
        &mut self,
        ids: &TokenRows,
        element: Element,
        image: Option<usize>,
        images: Option<&Vec<Thw>>,
        video: Option<usize>,
        frames: Option<&Vec<Thw>>,
        cache: Option<u32>,
        offset: usize,
    ) -> (r: Result<ForwardPlan, ModelError>)
        requires
            old(self).wf(),
            ids.wf(),
            element.is_index(),
        ensures
            final(self).wf(),
            final(self).same_parts(*old(self)),
            match old(self).outcome(
                ids.cells(),
                ids.width as nat,
                element,
                image,
                crate::positions::grid_view(images),
                video,
                crate::positions::grid_view(frames),
                cache,
                offset as nat,
            ) {
                Ok(want) => {
                    &&& r matches Ok(p) && p.does(want, ids.width as nat)
                    &&& deltas_view(final(self).rope_deltas) == want.deltas
                },
                Err(e) => {
                    &&& r == Err::<ForwardPlan, ModelError>(e)
                    &&& final(self).rope_deltas == old(self).rope_deltas
                },
            },
    {
        let prompts: usize = ids.rows.len();
        let width: usize = ids.width;
        match prompts.checked_mul(width) {
            Some(_) => {},
            None => return Err(ModelError::Overflow),
        }
        if width > u32::MAX as usize || offset > usize::MAX - width {
            return Err(ModelError::Overflow);
        }
        let image_token: u32 = self.config.image_token_id;
        let video_token: u32 = self.config.video_token_id;
        let image_marks = match mark_features(ids, image_token, image) {
            Ok(m) => m,
            Err(e) => return Err(e),
        };
        let video_marks = match mark_features(ids, video_token, video) {
            Ok(m) => m,
            Err(e) => return Err(e),
        };
        let visual = match merge_visual(copy_marks(&image_marks), copy_marks(&video_marks)) {
            Ok(v) => v,
            Err(e) => return Err(e),
        };
        if width == 0 {
            return Err(ModelError::EmptyPrompt);
        }
        let positions = match self.place_request(ids, element, images, frames, cache) {
            Ok(p) => p,
            Err(e) => return Err(e),
        };
        let passes = match &visual {
            None => plan_passes(width, offset, None),
            Some(v) => plan_passes(width, offset, Some(&v.marks)),
        };
        proof {
            crate::prefill::last_pass_ends(
                width as nat,
                offset as nat,
                if visual is Some {
                    Some(visual->0.marks.cells())
                } else {
                    None
                },
            );
        }
        let scored: usize = passes[passes.len() - 1].take - 1;
        Ok(ForwardPlan { image_marks, video_marks, visual, positions, passes, scored })
    }
}

/// The first cached position that an optional tensor gives.
pub open spec fn cache_of_tensor(t: Option<&Tensor>) -> Option<u32> {
    match t {
        None => None,
        Some(t) => Some(crate::tensor::vector_of(*t)[0]),
    }
}

/// An optional tensor of cache positions holds at least one, where it is there.
pub open spec fn cache_read(t: Option<&Tensor>) -> bool {
    t matches Some(t) ==> crate::tensor::holds_u32(*t, 1) && crate::tensor::vector_of(*t).len() > 0
}

/// An optional tensor of cache positions is refused for the given reason.
pub open spec fn cache_refused(t: Option<&Tensor>, e: ModelError) -> bool {
    t matches Some(t) && {
        ||| crate::tensor::refused(*t, 1, e)
        ||| crate::tensor::holds_u32(*t, 1) && crate::tensor::vector_of(*t).len() == 0 && e
            == ModelError::NoCachePosition
    }
}

/// Features count only where their grid is given too.
pub open spec fn with_grid(features: Option<usize>, grid: Option<&Tensor>) -> Option<usize> {
    if grid is Some {
        features
    } else {
        None
    }
}

fn read_cache_position(t: Option<&Tensor>) -> (r: Result<Option<u32>, ModelError>)
    ensures
        match r {
            Ok(c) => cache_read(t) && c == cache_of_tensor(t),
            Err(e) => cache_refused(t, e),
        },
{
    match t {
        None => Ok(None),
        Some(t) => match read_vector(t) {
            Ok(v) => if v.len() == 0 {
                Err(ModelError::NoCachePosition)
            } else {
                Ok(Some(v[0]))
            },
            Err(e) => Err(e),
        },
    }
}

/// The tokens that are looked at; where none is, their number alone counts.
pub open spec fn seen_ids(ids: Tensor, looks: bool) -> Seq<Seq<u32>> {
    if looks {
        crate::tensor::matrix_of(ids)
    } else {
        let dims = crate::tensor::tensor_dims(ids);
        Seq::new(dims[0] as nat, |i: int| Seq::new(dims[1] as nat, |j: int| 0u32))
    }
}

/// The grids of images that can serve, where a grid is given.
pub open spec fn given_images(t: Option<&Tensor>) -> Option<Seq<Thw>> {
    if t is Some {
        Some(crate::picture_grids::image_list(t))
    } else {
        None
    }
}

/// The grids of frames that can serve, where a grid is given.
pub open spec fn given_frames(t: Option<&Tensor>) -> Option<Seq<Thw>> {
    if t is Some {
        Some(crate::picture_grids::frame_list(t))
    } else {
        None
    }
}

/// Tokens of the given number, none of which is looked at.
fn blank_rows(prompts: usize, width: usize) -> (r: TokenRows)
    ensures
        r.wf(),
        r.width == width,
        r.cells() == Seq::new(prompts as nat, |i: int| Seq::new(width as nat, |j: int| 0u32)),
{
    let mut rows: Vec<Vec<u32>> = Vec::new();
    while rows.len() < prompts
        invariant
            rows@.len() <= prompts,
            forall|i: int|
                0 <= i < rows@.len() ==> (#[trigger] rows@[i])@ == Seq::new(
                    width as nat,
                    |j: int| 0u32,
                ),
        decreases prompts - rows@.len(),
    {
        let mut row: Vec<u32> = Vec::new();
        while row.len() < width
            invariant
                row@.len() <= width,
                forall|j: int| 0 <= j < row@.len() ==> row@[j] == 0,
            decreases width - row@.len(),
        {
            row.push(0);
        }
        assert(row@ =~= Seq::new(width as nat, |j: int| 0u32));
        rows.push(row);
    }
    let r = TokenRows { rows, width };
    assert forall|i: int| 0 <= i < prompts implies #[trigger] r.cells()[i] == Seq::new(
        width as nat,
        |j: int| 0u32,
    ) by {
        assert(r.rows@[i]@ == Seq::new(width as nat, |j: int| 0u32));
    }
    assert(r.cells() =~= Seq::new(
        prompts as nat,
        |i: int| Seq::new(width as nat, |j: int| 0u32),
    ));
    r
}

impl Qwen3VLModel {
    /// Whether a request looks at its tokens: where features replace some of them, and where
    /// pictures are placed among them.
    pub open spec fn looks(
        self,
        image: Option<usize>,
        images: Option<&Tensor>,
        video: Option<usize>,
        videos: Option<&Tensor>,
        cache: Option<&Tensor>,
    ) -> bool {
        ||| with_grid(image, images) is Some
        ||| with_grid(video, videos) is Some
        ||| (images is Some || videos is Some) && starts_prompt(
            cache_of_tensor(cache),
            deltas_view(self.rope_deltas),
        )
    }

    /// All tensors of a request hold what they stand for; the grids are looked at only where
    /// positions are taken anew.
    pub open spec fn request_read(
        self,
        ids: Tensor,
        looks: bool,
        videos: Option<&Tensor>,
        cache: Option<&Tensor>,
    ) -> bool {
        &&& crate::tensor::tensor_dims(ids).len() == 2
        &&& crate::tensor::tensor_element(ids).is_index()
        &&& cache_read(cache)
        &&& looks ==> crate::tensor::holds_u32(ids, 2)
        &&& starts_prompt(cache_of_tensor(cache), deltas_view(self.rope_deltas))
            ==> crate::picture_grids::videos_read(videos)
    }

    /// Plans a request.
    ///
    /// `image_features` and `video_features` are the numbers of rows that images and videos
    /// were encoded to; they count where the grid is given too.
    #[verifier::rlimit(60)]
    pub fn forward(
        &mut self,
        input_ids: &Tensor,
        image_features: Option<usize>,
        image_grid_thw: Option<&Tensor>,
        video_features: Option<usize>,
        video_grid_thw: Option<&Tensor>,
        cache_position: Option<&Tensor>,
        seqlen_offset: usize,
    ) -> (r: Result<ForwardPlan, ModelError>)
        requires
            old(self).wf(),
        ensures
            final(self).wf(),
            final(self).same_parts(*old(self)),
            ({
                let dims = crate::tensor::tensor_dims(*input_ids);
                let starts = starts_prompt(
                    cache_of_tensor(cache_position),
                    deltas_view(old(self).rope_deltas),
                );
                let looks = old(self).looks(
                    image_features,
                    image_grid_thw,
                    video_features,
                    video_grid_thw,
                    cache_position,
                );
                let want = old(self).outcome(
                    seen_ids(*input_ids, looks),
                    dims[1] as nat,
                    crate::tensor::tensor_element(*input_ids),
                    with_grid(image_features, image_grid_thw),
                    given_images(image_grid_thw),
                    with_grid(video_features, video_grid_thw),
                    given_frames(video_grid_thw),
                    cache_of_tensor(cache_position),
                    seqlen_offset as nat,
                );
                let read = old(self).request_read(
                    *input_ids,
                    looks,
                    video_grid_thw,
                    cache_position,
                );
                match r {
                    Ok(p) => {
                        &&& read
                        &&& want matches Ok(w) && p.does(w, dims[1] as nat) && deltas_view(
                            final(self).rope_deltas,
                        ) == w.deltas
                    },
                    Err(e) => {
                        &&& final(self).rope_deltas == old(self).rope_deltas
                        &&& {
                            ||| dims.len() != 2 && e == ModelError::Rank
                            ||| !crate::tensor::tensor_element(*input_ids).is_index() && e
                                == ModelError::ElementType
                            ||| cache_refused(cache_position, e)
                            ||| looks && crate::tensor::refused(*input_ids, 2, e)
                            ||| starts && crate::picture_grids::images_refused(image_grid_thw, e)
                            ||| starts && crate::picture_grids::videos_refused(video_grid_thw, e)
                            ||| read && (want matches Err(x) && if starts {
                                crate::picture_grids::settled(x, image_grid_thw, video_grid_thw, e)
                            } else {
                                e == x
                            })
                        }
                    },
                }
            }),
    {
        let dims = read_dims(input_ids);
        if dims.len() != 2 {
            return Err(ModelError::Rank);
        }
        let element = read_element(input_ids);
        if !element.looks_up() {
            return Err(ModelError::ElementType);
        }
        let cache = match read_cache_position(cache_position) {
            Ok(c) => c,
            Err(e) => return Err(e),
        };
        let image = if image_grid_thw.is_some() {
            image_features
        } else {
            None
        };
        let video = if video_grid_thw.is_some() {
            video_features
        } else {
            None
        };
        let starts = self.is_prompt_start(cache);
        let pictures = image_grid_thw.is_some() || video_grid_thw.is_some();
        let looks = image.is_some() || video.is_some() || (pictures && starts);
        let ids = if looks {
            match TokenRows::read(input_ids) {
                Ok(ids) => ids,
                Err(e) => return Err(e),
            }
        } else {
            blank_rows(dims[0], dims[1])
        };
        if !starts {
            return self.plan(&ids, element, image, None, video, None, cache, seqlen_offset);
        }
        let grids = match PictureGrids::read(image_grid_thw, video_grid_thw) {
            Ok(g) => g,
            Err(e) => return Err(e),
        };
        let images = if image_grid_thw.is_some() {
            Some(&grids.images)
        } else {
            None
        };
        let frames = if video_grid_thw.is_some() {
            Some(&grids.frames)
        } else {
            None
        };
        match self.plan(&ids, element, image, images, video, frames, cache, seqlen_offset) {
            Ok(p) => Ok(p),
            Err(x) => Err(grids.settle(x, image_grid_thw, video_grid_thw)),
        }
    }

    /// Forgets all cached keys and values.
    pub fn clear_kv_cache(&mut self)
        ensures
            final(self).config == old(self).config,
            final(self).visual == old(self).visual,
            final(self).rope_deltas == old(self).rope_deltas,
            final(self).language_model.head_dim == old(self).language_model.head_dim,
            final(self).language_model.mrope_section == old(self).language_model.mrope_section,
            final(self).language_model.layers@ == Seq::new(
                old(self).language_model.layers@.len(),
                |i: int| None::<(Tensor, Tensor)>,
            ),
    {
        self.language_model.clear_kv_cache();
    }

    /// The cached keys and values of each layer.
    pub fn get_kv_cache(&self) -> (r: Vec<Option<(Tensor, Tensor)>>)
        ensures
            r@ == self.language_model.layers@,
    {
        self.language_model.get_kv_cache()
    }

    /// Replaces the cached keys and values, layer by layer, as far as `cache` goes.
    pub fn set_kv_cache(&mut self, cache: Vec<Option<(Tensor, Tensor)>>)
        ensures
            final(self).config == old(self).config,
            final(self).visual == old(self).visual,
            final(self).rope_deltas == old(self).rope_deltas,
            final(self).language_model.head_dim == old(self).language_model.head_dim,
            final(self).language_model.mrope_section == old(self).language_model.mrope_section,
            final(self).language_model.layers@ == crate::text::restored(
                old(self).language_model.layers@,
                cache@,
            ),
    {
        self.language_model.set_kv_cache(cache);
    }
}

/// A new prompt does not depend on the one before.
pub proof fn a_prompt_starts_afresh(
    layout: PromptLayout,
    before: Option<DeltasView>,
    other: Option<DeltasView>,
    ids: Seq<Seq<u32>>,
    width: nat,
    element: Element,
    image: Option<usize>,
    images: Option<Seq<Thw>>,
    video: Option<usize>,
    frames: Option<Seq<Thw>>,
    offset: nat,
)
    ensures
        outcome(layout, before, ids, width, element, image, images, video, frames, Some(0u32), offset)
            == outcome(layout, other, ids, width, element, image, images, video, frames, Some(0u32), offset),
{
}

/// Plain text is not looked at: without pictures, and within a prompt also beside their grids,
/// only the number of tokens counts.
pub proof fn unseen_tokens_do_not_matter(
    layout: PromptLayout,
    deltas: Option<DeltasView>,
    ids: Seq<Seq<u32>>,
    other: Seq<Seq<u32>>,
    width: nat,
    element: Element,
    images: Option<Seq<Thw>>,
    frames: Option<Seq<Thw>>,
    cache: Option<u32>,
    offset: nat,
)
    requires
        ids.len() == other.len(),
        (images is None && frames is None) || !starts_prompt(cache, deltas),
    ensures
        outcome(layout, deltas, ids, width, element, None, images, None, frames, cache, offset)
            == outcome(
            layout,
            deltas,
            other,
            width,
            element,
            None,
            images,
            None,
            frames,
            cache,
            offset,
        ),
{
}

/// Within a prompt the grids no longer matter: positions go on from the stored differences,
/// and these stay as they are.
pub proof fn decoding_keeps_the_differences(
    layout: PromptLayout,
    deltas: DeltasView,
    ids: Seq<Seq<u32>>,
    width: nat,
    element: Element,
    image: Option<usize>,
    images: Option<Seq<Thw>>,
    other_images: Option<Seq<Thw>>,
    video: Option<usize>,
    frames: Option<Seq<Thw>>,
    other_frames: Option<Seq<Thw>>,
    cache: u32,
    offset: nat,
)
    requires
        cache > 0,
    ensures
        outcome(layout, Some(deltas), ids, width, element, image, images, video, frames, Some(cache), offset)
            == outcome(
            layout,
            Some(deltas),
            ids,
            width,
            element,
            image,
            other_images,
            video,
            other_frames,
            Some(cache),
            offset,
        ),
        outcome(
            layout,
            Some(deltas),
            ids,
            width,
            element,
            image,
            images,
            video,
            frames,
            Some(cache),
            offset,
        ) matches Ok(w) ==> w.deltas == Some(deltas),
{
}

/// A step of decoding follows its prompt: the token `k` places after a prompt of `width`
/// tokens sits `k` positions above the first one that the prompt left free, on all three
/// axes, and the differences stay for the next step.
pub proof fn a_step_follows_the_prompt(
    layout: PromptLayout,
    before: Option<DeltasView>,
    ids: Seq<Seq<u32>>,
    width: nat,
    element: Element,
    image: Option<usize>,
    images: Option<Seq<Thw>>,
    video: Option<usize>,
    frames: Option<Seq<Thw>>,
    offset: nat,
    step: Seq<Seq<u32>>,
    k: nat,
    step_offset: nat,
) -> (next: nat)
    requires
        element == Element::U32 || element == Element::I64,
        ids.len() == 1,
        ids[0].len() == width,
        outcome(layout, before, ids, width, element, image, images, video, frames, Some(0u32), offset) is Ok,
        step.len() == 1,
        step[0].len() == 1,
        width + k <= u32::MAX,
        step_offset + 1 <= usize::MAX,
    ensures
        ({
            let w = outcome(
                layout,
                before,
                ids,
                width,
                element,
                image,
                images,
                video,
                frames,
                Some(0u32),
                offset,
            )->Ok_0;
            let p = (next + k) as nat;
            let after = outcome(
                layout,
                w.deltas,
                step,
                1,
                element,
                None,
                images,
                None,
                frames,
                Some((width + k) as u32),
                step_offset,
            );
            &&& w.positions.len() == 1
            &&& crate::rope::tops(w.positions[0], next)
            &&& after matches Ok(a) && a.positions == seq![seq![(p, p, p)]] && a.deltas == w.deltas
        }),
{
    let w = outcome(layout, before, ids, width, element, image, images, video, frames, Some(0u32), offset)->Ok_0;
    let x = first_positions(layout, ids, width, element, images, frames)->Ok_0;
    assert(1 * 1 == 1nat);
    if images is Some || frames is Some {
        let g = crate::positions::or_empty(images);
        let f = crate::positions::or_empty(frames);
        reveal_with_fuel(crate::positions::place_batch, 2);
        let placed = crate::rope::place_row(layout, g, f, ids[0], width, (0, 0))->Ok_0;
        assert(x.rows =~= seq![placed.columns]);
        assert(x.deltas =~= seq![placed.next - width]);
        crate::decode::decoding_continues_the_prompt(Element::I64, layout, g, f, ids[0], (0, 0), k);
        crate::rope::place_row_inv(layout, g, f, ids[0], width, (0, 0));
        placed.next
    } else {
        let run = crate::rope::text_run(0, width);
        assert(x.rows =~= seq![run]);
        assert(x.deltas =~= seq![0int]);
        let plain = PromptLayout { vision_start: 0, merge: 1, ..layout };
        let text = Seq::new(width, |i: int| 1u32);
        crate::rope::text_is_numbered(plain, Seq::empty(), Seq::empty(), text, width, (0, 0));
        crate::decode::decoding_continues_the_prompt(
            element,
            plain,
            Seq::empty(),
            Seq::empty(),
            text,
            (0, 0),
            k,
        );
        assert(run[width - 1] == ((width - 1) as nat, (width - 1) as nat, (width - 1) as nat));
        width
    }
}

/// A request that is accepted has a visual token for every row of features, and no other:
/// the passes of the language model use up all features.
pub proof fn every_feature_has_its_token(
    layout: PromptLayout,
    deltas: Option<DeltasView>,
    ids: Seq<Seq<u32>>,
    width: nat,
    element: Element,
    image: Option<usize>,
    images: Option<Seq<Thw>>,
    video: Option<usize>,
    frames: Option<Seq<Thw>>,
    cache: Option<u32>,
    offset: nat,
)
    requires
        layout.image_token != layout.video_token,
        forall|i: int| 0 <= i < ids.len() ==> (#[trigger] ids[i]).len() == width,
        image is Some || video is Some,
        outcome(layout, deltas, ids, width, element, image, images, video, frames, cache, offset) is Ok,
    ensures
        ({
            let w = outcome(
                layout,
                deltas,
                ids,
                width,
                element,
                image,
                images,
                video,
                frames,
                cache,
                offset,
            )->Ok_0;
            let rows = |f: Option<usize>|
                match f {
                    Some(n) => n as int,
                    None => 0,
                };
            &&& w.visual is Some
            &&& crate::marks::count_columns(w.visual->0.marks, 0, width as int) == rows(image)
                + rows(video)
        }),
{
    if image is Some && video is Some {
        let i = crate::marks::marks_of(ids, layout.image_token);
        let v = crate::marks::marks_of(ids, layout.video_token);
        let both = crate::visual::either(i[0], v[0]);
        assert(ids[0].len() == width);
        assert(i.drop_last() =~= Seq::empty());
        assert(v.drop_last() =~= Seq::empty());
        assert(seq![both].drop_last() =~= Seq::empty());
        reveal_with_fuel(crate::marks::count_columns, 2);
        assert(i[0].subrange(0, width as int) =~= i[0]);
        assert(v[0].subrange(0, width as int) =~= v[0]);
        assert(both.subrange(0, width as int) =~= both);
        crate::visual::joint_rows_add_up(i[0], v[0]);
    }
}

/// A model that has not seen a prompt takes positions anew, whatever the cache position; one
/// that has seen a prompt asks for it.
pub proof fn a_first_request_starts_a_prompt(
    layout: PromptLayout,
    before: DeltasView,
    ids: Seq<Seq<u32>>,
    width: nat,
    element: Element,
    image: Option<usize>,
    images: Option<Seq<Thw>>,
    video: Option<usize>,
    frames: Option<Seq<Thw>>,
    cache: Option<u32>,
    offset: nat,
)
    ensures
        outcome(layout, None, ids, width, element, image, images, video, frames, cache, offset)
            == outcome(
            layout,
            Some(before),
            ids,
            width,
            element,
            image,
            images,
            video,
            frames,
            Some(0u32),
            offset,
        ),
        ids.len() * width <= usize::MAX && 0 < width <= u32::MAX && offset + width <= usize::MAX
            ==> outcome(
            layout,
            Some(before),
            ids,
            width,
            element,
            None,
            images,
            None,
            frames,
            None,
            offset,
        ) == Err::<ForwardView, ModelError>(ModelError::NoCachePosition),
{
}

/// A text is always accepted, as long as its sizes can be counted: its tokens are numbered from
/// zero, nothing is visual, and later tokens go on without a difference.
pub proof fn texts_are_accepted(
    layout: PromptLayout,
    before: Option<DeltasView>,
    ids: Seq<Seq<u32>>,
    width: nat,
    element: Element,
    offset: nat,
    i: int,
    j: int,
)
    requires
        ids.len() * width <= usize::MAX,
        0 < width <= u32::MAX,
        offset + width <= usize::MAX,
        0 <= i < ids.len(),
        0 <= j < width,
    ensures
        outcome(layout, before, ids, width, element, None, None, None, None, Some(0u32), offset) matches Ok(
            w,
        ) && {
            &&& w.image_marks is None
            &&& w.video_marks is None
            &&& w.visual is None
            &&& w.positions.len() == ids.len()
            &&& w.positions[i].len() == width
            &&& w.positions[i][j] == (j as nat, j as nat, j as nat)
            &&& w.deltas matches Some(d) && {
                &&& d.values == Seq::new(ids.len(), |k: int| 0int)
                &&& d.height == ids.len()
                &&& d.width == 1
                &&& d.element == element
            }
            &&& w.passes == crate::prefill::passes(width, offset, None)
        },
{
}

/// A prompt with pictures is accepted where its tokens are as many as its features, its
/// pictures can be placed, and images and videos do not meet in a batch of several prompts. Its
/// positions and differences are those of the placed pictures, and its passes carry the visual
/// tokens.
pub proof fn pictures_are_accepted(
    layout: PromptLayout,
    before: Option<DeltasView>,
    ids: Seq<Seq<u32>>,
    width: nat,
    element: Element,
    image: Option<usize>,
    images: Option<Seq<Thw>>,
    video: Option<usize>,
    frames: Option<Seq<Thw>>,
    offset: nat,
)
    requires
        ids.len() * width <= usize::MAX,
        0 < width <= u32::MAX,
        offset + width <= usize::MAX,
        images is Some || frames is Some,
        image matches Some(n) ==> n == crate::marks::count_columns(
            crate::marks::marks_of(ids, layout.image_token),
            0,
            width as int,
        ),
        video matches Some(n) ==> n == crate::marks::count_columns(
            crate::marks::marks_of(ids, layout.video_token),
            0,
            width as int,
        ),
        image is None || video is None || ids.len() == 1,
        crate::positions::place_batch(
            layout,
            crate::positions::or_empty(images),
            crate::positions::or_empty(frames),
            ids,
            None,
            width,
            ids.len(),
        ) is Ok,
    ensures
        ({
            let b = crate::positions::place_batch(
                layout,
                crate::positions::or_empty(images),
                crate::positions::or_empty(frames),
                ids,
                None,
                width,
                ids.len(),
            )->Ok_0;
            outcome(
                layout,
                before,
                ids,
                width,
                element,
                image,
                images,
                video,
                frames,
                Some(0u32),
                offset,
            ) matches Ok(w) && {
                &&& w.positions == b.rows
                &&& w.deltas matches Some(d) && {
                    &&& d.values == b.deltas
                    &&& d.height == 1
                    &&& d.width == ids.len()
                    &&& d.element == Element::I64
                }
                &&& crate::visual::merged(w.image_marks, w.video_marks) == Ok::<
                    Option<VisualView>,
                    ModelError,
                >(w.visual)
                &&& w.visual is None ==> w.passes == crate::prefill::passes(width, offset, None)
                &&& w.visual matches Some(v) ==> w.passes == crate::prefill::passes(
                    width,
                    offset,
                    Some(v.marks),
                )
            }
        }),
{
}

/// In a request that is accepted, features take the place of the tokens of their kind and of no
/// other: token `j` of prompt `i` is marked just where it is such a token.
pub proof fn features_take_the_place_of_their_tokens(
    layout: PromptLayout,
    deltas: Option<DeltasView>,
    ids: Seq<Seq<u32>>,
    width: nat,
    element: Element,
    image: Option<usize>,
    images: Option<Seq<Thw>>,
    video: Option<usize>,
    frames: Option<Seq<Thw>>,
    cache: Option<u32>,
    offset: nat,
    i: int,
    j: int,
)
    requires
        outcome(layout, deltas, ids, width, element, image, images, video, frames, cache, offset) is Ok,
        0 <= i < ids.len(),
        0 <= j < ids[i].len(),
    ensures
        ({
            let w = outcome(
                layout,
                deltas,
                ids,
                width,
                element,
                image,
                images,
                video,
                frames,
                cache,
                offset,
            )->Ok_0;
            &&& w.image_marks is Some <==> image is Some
            &&& w.video_marks is Some <==> video is Some
            &&& w.image_marks matches Some(m) ==> m.len() == ids.len() && m[i].len() == ids[i].len()
                && (m[i][j] <==> ids[i][j] == layout.image_token)
            &&& w.video_marks matches Some(m) ==> m.len() == ids.len() && m[i].len() == ids[i].len()
                && (m[i][j] <==> ids[i][j] == layout.video_token)
            &&& image is None && video is None ==> w.visual is None
        }),
{
}

/// A request whose tokens and features differ in number is refused, and told both numbers.
pub proof fn miscounted_features_are_refused(
    layout: PromptLayout,
    deltas: Option<DeltasView>,
    ids: Seq<Seq<u32>>,
    width: nat,
    element: Element,
    features: usize,
    images: Option<Seq<Thw>>,
    frames: Option<Seq<Thw>>,
    cache: Option<u32>,
    offset: nat,
)
    requires
        ids.len() * width <= usize::MAX,
        width <= u32::MAX,
        offset + width <= usize::MAX,
        forall|i: int| 0 <= i < ids.len() ==> (#[trigger] ids[i]).len() == width,
    ensures
        ({
            let image = crate::marks::count_columns(
                crate::marks::marks_of(ids, layout.image_token),
                0,
                width as int,
            );
            let video = crate::marks::count_columns(
                crate::marks::marks_of(ids, layout.video_token),
                0,
                width as int,
            );
            let with = |i: Option<usize>, v: Option<usize>|
                outcome(layout, deltas, ids, width, element, i, images, v, frames, cache, offset);
            &&& image != features ==> with(Some(features), None) == Err::<ForwardView, ModelError>(
                ModelError::TokenCount { tokens: image as usize, features },
            ) && image <= usize::MAX
            &&& video != features ==> with(None, Some(features)) == Err::<ForwardView, ModelError>(
                ModelError::TokenCount { tokens: video as usize, features },
            ) && video <= usize::MAX
        }),
{
    let a = crate::marks::marks_of(ids, layout.image_token);
    let b = crate::marks::marks_of(ids, layout.video_token);
    assert forall|k: int| 0 <= k < a.len() implies (#[trigger] a[k]).len() == width by {
        assert(ids[k].len() == width);
    }
    assert forall|k: int| 0 <= k < b.len() implies (#[trigger] b[k]).len() == width by {
        assert(ids[k].len() == width);
    }
    crate::marks::lemma_columns_bound(a, 0, width as int);
    crate::marks::lemma_columns_bound(b, 0, width as int);
}

/// Features count where their grid is given, and not otherwise; ids that are not looked at
/// stand for their number alone.
pub proof fn features_count_with_their_grid(
    features: Option<usize>,
    grid: &Tensor,
    ids: Tensor,
    looks: bool,
    i: int,
    j: int,
)
    requires
        crate::tensor::holds_u32(ids, 2),
        0 <= i < crate::tensor::tensor_dims(ids)[0],
        0 <= j < crate::tensor::tensor_dims(ids)[1],
    ensures
        with_grid(features, Some(grid)) == features,
        with_grid(features, None) is None,
        given_images(None) is None,
        given_frames(None) is None,
        given_images(Some(grid)) == Some(crate::picture_grids::image_list(Some(grid))),
        given_frames(Some(grid)) == Some(crate::picture_grids::frame_list(Some(grid))),
        seen_ids(ids, looks).len() == crate::tensor::tensor_dims(ids)[0],
        seen_ids(ids, looks)[i].len() == crate::tensor::tensor_dims(ids)[1],
        looks ==> seen_ids(ids, looks)[i][j] == crate::tensor::tensor_elements(
            ids,
        )[i * crate::tensor::tensor_dims(ids)[1] + j],
{
    if looks {
        crate::tensor::matrices_read_row_by_row(ids, i, j);
    }
}

/// The token that is scored is the last one of each prompt: it lies in the last pass, and no
/// token follows it.
pub proof fn the_last_token_is_scored(p: ForwardPlan, want: ForwardView, width: nat)
    requires
        p.does(want, width),
    ensures
        p.passes@.len() > 0,
        p.scored < p.passes@.last().take,
        p.passes@.last().start + p.scored == width - 1,
        p.passes@ == want.passes,
        p.positions.cells() == want.positions,
        p.positions.width == width,
        crate::visual::plan_view(p.visual) == want.visual,
        crate::visual::owned_marks(p.image_marks) == want.image_marks,
        crate::visual::owned_marks(p.video_marks) == want.video_marks,
{
}

/// A later request goes on where its cache ends: it is accepted where the tokens can be counted
/// on, its positions are those that were counted, and the differences stay.
pub proof fn later_requests_are_accepted(
    layout: PromptLayout,
    deltas: DeltasView,
    ids: Seq<Seq<u32>>,
    width: nat,
    element: Element,
    images: Option<Seq<Thw>>,
    frames: Option<Seq<Thw>>,
    cache: u32,
    offset: nat,
)
    requires
        ids.len() * width <= usize::MAX,
        0 < width <= u32::MAX,
        offset + width <= usize::MAX,
        cache > 0,
        crate::decode::continued(
            deltas.element,
            cache as nat,
            deltas.values,
            deltas.height,
            deltas.width,
            ids.len(),
            width,
        ) is Ok,
    ensures
        outcome(
            layout,
            Some(deltas),
            ids,
            width,
            element,
            None,
            images,
            None,
            frames,
            Some(cache),
            offset,
        ) matches Ok(w) && {
            &&& w.positions == crate::decode::continued(
                deltas.element,
                cache as nat,
                deltas.values,
                deltas.height,
                deltas.width,
                ids.len(),
                width,
            )->Ok_0
            &&& w.deltas == Some(deltas)
            &&& w.visual is None
            &&& w.passes == crate::prefill::passes(width, offset, None)
        },
{
}

/// The first cached position is the first number of its tensor. Ids are looked at where features
/// or pictures ask for it, and not for plain text.
pub proof fn requests_look_where_they_must(
    m: Qwen3VLModel,
    features: usize,
    grid: &Tensor,
    cache: &Tensor,
)
    requires
        crate::tensor::holds_u32(*cache, 1),
        crate::tensor::tensor_dims(*cache)[0] > 0,
    ensures
        cache_of_tensor(None) is None,
        cache_of_tensor(Some(cache)) matches Some(c) && c == crate::tensor::tensor_elements(
            *cache,
        )[0],
        cache_read(Some(cache)),
        m.looks(Some(features), Some(grid), None, None, Some(cache)),
        m.looks(None, None, Some(features), Some(grid), Some(cache)),
        !m.looks(Some(features), None, Some(features), None, Some(cache)),
        m.looks(None, Some(grid), None, None, Some(cache)) <==> m.rope_deltas is None
            || crate::tensor::tensor_elements(*cache)[0] == 0,
        m.looks(None, None, None, Some(grid), Some(cache)) <==> m.rope_deltas is None
            || crate::tensor::tensor_elements(*cache)[0] == 0,
{
    crate::tensor::vectors_read_in_order(*cache, 0);
}

/// A request changes nothing but the stored differences: a model that keeps these, too, is the
/// model that it was.
pub proof fn requests_change_only_the_differences(before: Qwen3VLModel, after: Qwen3VLModel)
    requires
        after.same_parts(before),
        after.rope_deltas == before.rope_deltas,
    ensures
        after == before,
{
}

/// A cache position that can be read is not refused.
pub proof fn readable_cache_positions_are_not_refused(t: Tensor, e: ModelError)
    requires
        crate::tensor::readable(t),
        crate::tensor::tensor_dims(t).len() == 1,
        crate::tensor::vector_of(t).len() > 0,
    ensures
        !cache_refused(Some(&t), e),
        !cache_refused(None, e),
{
}

/// The differences of a model are shown as it stores them.
pub proof fn stored_differences_are_shown(d: RopeDeltas)
    ensures
        deltas_view(None) is None,
        deltas_view(Some(d)) matches Some(v) && {
            &&& v.values == crate::decode::delta_values(d)
            &&& v.height == d.height
            &&& v.width == d.width
            &&& v.element == d.element
        },
{
}

} // verus!
