//! Position indices of a whole batch, with or without pictures.
use candle_core::Tensor;
use vstd::prelude::*;

use crate::error::ModelError;
use crate::grid::Thw;
use crate::rope::{push_text, PlacedRow, Position, PromptLayout};
use crate::tensor::{make_i64, make_u32, make_u8, Element, Place};
use crate::tokens::{select_marked, sum_row, TokenRows};

verus! {

/// Positions of a batch: one row of columns per prompt, all of the same width.
pub struct PositionIds {
    pub rows: Vec<Vec<Position>>,
    pub width: usize,
}

impl PositionIds {
    /// The coordinates, row by row.
    pub open spec fn cells(self) -> Seq<Seq<(nat, nat, nat)>> {
        self.rows@.map_values(|r: Vec<Position>| crate::rope::coords(r@))
    }
}

impl PositionIds {
    /// Every row is as long as the width says.
    pub open spec fn wf(self) -> bool {
        forall|i: int| 0 <= i < self.cells().len() ==> (#[trigger] self.cells()[i]).len() == self.width
    }
}

/// How far the positions of each prompt run ahead of its token count, as a matrix of
/// `height` rows and `width` columns.
pub struct RopeDeltas {
    pub values: Vec<i64>,
    pub height: usize,
    pub width: usize,
    /// The type that the differences are kept in.
    pub element: Element,
}

/// The type of an element can hold a difference.
pub open spec fn can_hold(element: Element, value: int) -> bool {
    match element {
        Element::U8 => 0 <= value <= 0xff,
        Element::U32 => 0 <= value <= 0xffff_ffff,
        Element::I16 => -0x8000 <= value <= 0x7fff,
        Element::I32 => -0x8000_0000 <= value <= 0x7fff_ffff,
        Element::I64 => -0xffff_ffff <= value <= 0xffff_ffff,
        Element::Other => false,
        _ => value == 0,
    }
}

impl RopeDeltas {
    /// There is one value for each cell, and its type can hold it.
    pub open spec fn wf(self) -> bool {
        &&& self.element != Element::Other
        &&& self.values@.len() == self.height * self.width
        &&& forall|i: int|
            0 <= i < self.values@.len() ==> can_hold(self.element, #[trigger] self.values@[i] as int)
    }
}

/// Positions and differences of a batch.
pub struct BatchWalk {
    pub rows: Seq<Seq<(nat, nat, nat)>>,
    pub deltas: Seq<int>,
    pub images: nat,
    pub videos: nat,
}

/// One grid of a single frame for each frame of a video.
pub open spec fn frames(videos: Seq<Thw>) -> Seq<Thw>
    decreases videos.len(),
{
    if videos.len() == 0 {
        Seq::empty()
    } else {
        let v = videos.last();
        frames(videos.drop_last()) + Seq::new(v.t as nat, |i: int| Thw { t: 1, h: v.h, w: v.w })
    }
}

/// There is a video, and every video has a frame.
pub open spec fn has_frames(videos: Seq<Thw>) -> bool {
    videos.len() > 0 && forall|i: int| 0 <= i < videos.len() ==> (#[trigger] videos[i]).t > 0
}

/// The ids of a prompt that are placed: all of them, unless its mask leaves some out.
pub open spec fn placed_ids(ids: Seq<u32>, mask: Option<Seq<u32>>) -> Seq<u32> {
    match mask {
        None => ids,
        Some(m) => if crate::tokens::total(m) == m.len() {
            ids
        } else {
            crate::tokens::keep_marked(ids, m)
        },
    }
}

/// A mask that leaves tokens out keeps one that the prompt does not have.
pub open spec fn mask_misses(len: nat, mask: Option<Seq<u32>>) -> bool {
    match mask {
        None => false,
        Some(m) => crate::tokens::total(m) != m.len() && exists|j: int|
            len <= j < m.len() && #[trigger] m[j] != 0,
    }
}

/// The mask of one prompt.
pub open spec fn mask_row(mask: Option<Seq<Seq<u32>>>, i: int) -> Option<Seq<u32>> {
    match mask {
        None => None,
        Some(m) => Some(m[i]),
    }
}

/// The first `upto` prompts of a batch with pictures. Grids are handed out in order over
/// the whole batch. A prompt that its mask has shortened fills its row only where a picture
/// runs on to the end.
pub open spec fn place_batch(
    layout: PromptLayout,
    images: Seq<Thw>,
    videos: Seq<Thw>,
    ids: Seq<Seq<u32>>,
    mask: Option<Seq<Seq<u32>>>,
    width: nat,
    upto: nat,
) -> Result<BatchWalk, ModelError>
    decreases upto,
{
    if upto == 0 {
        Ok(BatchWalk { rows: Seq::empty(), deltas: Seq::empty(), images: 0, videos: 0 })
    } else {
        match place_batch(layout, images, videos, ids, mask, width, (upto - 1) as nat) {
            Err(e) => Err(e),
            Ok(at) => {
                let kept = placed_ids(ids[upto - 1], mask_row(mask, upto - 1));
                if mask_misses(width, mask_row(mask, upto - 1)) {
                    Err(ModelError::ShapeMismatch)
                } else {
                    match crate::rope::place_row(
                        layout,
                        images,
                        videos,
                        kept,
                        width,
                        (at.images, at.videos),
                    ) {
                        Err(e) => Err(e),
                        Ok(w) => if w.columns.len() != width {
                            Err(ModelError::PaddedRow)
                        } else {
                            Ok(
                                BatchWalk {
                                    rows: at.rows.push(w.columns),
                                    deltas: at.deltas.push(w.next - kept.len()),
                                    images: w.images,
                                    videos: w.videos,
                                },
                            )
                        },
                    }
                }
            },
        }
    }
}

/// One frame grid per frame, for a video grid that has frames.
pub fn split_frames(videos: &Vec<Thw>) -> (r: Result<Vec<Thw>, ModelError>)
    ensures
        match r {
            Ok(f) => has_frames(videos@) && f@ == frames(videos@),
            Err(e) => !has_frames(videos@) && e == ModelError::EmptyVideo,
        },
{
    if videos.len() == 0 {
        return Err(ModelError::EmptyVideo);
    }
    let mut out: Vec<Thw> = Vec::new();
    let mut i: usize = 0;
    while i < videos.len()
        invariant
            i <= videos@.len(),
            out@ == frames(videos@.take(i as int)),
            forall|k: int| 0 <= k < i ==> (#[trigger] videos@[k]).t > 0,
        decreases videos@.len() - i,
    {
        let v = videos[i];
        if v.t == 0 {
            return Err(ModelError::EmptyVideo);
        }
        let ghost before = out@;
        let mut k: u32 = 0;
        assert(before + Seq::new(0nat, |i: int| Thw { t: 1, h: v.h, w: v.w }) =~= before);
        while k < v.t
            invariant
                k <= v.t,
                out@ == before + Seq::new(k as nat, |i: int| Thw { t: 1, h: v.h, w: v.w }),
            decreases v.t - k,
        {
            out.push(Thw { t: 1, h: v.h, w: v.w });
            assert(out@ =~= before + Seq::new((k + 1) as nat, |i: int| Thw { t: 1, h: v.h, w: v.w }));
            k = k + 1;
        }
        assert(videos@.take(i + 1).drop_last() =~= videos@.take(i as int));
        i = i + 1;
    }
    assert(videos@.take(i as int) =~= videos@);
    Ok(out)
}

/// Positions and differences of a batch, however they came about.
pub struct RopeView {
    pub rows: Seq<Seq<(nat, nat, nat)>>,
    pub deltas: Seq<int>,
    pub height: nat,
    pub width: nat,
    pub element: Element,
}

/// Positions and differences of a batch.
pub struct RopeIndex {
    pub positions: PositionIds,
    pub deltas: RopeDeltas,
}

impl RopeIndex {
    /// The positions, row by row, and the differences.
    pub open spec fn placed(self) -> RopeView {
        RopeView {
            rows: self.positions.cells(),
            deltas: self.deltas.values@.map_values(|d: i64| d as int),
            height: self.deltas.height as nat,
            width: self.deltas.width as nat,
            element: self.deltas.element,
        }
    }
}

impl RopeIndex {
    /// The positions form a rectangle and there is a value for each cell of the differences.
    pub open spec fn wf(self) -> bool {
        self.positions.wf() && self.deltas.wf()
    }
}

/// The position that a mask gives to token `j`: padding gets 1, any other token the number
/// of marks up to and including its own, less one.
pub open spec fn mask_position(mask: Seq<u32>, j: int) -> nat {
    if crate::tokens::total(mask) != mask.len() && mask[j] == 0 {
        1
    } else {
        ((crate::tokens::total(mask.take(j + 1)) - 1) % 0x1_0000_0000) as nat
    }
}

/// The positions that a mask gives to one prompt of `width` tokens, the same on all three
/// axes. A mask of one column serves every token.
pub open spec fn mask_columns(mask: Seq<u32>, width: nat) -> Seq<(nat, nat, nat)> {
    Seq::new(
        width,
        |j: int|
            {
                let p = mask_position(
                    mask,
                    if mask.len() == 1 {
                        0
                    } else {
                        j
                    },
                );
                (p, p, p)
            },
    )
}

/// The largest first coordinate.
pub open spec fn peak(columns: Seq<(nat, nat, nat)>) -> nat
    decreases columns.len(),
{
    if columns.len() == 0 {
        0
    } else if columns.last().0 > peak(columns.drop_last()) {
        columns.last().0
    } else {
        peak(columns.drop_last())
    }
}

/// The difference that a mask gives to one prompt, as an unsigned 32-bit number.
pub open spec fn mask_delta(mask: Seq<u32>) -> int {
    (peak(mask_columns(mask, mask.len())) - (mask.len() - 1)) % 0x1_0000_0000
}

/// The mask of prompt `i`: a single row serves every prompt.
pub open spec fn shared_row(mask: Seq<Seq<u32>>, i: int) -> Seq<u32> {
    if mask.len() == 1 {
        mask[0]
    } else {
        mask[i]
    }
}

/// No row of the mask adds up to more than 32 bits hold.
pub open spec fn sums_fit(mask: Seq<Seq<u32>>) -> bool {
    forall|i: int| 0 <= i < mask.len() ==> crate::tokens::total(#[trigger] mask[i]) <= u32::MAX
}

/// An attention mask: its rows and their width.
pub struct MaskView {
    pub rows: Seq<Seq<u32>>,
    pub width: nat,
}

/// What a mask beside pictures is refused for, if anything: it has a row for every prompt.
pub open spec fn picture_mask_fault(mask: MaskView, prompts: nat) -> Option<ModelError> {
    if mask.rows.len() < prompts {
        Some(ModelError::ShapeMismatch)
    } else if mask.width > u32::MAX || !sums_fit(mask.rows.take(prompts as int)) {
        Some(ModelError::Overflow)
    } else {
        None
    }
}

/// What the mask of a text is refused for, if anything: it has a row for each prompt or one
/// for all, and a column for each token or one for all.
pub open spec fn text_mask_fault(mask: MaskView, prompts: nat, width: nat) -> Option<ModelError> {
    if (mask.rows.len() != prompts && mask.rows.len() != 1) || (mask.width != width && mask.width
        != 1) {
        Some(ModelError::ShapeMismatch)
    } else if !sums_fit(mask.rows) {
        Some(ModelError::Overflow)
    } else if prompts == 0 || width == 0 {
        Some(ModelError::EmptyPrompt)
    } else {
        None
    }
}

/// The grids that are given, or none.
pub open spec fn or_empty(grid: Option<Seq<Thw>>) -> Seq<Thw> {
    match grid {
        Some(g) => g,
        None => Seq::empty(),
    }
}

/// The positions of a batch with pictures, whose videos are taken frame by frame.
pub open spec fn pictures_index(
    layout: PromptLayout,
    ids: Seq<Seq<u32>>,
    width: nat,
    images: Seq<Thw>,
    frames: Seq<Thw>,
    mask: Option<MaskView>,
) -> Result<RopeView, ModelError> {
    let fault = match mask {
        None => None,
        Some(m) => picture_mask_fault(m, ids.len()),
    };
    if width > u32::MAX {
        Err(ModelError::Overflow)
    } else if let Some(e) = fault {
        Err(e)
    } else {
        picture_index(
            place_batch(layout, images, frames, ids, mask_rows(mask), width, ids.len()),
            ids.len(),
        )
    }
}

/// The positions of a batch without pictures: a mask counts the tokens that are not padding,
/// and without one tokens are numbered from zero.
pub open spec fn plain_index(
    prompts: nat,
    width: nat,
    mask: Option<MaskView>,
    element: Element,
) -> Result<RopeView, ModelError> {
    if width > u32::MAX {
        Err(ModelError::Overflow)
    } else {
        match mask {
            None => Ok(text_index(prompts, width, element)),
            Some(m) => match text_mask_fault(m, prompts, width) {
                Some(e) => Err(e),
                None => Ok(mask_index(m.rows, prompts, width)),
            },
        }
    }
}

/// The positions of a batch.
///
/// With a picture grid the prompts are walked picture by picture. Without one, the text is
/// counted.
pub open spec fn rope_index(
    layout: PromptLayout,
    ids: Seq<Seq<u32>>,
    width: nat,
    images: Option<Seq<Thw>>,
    videos: Option<Seq<Thw>>,
    mask: Option<MaskView>,
) -> Result<RopeView, ModelError> {
    if videos is Some && !has_frames(or_empty(videos)) {
        Err(ModelError::EmptyVideo)
    } else if images is Some || videos is Some {
        pictures_index(
            layout,
            ids,
            width,
            or_empty(images),
            frames(or_empty(videos)),
            mask,
        )
    } else {
        plain_index(ids.len(), width, mask, Element::U32)
    }
}

/// The positions of a batch with pictures: one signed difference per prompt, in a row.
pub open spec fn picture_index(b: Result<BatchWalk, ModelError>, prompts: nat) -> Result<
    RopeView,
    ModelError,
> {
    match b {
        Err(e) => Err(e),
        Ok(b) => Ok(
            RopeView { rows: b.rows, deltas: b.deltas, height: 1, width: prompts, element: Element::I64 },
        ),
    }
}

/// The positions of a batch of masked text: one unsigned difference per prompt, in a row.
pub open spec fn mask_index(mask: Seq<Seq<u32>>, prompts: nat, width: nat) -> RopeView {
    RopeView {
        rows: Seq::new(prompts, |i: int| mask_columns(shared_row(mask, i), width)),
        deltas: Seq::new(prompts, |i: int| mask_delta(shared_row(mask, i))),
        height: 1,
        width: prompts,
        element: Element::U32,
    }
}

/// The positions of a batch of plain text: nothing runs ahead, in a column of numbers of the
/// tokens' own type.
pub open spec fn text_index(prompts: nat, width: nat, element: Element) -> RopeView {
    RopeView {
        rows: Seq::new(prompts, |i: int| crate::rope::text_run(0, width)),
        deltas: Seq::new(prompts, |i: int| 0),
        height: prompts,
        width: 1,
        element,
    }
}

/// The rows of an optional mask.
pub open spec fn mask_rows(mask: Option<MaskView>) -> Option<Seq<Seq<u32>>> {
    match mask {
        None => None,
        Some(m) => Some(m.rows),
    }
}

/// The rows of an optional mask and their width.
pub open spec fn mask_view(mask: Option<&TokenRows>) -> Option<MaskView> {
    match mask {
        None => None,
        Some(m) => Some(MaskView { rows: m.cells(), width: m.width as nat }),
    }
}

/// Looks among the first `n` rows for one that adds up to more than 32 bits hold.
fn check_sums(mask: &TokenRows, n: usize) -> (r: bool)
    requires
        mask.wf(),
        mask.width <= u32::MAX,
        n <= mask.cells().len(),
    ensures
        r == sums_fit(mask.cells().take(n as int)),
{
    let ghost rows = mask.cells().take(n as int);
    let mut i: usize = 0;
    while i < n
        invariant
            mask.wf(),
            mask.width <= u32::MAX,
            i <= n <= mask.rows@.len(),
            mask.cells().len() == mask.rows@.len(),
            rows == mask.cells().take(n as int),
            forall|k: int| 0 <= k < i ==> crate::tokens::total(#[trigger] rows[k]) <= u32::MAX,
        decreases n - i,
    {
        let row = &mask.rows[i];
        assert(mask.cells()[i as int] =~= row@);
        assert(rows[i as int] == row@);
        if sum_row(row) > u32::MAX as u64 {
            return false;
        }
        i = i + 1;
    }
    true
}

/// Whether a mask that leaves tokens out keeps one past the first `len`.
fn keeps_past(marks: &Vec<u32>, len: usize) -> (r: bool)
    ensures
        r == exists|j: int| len <= j < marks@.len() && #[trigger] marks@[j] != 0,
{
    let mut j: usize = len;
    while j < marks.len()
        invariant
            len <= j,
            forall|k: int| len <= k < j && k < marks@.len() ==> #[trigger] marks@[k] == 0,
        decreases marks@.len() - j,
    {
        if marks[j] != 0 {
            return true;
        }
        j = j + 1;
    }
    false
}

impl PromptLayout {
    /// Places every prompt of a batch with pictures.
    fn place_all(
        &self,
        images: &Vec<Thw>,
        videos: &Vec<Thw>,
        ids: &TokenRows,
        mask: Option<&TokenRows>,
    ) -> (r: Result<RopeIndex, ModelError>)
        requires
            ids.wf(),
            ids.width <= u32::MAX,
            mask matches Some(m) ==> m.wf() && m.width <= u32::MAX && m.cells().len()
                >= ids.cells().len(),
        ensures
            ({
                let want = picture_index(
                    place_batch(
                        *self,
                        images@,
                        videos@,
                        ids.cells(),
                        mask_rows(mask_view(mask)),
                        ids.width as nat,
                        ids.cells().len(),
                    ),
                    ids.cells().len(),
                );
                match r {
                    Ok(x) => x.wf() && x.positions.width == ids.width && want == Ok::<
                        RopeView,
                        ModelError,
                    >(x.placed()),
                    Err(e) => want == Err::<RopeView, ModelError>(e),
                }
            }),
    {
        let ghost rows = mask_rows(mask_view(mask));
        let n: usize = ids.rows.len();
        let mut positions = PositionIds { rows: Vec::new(), width: ids.width };
        let mut values: Vec<i64> = Vec::new();
        let mut used_images: usize = 0;
        let mut used_videos: usize = 0;
        assert(positions.cells() =~= Seq::empty());
        assert(values@.map_values(|d: i64| d as int) =~= Seq::empty());
        let mut i: usize = 0;
        while i < n
            invariant
                ids.wf(),
                ids.width <= u32::MAX,
                n == ids.rows@.len(),
                n == ids.cells().len(),
                mask matches Some(m) ==> m.wf() && m.width <= u32::MAX && m.cells().len()
                    >= ids.cells().len() && rows == Some(m.cells()),
                mask is None ==> rows is None,
                i <= n,
                positions.width == ids.width,
                positions.wf(),
                positions.cells().len() == i,
                values@.len() == i,
                forall|k: int|
                    0 <= k < i ==> -0xffff_ffff <= #[trigger] values@[k] <= 0xffff_ffff,
                used_images <= images@.len(),
                used_videos <= videos@.len(),
                place_batch(*self, images@, videos@, ids.cells(), rows, ids.width as nat, i as nat) == Ok::<
                    BatchWalk,
                    ModelError,
                >(
                    BatchWalk {
                        rows: positions.cells(),
                        deltas: values@.map_values(|d: i64| d as int),
                        images: used_images as nat,
                        videos: used_videos as nat,
                    },
                ),
            decreases n - i,
        {
            proof {
                lemma_batch_err_stays(
                    *self,
                    images@,
                    videos@,
                    ids.cells(),
                    rows,
                    ids.width as nat,
                    (i + 1) as nat,
                    n as nat,
                );
            }
            let row_ids = &ids.rows[i];
            assert(ids.cells()[i as int] =~= row_ids@);
            let ghost want = placed_ids(ids.cells()[i as int], mask_row(rows, i as int));
            let mut shortened: Option<Vec<u32>> = None;
            if let Some(m) = mask {
                let marks = &m.rows[i];
                assert(m.cells()[i as int] =~= marks@);
                if sum_row(marks) != m.width as u64 {
                    if keeps_past(marks, ids.width) {
                        return Err(ModelError::ShapeMismatch);
                    }
                    shortened = Some(select_marked(row_ids, marks));
                }
            }
            let kept: &Vec<u32> = match &shortened {
                Some(v) => v,
                None => row_ids,
            };
            assert(kept@ == want);
            proof {
                lemma_kept_len(ids.cells()[i as int], mask_row(rows, i as int));
                crate::rope::place_row_inv(
                    *self,
                    images@,
                    videos@,
                    want,
                    ids.width as nat,
                    (used_images as nat, used_videos as nat),
                );
            }
            let placed = match self.place(images, videos, kept, ids.width, used_images, used_videos) {
                Ok(p) => p,
                Err(e) => return Err(e),
            };
            if placed.columns.len() != ids.width {
                return Err(ModelError::PaddedRow);
            }
            let delta: i64 = placed.next as i64 - kept.len() as i64;
            let ghost was = positions.cells();
            let ghost was_values = values@;
            let ghost columns = crate::rope::coords(placed.columns@);
            let PlacedRow { columns: placed_columns, next: _, images: im, videos: vi } = placed;
            positions.rows.push(placed_columns);
            assert(positions.cells() =~= was.push(columns));
            values.push(delta);
            assert(values@.map_values(|d: i64| d as int) =~= was_values.map_values(
                |d: i64| d as int,
            ).push(delta as int));
            used_images = im;
            used_videos = vi;
            i = i + 1;
        }
        Ok(
            RopeIndex {
                positions,
                deltas: RopeDeltas { values, height: 1, width: n, element: Element::I64 },
            },
        )
    }
}

proof fn lemma_batch_err_stays(
    layout: PromptLayout,
    images: Seq<Thw>,
    videos: Seq<Thw>,
    ids: Seq<Seq<u32>>,
    mask: Option<Seq<Seq<u32>>>,
    width: nat,
    a: nat,
    b: nat,
)
    requires
        a <= b,
    ensures
        place_batch(layout, images, videos, ids, mask, width, a) matches Err(e) ==> place_batch(
            layout,
            images,
            videos,
            ids,
            mask,
            width,
            b,
        ) == Err::<BatchWalk, ModelError>(e),
    decreases b,
{
    if a < b {
        lemma_batch_err_stays(layout, images, videos, ids, mask, width, a, (b - 1) as nat);
    }
}

proof fn lemma_kept_len(ids: Seq<u32>, mask: Option<Seq<u32>>)
    requires
        !mask_misses(ids.len(), mask),
    ensures
        placed_ids(ids, mask).len() <= ids.len(),
{
    match mask {
        None => {},
        Some(m) => if crate::tokens::total(m) != m.len() {
            crate::tokens::lemma_keep_marked_len(ids, m);
        },
    }
}

/// The positions that a mask gives to one prompt.
fn place_by_mask(mask: &Vec<u32>) -> (r: Vec<Position>)
    requires
        mask@.len() <= u32::MAX,
        crate::tokens::total(mask@) <= u32::MAX,
    ensures
        crate::rope::coords(r@) == mask_columns(mask@, mask@.len()),
{
    let padded = sum_row(mask) != mask.len() as u64;
    let mut out: Vec<Position> = Vec::new();
    let mut sum: u32 = 0;
    let mut j: usize = 0;
    while j < mask.len()
        invariant
            mask@.len() <= u32::MAX,
            crate::tokens::total(mask@) <= u32::MAX,
            padded == (crate::tokens::total(mask@) != mask@.len()),
            j <= mask@.len(),
            sum == crate::tokens::total(mask@.take(j as int)),
            crate::rope::coords(out@) == mask_columns(mask@, mask@.len()).take(j as int),
        decreases mask@.len() - j,
    {
        proof {
            assert(mask@.take(j + 1).drop_last() =~= mask@.take(j as int));
            crate::tokens::lemma_total_prefix(mask@, j + 1);
        }
        sum = sum + mask[j];
        let p: u32 = if padded && mask[j] == 0 {
            1
        } else {
            sum.wrapping_sub(1)
        };
        assert(p == mask_position(mask@, j as int));
        let at = Position { t: p, h: p, w: p };
        let ghost was = out@;
        out.push(at);
        assert(crate::rope::coords(out@) =~= crate::rope::coords(was).push(at@));
        assert(mask_columns(mask@, mask@.len()).take(j + 1) =~= mask_columns(mask@, mask@.len()).take(j as int).push(
            mask_columns(mask@, mask@.len())[j as int],
        ));
        j = j + 1;
    }
    assert(mask_columns(mask@, mask@.len()).take(j as int) =~= mask_columns(mask@, mask@.len()));
    out
}

/// The largest first coordinate.
fn find_peak(columns: &Vec<Position>) -> (r: u32)
    ensures
        r == peak(crate::rope::coords(columns@)),
{
    let ghost all = crate::rope::coords(columns@);
    let mut best: u32 = 0;
    let mut i: usize = 0;
    while i < columns.len()
        invariant
            all == crate::rope::coords(columns@),
            i <= columns@.len(),
            best == peak(all.take(i as int)),
        decreases columns@.len() - i,
    {
        assert(all.take(i + 1).drop_last() =~= all.take(i as int));
        assert(all.take(i + 1).last() == columns@[i as int]@);
        if columns[i].t > best {
            best = columns[i].t;
        }
        i = i + 1;
    }
    assert(all.take(i as int) =~= all);
    best
}

/// Gives every token of a row the position of its only column.
fn spread(at: Position, width: usize) -> (r: Vec<Position>)
    ensures
        crate::rope::coords(r@) == Seq::new(width as nat, |j: int| at@),
{
    let mut out: Vec<Position> = Vec::new();
    let mut j: usize = 0;
    assert(crate::rope::coords(out@) =~= Seq::new(0nat, |j: int| at@));
    while j < width
        invariant
            j <= width,
            crate::rope::coords(out@) == Seq::new(j as nat, |j: int| at@),
        decreases width - j,
    {
        let ghost was = out@;
        out.push(at);
        assert(crate::rope::coords(out@) =~= crate::rope::coords(was).push(at@));
        assert(crate::rope::coords(out@) =~= Seq::new((j + 1) as nat, |j: int| at@));
        j = j + 1;
    }
    out
}

/// The positions of one masked prompt of `width` tokens, and how far they run ahead.
fn place_masked(row: &Vec<u32>, width: usize) -> (r: (Vec<Position>, u32))
    requires
        0 < row@.len() <= u32::MAX,
        row@.len() == width || row@.len() == 1,
        crate::tokens::total(row@) <= u32::MAX,
    ensures
        crate::rope::coords(r.0@) == mask_columns(row@, width as nat),
        r.1 == mask_delta(row@),
{
    let own = place_by_mask(row);
    let top = find_peak(&own);
    let delta: u32 = top.wrapping_sub((row.len() - 1) as u32);
    assert(delta == mask_delta(row@));
    if row.len() == width {
        return (own, delta);
    }
    assert(crate::rope::coords(own@)[0] == own@[0]@);
    let columns = spread(own[0], width);
    assert(crate::rope::coords(columns@) =~= mask_columns(row@, width as nat));
    (columns, delta)
}

/// The positions of a batch of masked text.
fn index_by_mask(mask: &TokenRows, prompts: usize, width: usize) -> (r: RopeIndex)
    requires
        mask.wf(),
        0 < mask.width <= u32::MAX,
        mask.width == width || mask.width == 1,
        mask.cells().len() == prompts || mask.cells().len() == 1,
        sums_fit(mask.cells()),
    ensures
        r.wf(),
        r.placed() == mask_index(mask.cells(), prompts as nat, width as nat),
        r.positions.width == width,
{
    let ghost want = mask_index(mask.cells(), prompts as nat, width as nat);
    let mut positions = PositionIds { rows: Vec::new(), width };
    let mut values: Vec<i64> = Vec::new();
    let mut i: usize = 0;
    while i < prompts
        invariant
            mask.wf(),
            0 < mask.width <= u32::MAX,
            mask.width == width || mask.width == 1,
            mask.cells().len() == prompts || mask.cells().len() == 1,
            mask.cells().len() == mask.rows@.len(),
            sums_fit(mask.cells()),
            want == mask_index(mask.cells(), prompts as nat, width as nat),
            i <= prompts,
            positions.width == width,
            positions.wf(),
            positions.cells() == want.rows.take(i as int),
            values@.len() == i,
            forall|k: int| 0 <= k < i ==> 0 <= #[trigger] values@[k] <= 0xffff_ffff,
            values@.map_values(|d: i64| d as int) == want.deltas.take(i as int),
        decreases prompts - i,
    {
        let k: usize = if mask.rows.len() == 1 {
            0
        } else {
            i
        };
        let row = &mask.rows[k];
        assert(shared_row(mask.cells(), i as int) =~= row@);
        assert(mask.cells()[k as int] == row@);
        let (columns, delta) = place_masked(row, width);
        let ghost was = positions.cells();
        let ghost was_values = values@;
        let ghost added = crate::rope::coords(columns@);
        positions.rows.push(columns);
        assert(positions.cells() =~= was.push(added));
        values.push(delta as i64);
        assert(values@.map_values(|d: i64| d as int) =~= was_values.map_values(
            |d: i64| d as int,
        ).push(delta as int));
        assert(want.rows.take(i + 1) =~= want.rows.take(i as int).push(want.rows[i as int]));
        assert(want.deltas.take(i + 1) =~= want.deltas.take(i as int).push(want.deltas[i as int]));
        i = i + 1;
    }
    assert(want.rows.take(i as int) =~= want.rows);
    assert(want.deltas.take(i as int) =~= want.deltas);
    assert(1 * prompts == prompts);
    RopeIndex {
        positions,
        deltas: RopeDeltas { values, height: 1, width: prompts, element: Element::U32 },
    }
}

/// Text positions for every prompt, from `start` on.
pub fn text_positions(prompts: usize, width: usize, start: u32) -> (r: PositionIds)
    requires
        start + width <= u32::MAX,
    ensures
        r.wf(),
        r.width == width,
        r.cells() == Seq::new(prompts as nat, |i: int| crate::rope::text_run(start as nat, width as nat)),
{
    let mut out = PositionIds { rows: Vec::new(), width };
    let ghost row = crate::rope::text_run(start as nat, width as nat);
    assert(out.cells() =~= Seq::new(0nat, |i: int| row));
    let mut i: usize = 0;
    while i < prompts
        invariant
            start + width <= u32::MAX,
            row == crate::rope::text_run(start as nat, width as nat),
            i <= prompts,
            out.width == width,
            out.wf(),
            out.cells() == Seq::new(i as nat, |i: int| row),
        decreases prompts - i,
    {
        let mut columns: Vec<Position> = Vec::new();
        assert(crate::rope::coords(columns@) + row =~= row);
        push_text(&mut columns, start, width);
        let ghost was = out.cells();
        out.rows.push(columns);
        assert(out.cells() =~= was.push(row));
        assert(out.cells() =~= Seq::new((i + 1) as nat, |i: int| row));
        i = i + 1;
    }
    out
}

/// The positions of a batch of plain text.
fn index_text(prompts: usize, width: usize, element: Element) -> (r: RopeIndex)
    requires
        width <= u32::MAX,
        element != Element::Other,
    ensures
        r.wf(),
        r.placed() == text_index(prompts as nat, width as nat, element),
        r.positions.width == width,
{
    let positions = text_positions(prompts, width, 0);
    let mut values: Vec<i64> = Vec::new();
    let mut i: usize = 0;
    while i < prompts
        invariant
            i <= prompts,
            values@ == Seq::new(i as nat, |k: int| 0i64),
        decreases prompts - i,
    {
        values.push(0);
        assert(values@ =~= Seq::new((i + 1) as nat, |k: int| 0i64));
        i = i + 1;
    }
    assert(values@.map_values(|d: i64| d as int) =~= Seq::new(prompts as nat, |k: int| 0int));
    RopeIndex { positions, deltas: RopeDeltas { values, height: prompts, width: 1, element } }
}

/// The positions of a batch without pictures, for tokens of the given type.
pub fn index_plain(prompts: usize, width: usize, mask: Option<&TokenRows>, element: Element) -> (r:
    Result<RopeIndex, ModelError>)
    requires
        element != Element::Other,
        mask matches Some(m) ==> m.wf(),
    ensures
        ({
            let want = plain_index(prompts as nat, width as nat, mask_view(mask), element);
            match r {
                Ok(x) => x.wf() && x.positions.width == width && want == Ok::<
                    RopeView,
                    ModelError,
                >(x.placed()),
                Err(e) => want == Err::<RopeView, ModelError>(e),
            }
        }),
{
    if width > u32::MAX as usize {
        return Err(ModelError::Overflow);
    }
    match mask {
        None => Ok(index_text(prompts, width, element)),
        Some(m) => {
            if (m.rows.len() != prompts && m.rows.len() != 1) || (m.width != width && m.width != 1) {
                return Err(ModelError::ShapeMismatch);
            }
            assert(m.cells().take(m.rows@.len() as int) =~= m.cells());
            if !check_sums(m, m.rows.len()) {
                return Err(ModelError::Overflow);
            }
            if prompts == 0 || width == 0 {
                return Err(ModelError::EmptyPrompt);
            }
            Ok(index_by_mask(m, prompts, width))
        },
    }
}

/// The grids of an optional grid list.
pub open spec fn grid_view(grid: Option<&Vec<Thw>>) -> Option<Seq<Thw>> {
    match grid {
        None => None,
        Some(g) => Some(g@),
    }
}

impl PromptLayout {
    /// The positions of a batch with pictures, whose videos were taken apart frame by frame.
    pub fn index_pictures(
        &self,
        ids: &TokenRows,
        images: &Vec<Thw>,
        frames: &Vec<Thw>,
        mask: Option<&TokenRows>,
    ) -> (r: Result<RopeIndex, ModelError>)
        requires
            ids.wf(),
            mask matches Some(m) ==> m.wf(),
        ensures
            ({
                let want = pictures_index(
                    *self,
                    ids.cells(),
                    ids.width as nat,
                    images@,
                    frames@,
                    mask_view(mask),
                );
                match r {
                    Ok(x) => x.wf() && x.positions.width == ids.width && want == Ok::<
                        RopeView,
                        ModelError,
                    >(x.placed()),
                    Err(e) => want == Err::<RopeView, ModelError>(e),
                }
            }),
    {
        if ids.width > u32::MAX as usize {
            return Err(ModelError::Overflow);
        }
        let prompts: usize = ids.rows.len();
        if let Some(m) = mask {
            if m.rows.len() < prompts {
                return Err(ModelError::ShapeMismatch);
            }
            if m.width > u32::MAX as usize || !check_sums(m, prompts) {
                return Err(ModelError::Overflow);
            }
        }
        self.place_all(images, frames, ids, mask)
    }

    /// The positions of a batch, and how far they run ahead of the token counts.
    pub fn index(
        &self,
        ids: &TokenRows,
        images: Option<&Vec<Thw>>,
        videos: Option<&Vec<Thw>>,
        mask: Option<&TokenRows>,
    ) -> (r: Result<RopeIndex, ModelError>)
        requires
            ids.wf(),
            mask matches Some(m) ==> m.wf(),
        ensures
            ({
                let want = rope_index(
                    *self,
                    ids.cells(),
                    ids.width as nat,
                    grid_view(images),
                    grid_view(videos),
                    mask_view(mask),
                );
                match r {
                    Ok(x) => x.wf() && x.positions.width == ids.width && want == Ok::<
                        RopeView,
                        ModelError,
                    >(x.placed()),
                    Err(e) => want == Err::<RopeView, ModelError>(e),
                }
            }),
    {
        let mut frame_grids: Vec<Thw> = Vec::new();
        if let Some(v) = videos {
            match split_frames(v) {
                Ok(f) => {
                    frame_grids = f;
                },
                Err(e) => return Err(e),
            }
        }
        if images.is_none() && videos.is_none() {
            return index_plain(ids.rows.len(), ids.width, mask, Element::U32);
        }
        let none: Vec<Thw> = Vec::new();
        let image_grids = match images {
            Some(g) => g,
            None => &none,
        };
        self.index_pictures(ids, image_grids, &frame_grids, mask)
    }
}

/// One axis of a coordinate: time, height, width.
pub open spec fn axis(c: (nat, nat, nat), a: int) -> int {
    if a == 0 {
        c.0 as int
    } else if a == 1 {
        c.1 as int
    } else {
        c.2 as int
    }
}

/// One axis of every position.
pub open spec fn axis_rows(rows: Seq<Seq<(nat, nat, nat)>>, a: int) -> Seq<Seq<int>> {
    rows.map_values(|row: Seq<(nat, nat, nat)>| row.map_values(|c: (nat, nat, nat)| axis(c, a)))
}

/// `t` holds the time positions of every prompt, then the height and the width positions.
pub open spec fn holds_positions(t: Tensor, rows: Seq<Seq<(nat, nat, nat)>>, width: usize) -> bool {
    &&& crate::tensor::tensor_dims(t) == seq![3usize, rows.len() as usize, width]
    &&& crate::tensor::tensor_element(t) == Element::U32
    &&& crate::tensor::tensor_elements(t) == crate::tensor::row_major(axis_rows(rows, 0))
        + crate::tensor::row_major(axis_rows(rows, 1)) + crate::tensor::row_major(
        axis_rows(rows, 2),
    )
}

impl Position {
    fn on_axis(&self, a: u8) -> (r: u32)
        ensures
            r == axis(self@, a as int),
    {
        if a == 0 {
            self.t
        } else if a == 1 {
            self.h
        } else {
            self.w
        }
    }
}

impl PositionIds {
    /// Appends one axis of every position.
    fn push_axis(&self, a: u8, data: &mut Vec<u32>)
        ensures
            final(data)@.map_values(|x: u32| x as int) == old(data)@.map_values(|x: u32| x as int)
                + crate::tensor::row_major(axis_rows(self.cells(), a as int)),
    {
        let ghost want = axis_rows(self.cells(), a as int);
        let ghost first = data@.map_values(|x: u32| x as int);
        assert(first =~= first + crate::tensor::row_major(want.take(0)));
        let mut i: usize = 0;
        while i < self.rows.len()
            invariant
                want == axis_rows(self.cells(), a as int),
                self.cells().len() == self.rows@.len(),
                i <= self.rows@.len(),
                data@.map_values(|x: u32| x as int) == first + crate::tensor::row_major(
                    want.take(i as int),
                ),
            decreases self.rows@.len() - i,
        {
            let row = &self.rows[i];
            let ghost line = want[i as int];
            let ghost before = data@.map_values(|x: u32| x as int);
            assert(before + line.take(0) =~= before);
            assert(line.len() == row@.len());
            let mut j: usize = 0;
            while j < row.len()
                invariant
                    j <= row@.len(),
                    line.len() == row@.len(),
                    forall|k: int|
                        0 <= k < row@.len() ==> #[trigger] line[k] == axis(row@[k]@, a as int),
                    data@.map_values(|x: u32| x as int) == before + line.take(j as int),
                decreases row@.len() - j,
            {
                let x: u32 = row[j].on_axis(a);
                let ghost was = data@;
                data.push(x);
                assert(line[j as int] == x as int);
                assert(data@.map_values(|x: u32| x as int) =~= was.map_values(
                    |x: u32| x as int,
                ).push(x as int));
                assert(data@.map_values(|x: u32| x as int) =~= before + line.take(j + 1));
                j = j + 1;
            }
            assert(line.take(j as int) =~= line);
            assert(want.take(i + 1).drop_last() =~= want.take(i as int));
            assert(first + crate::tensor::row_major(want.take(i as int)) + line =~= first
                + crate::tensor::row_major(want.take(i + 1)));
            i = i + 1;
        }
        assert(want.take(i as int) =~= want);
    }

    /// The positions as a tensor: axis, prompt, token.
    pub fn to_tensor(&self) -> (r: Result<Tensor, ModelError>)
        requires
            self.wf(),
        ensures
            r is Ok,
            holds_positions(r->Ok_0, self.cells(), self.width),
            crate::tensor::tensor_place(r->Ok_0) == Place::Host,
    {
        let mut data: Vec<u32> = Vec::new();
        assert(data@.map_values(|x: u32| x as int) =~= Seq::empty());
        self.push_axis(0, &mut data);
        self.push_axis(1, &mut data);
        self.push_axis(2, &mut data);
        let n: usize = self.rows.len();
        let mut dims: Vec<usize> = Vec::new();
        dims.push(3);
        dims.push(n);
        dims.push(self.width);
        proof {
            let rows = self.cells();
            assert forall|a: int, i: int| 0 <= i < rows.len() implies (#[trigger] axis_rows(
                rows,
                a,
            )[i]).len() == self.width by {
                assert(rows[i].len() == self.width);
            }
            crate::tensor::lemma_row_major_len(axis_rows(rows, 0), self.width as nat);
            crate::tensor::lemma_row_major_len(axis_rows(rows, 1), self.width as nat);
            crate::tensor::lemma_row_major_len(axis_rows(rows, 2), self.width as nat);
            crate::tensor::lemma_volume3(3, n, self.width);
            assert(3 * n * self.width == 3 * (n * self.width)) by (nonlinear_arith);
            assert(data@.map_values(|x: u32| x as int).len() == data.len());
            assert(data@.map_values(|x: u32| x as int) =~= crate::tensor::row_major(
                axis_rows(rows, 0),
            ) + crate::tensor::row_major(axis_rows(rows, 1)) + crate::tensor::row_major(
                axis_rows(rows, 2),
            ));
            assert(dims@ =~= seq![3usize, n, self.width]);
        }
        match make_u32(data, dims) {
            Ok(t) => Ok(t),
            Err(e) => Err(ModelError::Tensor(e)),
        }
    }
}

/// `t` has the shape and the type of the differences and holds them in row-major order.
pub open spec fn holds_deltas(
    t: Tensor,
    deltas: Seq<int>,
    height: nat,
    width: nat,
    element: Element,
) -> bool {
    &&& crate::tensor::tensor_dims(t) == seq![height as usize, width as usize]
    &&& crate::tensor::tensor_element(t) == element
    &&& crate::tensor::tensor_elements(t) == deltas
}

impl RopeDeltas {
    /// The differences as a tensor of their own type.
    pub fn to_tensor(&self) -> (r: Result<Tensor, ModelError>)
        requires
            self.wf(),
            self.element.is_index(),
        ensures
            r is Ok,
            holds_deltas(
                r->Ok_0,
                self.values@.map_values(|d: i64| d as int),
                self.height as nat,
                self.width as nat,
                self.element,
            ),
            crate::tensor::tensor_place(r->Ok_0) == Place::Host,
    {
        let mut dims: Vec<usize> = Vec::new();
        dims.push(self.height);
        dims.push(self.width);
        assert(dims@ =~= seq![self.height, self.width]);
        let n: usize = self.values.len();
        let ghost want = self.values@.map_values(|d: i64| d as int);
        proof {
            crate::tensor::lemma_volume2(self.height, self.width);
        }
        let mut i: usize = 0;
        let made = match self.element {
            Element::U8 => {
                let mut data: Vec<u8> = Vec::new();
                assert(data@.map_values(|x: u8| x as int) =~= want.take(0));
                while i < n
                    invariant
                        self.wf(),
                        self.element == Element::U8,
                        want == self.values@.map_values(|d: i64| d as int),
                        i <= n,
                        n == self.values@.len(),
                        data@.len() == i,
                        data@.map_values(|x: u8| x as int) == want.take(i as int),
                    decreases n - i,
                {
                    let ghost was = data@;
                    assert(can_hold(self.element, self.values@[i as int] as int));
                    let x: u8 = self.values[i] as u8;
                    data.push(x);
                    assert(data@.map_values(|x: u8| x as int) =~= was.map_values(
                        |x: u8| x as int,
                    ).push(x as int));
                    assert(data@.map_values(|x: u8| x as int) =~= want.take(i + 1));
                    i = i + 1;
                }
                assert(want.take(i as int) =~= want);
                make_u8(data, dims)
            },
            Element::U32 => {
                let mut data: Vec<u32> = Vec::new();
                assert(data@.map_values(|x: u32| x as int) =~= want.take(0));
                while i < n
                    invariant
                        self.wf(),
                        self.element == Element::U32,
                        want == self.values@.map_values(|d: i64| d as int),
                        i <= n,
                        n == self.values@.len(),
                        data@.len() == i,
                        data@.map_values(|x: u32| x as int) == want.take(i as int),
                    decreases n - i,
                {
                    let ghost was = data@;
                    assert(can_hold(self.element, self.values@[i as int] as int));
                    let x: u32 = self.values[i] as u32;
                    data.push(x);
                    assert(data@.map_values(|x: u32| x as int) =~= was.map_values(
                        |x: u32| x as int,
                    ).push(x as int));
                    assert(data@.map_values(|x: u32| x as int) =~= want.take(i + 1));
                    i = i + 1;
                }
                assert(want.take(i as int) =~= want);
                make_u32(data, dims)
            },
            _ => {
                let mut data: Vec<i64> = Vec::new();
                while i < n
                    invariant
                        i <= n,
                        n == self.values@.len(),
                        data@ == self.values@.take(i as int),
                    decreases n - i,
                {
                    data.push(self.values[i]);
                    assert(data@ =~= self.values@.take(i + 1));
                    i = i + 1;
                }
                assert(data@ =~= self.values@);
                make_i64(data, dims)
            },
        };
        match made {
            Ok(t) => Ok(t),
            Err(e) => Err(ModelError::Tensor(e)),
        }
    }
}

/// What the positions of a batch always look like: a row of the right width for every prompt
/// and a difference for every prompt. With pictures and no mask a difference is one above the
/// largest coordinate, less the number of tokens, and it is never positive.
pub proof fn index_is_complete(
    layout: PromptLayout,
    ids: Seq<Seq<u32>>,
    width: nat,
    images: Option<Seq<Thw>>,
    videos: Option<Seq<Thw>>,
    mask: Option<MaskView>,
)
    requires
        forall|i: int| 0 <= i < ids.len() ==> (#[trigger] ids[i]).len() == width,
    ensures
        rope_index(layout, ids, width, images, videos, mask) matches Ok(x) ==> {
            &&& x.rows.len() == ids.len()
            &&& x.deltas.len() == ids.len()
            &&& x.height * x.width == ids.len()
            &&& forall|i: int| 0 <= i < ids.len() ==> (#[trigger] x.rows[i]).len() == width
            &&& (images is Some || videos is Some) && mask is None ==> forall|i: int|
                0 <= i < ids.len() ==> #[trigger] x.deltas[i] <= 0 && crate::rope::tops(
                    x.rows[i],
                    (x.deltas[i] + width) as nat,
                )
        },
{
    let n = ids.len();
    assert(1 * n == n && n * 1 == n);
    match rope_index(layout, ids, width, images, videos, mask) {
        Err(e) => {},
        Ok(x) => if images is Some || videos is Some {
            lemma_batch_shape(
                layout,
                or_empty(images),
                frames(or_empty(videos)),
                ids,
                mask_rows(mask),
                width,
                ids.len(),
            );
        },
    }
}

proof fn lemma_batch_shape(
    layout: PromptLayout,
    images: Seq<Thw>,
    videos: Seq<Thw>,
    ids: Seq<Seq<u32>>,
    mask: Option<Seq<Seq<u32>>>,
    width: nat,
    upto: nat,
)
    requires
        upto <= ids.len(),
        forall|i: int| 0 <= i < ids.len() ==> (#[trigger] ids[i]).len() == width,
    ensures
        place_batch(layout, images, videos, ids, mask, width, upto) matches Ok(b) ==> {
            &&& b.rows.len() == upto
            &&& b.deltas.len() == upto
            &&& forall|i: int| 0 <= i < upto ==> (#[trigger] b.rows[i]).len() == width
            &&& mask is None ==> forall|i: int|
                0 <= i < upto ==> #[trigger] b.deltas[i] <= 0 && crate::rope::tops(
                    b.rows[i],
                    (b.deltas[i] + width) as nat,
                )
        },
    decreases upto,
{
    if upto > 0 {
        lemma_batch_shape(layout, images, videos, ids, mask, width, (upto - 1) as nat);
        match place_batch(layout, images, videos, ids, mask, width, (upto - 1) as nat) {
            Err(e) => {},
            Ok(at) => {
                let kept = placed_ids(ids[upto - 1], mask_row(mask, upto - 1));
                assert(ids[upto - 1].len() == width);
                if !mask_misses(width, mask_row(mask, upto - 1)) {
                    lemma_kept_len(ids[upto - 1], mask_row(mask, upto - 1));
                    crate::rope::place_row_inv(
                        layout,
                        images,
                        videos,
                        kept,
                        width,
                        (at.images, at.videos),
                    );
                    if let Ok(b) = place_batch(layout, images, videos, ids, mask, width, upto) {
                        if mask is None {
                            assert(b.deltas[upto - 1] + width == crate::rope::place_row(
                                layout,
                                images,
                                videos,
                                kept,
                                width,
                                (at.images, at.videos),
                            )->Ok_0.next);
                            assert(crate::rope::tops(
                                b.rows[upto - 1],
                                (b.deltas[upto - 1] + width) as nat,
                            ));
                        }
                    }
                }
            },
        }
    }
}

proof fn lemma_ones(mask: Seq<u32>, n: int)
    requires
        0 <= n <= mask.len(),
        forall|j: int| 0 <= j < mask.len() ==> mask[j] == 1,
    ensures
        crate::tokens::total(mask.take(n)) == n,
    decreases n,
{
    if n > 0 {
        lemma_ones(mask, n - 1);
        assert(mask.take(n).drop_last() =~= mask.take(n - 1));
    }
}

proof fn lemma_peak(n: nat)
    ensures
        peak(crate::rope::text_run(0, n)) == if n == 0 {
            0
        } else {
            n - 1
        },
    decreases n,
{
    if n > 0 {
        let run = crate::rope::text_run(0, n);
        lemma_peak((n - 1) as nat);
        assert(run.drop_last() =~= crate::rope::text_run(0, (n - 1) as nat));
    }
}

/// A mask that keeps every token changes nothing: the positions are those of plain text and
/// do not run ahead.
pub proof fn full_mask_is_plain_text(mask: Seq<u32>)
    requires
        0 < mask.len() <= u32::MAX,
        forall|j: int| 0 <= j < mask.len() ==> mask[j] == 1,
    ensures
        mask_columns(mask, mask.len()) == crate::rope::text_run(0, mask.len()),
        mask_delta(mask) == 0,
{
    assert forall|j: int| 0 <= j < mask.len() implies mask_position(mask, j) == j by {
        lemma_ones(mask, j + 1);
        lemma_ones(mask, mask.len() as int);
        assert(mask.take(mask.len() as int) =~= mask);
        assert((j + 1 - 1) % 0x1_0000_0000 == j);
    }
    assert(mask_columns(mask, mask.len()) =~= crate::rope::text_run(0, mask.len()));
    lemma_peak(mask.len());
}

/// A batch of text without pictures gets the same positions whether a grid is given or not.
pub proof fn grids_do_not_move_text(
    layout: PromptLayout,
    ids: Seq<Seq<u32>>,
    width: nat,
    images: Seq<Thw>,
)
    requires
        0 < width <= u32::MAX,
        forall|i: int| 0 <= i < ids.len() ==> (#[trigger] ids[i]).len() == width,
        forall|i: int, j: int|
            0 <= i < ids.len() && 0 <= j < width ==> #[trigger] ids[i][j] != layout.vision_start,
    ensures
        rope_index(layout, ids, width, Some(images), None, None) matches Ok(x) && x.rows
            == text_index(ids.len(), width, Element::U32).rows && x.deltas == text_index(
            ids.len(),
            width,
            Element::U32,
        ).deltas,
{
    lemma_text_batch(layout, images, frames(Seq::empty()), ids, width, ids.len());
    let x = rope_index(layout, ids, width, Some(images), None, None)->Ok_0;
    assert(x.rows =~= text_index(ids.len(), width, Element::U32).rows);
    assert(x.deltas =~= text_index(ids.len(), width, Element::U32).deltas);
}

proof fn lemma_text_batch(
    layout: PromptLayout,
    images: Seq<Thw>,
    videos: Seq<Thw>,
    ids: Seq<Seq<u32>>,
    width: nat,
    upto: nat,
)
    requires
        width > 0,
        upto <= ids.len(),
        forall|i: int| 0 <= i < ids.len() ==> (#[trigger] ids[i]).len() == width,
        forall|i: int, j: int|
            0 <= i < ids.len() && 0 <= j < width ==> #[trigger] ids[i][j] != layout.vision_start,
    ensures
        place_batch(layout, images, videos, ids, None, width, upto) == Ok::<BatchWalk, ModelError>(
            BatchWalk {
                rows: Seq::new(upto, |i: int| crate::rope::text_run(0, width)),
                deltas: Seq::new(upto, |i: int| 0int),
                images: 0,
                videos: 0,
            },
        ),
    decreases upto,
{
    let rows = Seq::new(upto, |i: int| crate::rope::text_run(0, width));
    let deltas = Seq::new(upto, |i: int| 0int);
    if upto == 0 {
        assert(rows =~= Seq::empty());
        assert(deltas =~= Seq::empty());
    } else {
        lemma_text_batch(layout, images, videos, ids, width, (upto - 1) as nat);
        crate::rope::text_is_numbered(layout, images, videos, ids[upto - 1], width, (0, 0));
        assert(rows =~= Seq::new((upto - 1) as nat, |i: int| crate::rope::text_run(0, width)).push(
            crate::rope::text_run(0, width),
        ));
        assert(deltas =~= Seq::new((upto - 1) as nat, |i: int| 0int).push(0int));
    }
}

proof fn lemma_frames_add(videos: Seq<Thw>, i: int)
    requires
        0 <= i < frames(videos).len(),
    ensures
        frames(videos)[i].t == 1,
    decreases videos.len(),
{
    let rest = frames(videos.drop_last());
    if i < rest.len() {
        lemma_frames_add(videos.drop_last(), i);
    }
}

/// Every frame of a video is placed as a picture of its own.
pub proof fn frames_are_single(videos: Seq<Thw>)
    ensures
        forall|i: int| 0 <= i < frames(videos).len() ==> (#[trigger] frames(videos)[i]).t == 1,
{
    assert forall|i: int| 0 <= i < frames(videos).len() implies (#[trigger] frames(videos)[i]).t
        == 1 by {
        lemma_frames_add(videos, i);
    }
}

proof fn lemma_ones_batch(
    layout: PromptLayout,
    images: Seq<Thw>,
    videos: Seq<Thw>,
    ids: Seq<Seq<u32>>,
    mask: Seq<Seq<u32>>,
    width: nat,
    upto: nat,
)
    requires
        upto <= mask.len(),
        forall|i: int, j: int| 0 <= i < mask.len() && 0 <= j < mask[i].len() ==> mask[i][j] == 1,
    ensures
        place_batch(layout, images, videos, ids, Some(mask), width, upto) == place_batch(
            layout,
            images,
            videos,
            ids,
            None,
            width,
            upto,
        ),
    decreases upto,
{
    if upto > 0 {
        lemma_ones_batch(layout, images, videos, ids, mask, width, (upto - 1) as nat);
        let m = mask[upto - 1];
        lemma_ones(m, m.len() as int);
        assert(m.take(m.len() as int) =~= m);
    }
}

/// Beside pictures, too, a mask that keeps every token changes nothing, whatever its width.
pub proof fn full_mask_leaves_pictures(
    layout: PromptLayout,
    ids: Seq<Seq<u32>>,
    width: nat,
    images: Seq<Thw>,
    frames: Seq<Thw>,
    mask: MaskView,
)
    requires
        mask.rows.len() >= ids.len(),
        mask.width <= u32::MAX,
        forall|i: int|
            0 <= i < mask.rows.len() ==> (#[trigger] mask.rows[i]).len() == mask.width,
        forall|i: int, j: int|
            0 <= i < mask.rows.len() && 0 <= j < mask.rows[i].len() ==> mask.rows[i][j] == 1,
    ensures
        pictures_index(layout, ids, width, images, frames, Some(mask)) == pictures_index(
            layout,
            ids,
            width,
            images,
            frames,
            None,
        ),
{
    assert forall|i: int| 0 <= i < ids.len() implies crate::tokens::total(
        #[trigger] mask.rows.take(ids.len() as int)[i],
    ) <= u32::MAX by {
        let m = mask.rows[i];
        lemma_ones(m, m.len() as int);
        assert(m.take(m.len() as int) =~= m);
    }
    lemma_ones_batch(layout, images, frames, ids, mask.rows, width, ids.len());
}

/// The prompts of a batch stand alone: where the first ones use up just their own grids, the
/// others are placed as if they came first, with the grids that follow.
pub proof fn prompts_stand_alone(
    layout: PromptLayout,
    images: Seq<Thw>,
    videos: Seq<Thw>,
    ids: Seq<Seq<u32>>,
    next_images: Seq<Thw>,
    next_videos: Seq<Thw>,
    next_ids: Seq<Seq<u32>>,
    width: nat,
)
    requires
        place_batch(layout, images, videos, ids, None, width, ids.len()) matches Ok(b) && b.images
            == images.len() && b.videos == videos.len(),
        place_batch(layout, next_images, next_videos, next_ids, None, width, next_ids.len()) is Ok,
    ensures
        ({
            let first = place_batch(layout, images, videos, ids, None, width, ids.len())->Ok_0;
            let next = place_batch(
                layout,
                next_images,
                next_videos,
                next_ids,
                None,
                width,
                next_ids.len(),
            )->Ok_0;
            place_batch(
                layout,
                images + next_images,
                videos + next_videos,
                ids + next_ids,
                None,
                width,
                ids.len() + next_ids.len(),
            ) == Ok::<BatchWalk, ModelError>(
                BatchWalk {
                    rows: first.rows + next.rows,
                    deltas: first.deltas + next.deltas,
                    images: first.images + next.images,
                    videos: first.videos + next.videos,
                },
            )
        }),
{
    lemma_first_prompts(
        layout,
        images,
        videos,
        ids,
        next_images,
        next_videos,
        next_ids,
        width,
        ids.len(),
    );
    lemma_next_prompts(
        layout,
        images,
        videos,
        ids,
        next_images,
        next_videos,
        next_ids,
        width,
        next_ids.len(),
    );
}

proof fn lemma_first_prompts(
    layout: PromptLayout,
    images: Seq<Thw>,
    videos: Seq<Thw>,
    ids: Seq<Seq<u32>>,
    next_images: Seq<Thw>,
    next_videos: Seq<Thw>,
    next_ids: Seq<Seq<u32>>,
    width: nat,
    upto: nat,
)
    requires
        upto <= ids.len(),
        place_batch(layout, images, videos, ids, None, width, upto) is Ok,
    ensures
        place_batch(
            layout,
            images + next_images,
            videos + next_videos,
            ids + next_ids,
            None,
            width,
            upto,
        ) == place_batch(layout, images, videos, ids, None, width, upto),
    decreases upto,
{
    if upto > 0 {
        let n = (upto - 1) as nat;
        lemma_first_prompts(
            layout,
            images,
            videos,
            ids,
            next_images,
            next_videos,
            next_ids,
            width,
            n,
        );
        let at = place_batch(layout, images, videos, ids, None, width, n)->Ok_0;
        assert((ids + next_ids)[upto - 1] == ids[upto - 1]);
        crate::rope::spare_grids_change_nothing(
            layout,
            images,
            videos,
            next_images,
            next_videos,
            ids[upto - 1],
            width,
            (at.images, at.videos),
        );
    }
}

proof fn lemma_next_prompts(
    layout: PromptLayout,
    images: Seq<Thw>,
    videos: Seq<Thw>,
    ids: Seq<Seq<u32>>,
    next_images: Seq<Thw>,
    next_videos: Seq<Thw>,
    next_ids: Seq<Seq<u32>>,
    width: nat,
    upto: nat,
)
    requires
        upto <= next_ids.len(),
        place_batch(
            layout,
            images + next_images,
            videos + next_videos,
            ids + next_ids,
            None,
            width,
            ids.len(),
        ) matches Ok(b) && b.images == images.len() && b.videos == videos.len(),
        place_batch(layout, next_images, next_videos, next_ids, None, width, upto) is Ok,
    ensures
        ({
            let first = place_batch(
                layout,
                images + next_images,
                videos + next_videos,
                ids + next_ids,
                None,
                width,
                ids.len(),
            )->Ok_0;
            let next = place_batch(
                layout,
                next_images,
                next_videos,
                next_ids,
                None,
                width,
                upto,
            )->Ok_0;
            place_batch(
                layout,
                images + next_images,
                videos + next_videos,
                ids + next_ids,
                None,
                width,
                ids.len() + upto,
            ) == Ok::<BatchWalk, ModelError>(
                BatchWalk {
                    rows: first.rows + next.rows,
                    deltas: first.deltas + next.deltas,
                    images: first.images + next.images,
                    videos: first.videos + next.videos,
                },
            )
        }),
    decreases upto,
{
    let first = place_batch(
        layout,
        images + next_images,
        videos + next_videos,
        ids + next_ids,
        None,
        width,
        ids.len(),
    )->Ok_0;
    if upto == 0 {
        assert(first.rows + Seq::empty() =~= first.rows);
        assert(first.deltas + Seq::empty() =~= first.deltas);
    } else {
        let n = (upto - 1) as nat;
        lemma_next_prompts(
            layout,
            images,
            videos,
            ids,
            next_images,
            next_videos,
            next_ids,
            width,
            n,
        );
        let at = place_batch(layout, next_images, next_videos, next_ids, None, width, n)->Ok_0;
        let next = place_batch(
            layout,
            next_images,
            next_videos,
            next_ids,
            None,
            width,
            upto,
        )->Ok_0;
        let kept = next_ids[upto - 1];
        assert((ids + next_ids)[ids.len() + upto - 1] == kept);
        crate::rope::used_grids_change_nothing(
            layout,
            images,
            videos,
            next_images,
            next_videos,
            kept,
            width,
            (at.images, at.videos),
        );
        let w = crate::rope::place_row(
            layout,
            next_images,
            next_videos,
            kept,
            width,
            (at.images, at.videos),
        )->Ok_0;
        assert((first.rows + at.rows).push(w.columns) =~= first.rows + next.rows);
        assert((first.deltas + at.deltas).push(w.next - kept.len()) =~= first.deltas
            + next.deltas);
        assert((ids.len() + upto - 1) as nat == ids.len() + n);
    }
}

proof fn lemma_frames_len(videos: Seq<Thw>)
    ensures
        frames(videos).len() == crate::grid::frames_up_to(videos, videos.len()),
    decreases videos.len(),
{
    if videos.len() > 0 {
        let head = videos.drop_last();
        lemma_frames_len(head);
        crate::grid::lemma_frames_up_to(videos, head, head.len());
    }
}

/// A video is taken apart into its frames: as many as it has, one behind the other and behind
/// those of the videos before, each a picture of one frame with the video's own height and
/// width.
pub proof fn frames_keep_their_sides(videos: Seq<Thw>, i: int, f: int)
    requires
        0 <= i < videos.len(),
        0 <= f < videos[i].t,
    ensures
        frames(videos).len() == crate::grid::frames_up_to(videos, videos.len()),
        0 <= crate::grid::frames_up_to(videos, i as nat) + f < frames(videos).len(),
        ({
            let frame = frames(videos)[crate::grid::frames_up_to(videos, i as nat) + f];
            frame.t == 1 && frame.h == videos[i].h && frame.w == videos[i].w
        }),
    decreases videos.len(),
{
    let head = videos.drop_last();
    lemma_frames_len(videos);
    lemma_frames_len(head);
    crate::grid::lemma_frames_up_to(videos, head, head.len());
    if i < head.len() {
        frames_keep_their_sides(head, i, f);
        crate::grid::lemma_frames_up_to(videos, head, i as nat);
    }
}

/// In a tensor of positions the time coordinates of all prompts come first, then those of
/// height, then those of width; on each axis prompts follow one another, and in each prompt
/// tokens do.
pub proof fn axes_follow_one_another(
    t: Tensor,
    rows: Seq<Seq<(nat, nat, nat)>>,
    width: usize,
    i: int,
    j: int,
)
    requires
        holds_positions(t, rows, width),
        rows.len() <= usize::MAX,
        forall|k: int| 0 <= k < rows.len() ==> (#[trigger] rows[k]).len() == width,
        0 <= i < rows.len(),
        0 <= j < width,
    ensures
        ({
            let e = crate::tensor::tensor_elements(t);
            let n = rows.len() * width;
            let k = i * width + j;
            &&& crate::tensor::tensor_dims(t).len() == 3
            &&& crate::tensor::tensor_dims(t)[0] == 3
            &&& crate::tensor::tensor_dims(t)[1] == rows.len()
            &&& crate::tensor::tensor_dims(t)[2] == width
            &&& crate::tensor::tensor_element(t) == Element::U32
            &&& e.len() == 3 * n
            &&& 0 <= k < n
            &&& e[k] == rows[i][j].0
            &&& e[n + k] == rows[i][j].1
            &&& e[2 * n + k] == rows[i][j].2
        }),
{
    assert forall|a: int, k: int| 0 <= k < rows.len() implies (#[trigger] axis_rows(
        rows,
        a,
    )[k]).len() == width by {
        assert(rows[k].len() == width);
    }
    crate::tensor::rows_stand_one_behind_the_other(axis_rows(rows, 0), width as nat, i, j);
    crate::tensor::rows_stand_one_behind_the_other(axis_rows(rows, 1), width as nat, i, j);
    crate::tensor::rows_stand_one_behind_the_other(axis_rows(rows, 2), width as nat, i, j);
}

/// The ids that are placed, prompt by prompt.
pub open spec fn placed_batch(ids: Seq<Seq<u32>>, mask: Option<Seq<Seq<u32>>>) -> Seq<Seq<u32>> {
    Seq::new(ids.len(), |k: int| placed_ids(ids[k], mask_row(mask, k)))
}

/// How many pictures of a kind the first `n` prompts of a batch announce.
pub open spec fn pictures_in(layout: PromptLayout, ids: Seq<Seq<u32>>, token: u32, n: nat) -> nat
    decreases n,
{
    if n == 0 {
        0
    } else {
        pictures_in(layout, ids, token, (n - 1) as nat) + crate::rope::pictures_before(
            layout,
            ids[n - 1],
            token,
            ids[n - 1].len(),
        )
    }
}

/// A prompt of a batch is placed with the grids that the prompts before it have left. Its row
/// is filled, and its difference tells how far the first free position is ahead of the tokens
/// that were placed.
pub proof fn prompts_take_the_next_grids(
    layout: PromptLayout,
    images: Seq<Thw>,
    videos: Seq<Thw>,
    ids: Seq<Seq<u32>>,
    mask: Option<Seq<Seq<u32>>>,
    width: nat,
    upto: nat,
    i: int,
)
    requires
        upto <= ids.len(),
        forall|k: int|
            0 <= k < upto ==> (#[trigger] placed_batch(ids, mask)[k]).len() <= width,
        place_batch(layout, images, videos, ids, mask, width, upto) is Ok,
        0 <= i < upto,
    ensures
        ({
            let b = place_batch(layout, images, videos, ids, mask, width, upto)->Ok_0;
            let kept = placed_batch(ids, mask);
            let from = (
                pictures_in(layout, kept, layout.image_token, i as nat),
                pictures_in(layout, kept, layout.video_token, i as nat),
            );
            let w = crate::rope::place_row(layout, images, videos, kept[i], width, from);
            &&& b.rows.len() == upto
            &&& b.deltas.len() == upto
            &&& w is Ok
            &&& b.rows[i] == w->Ok_0.columns
            &&& b.rows[i].len() == width
            &&& b.deltas[i] + kept[i].len() >= 0
            &&& crate::rope::next_free(
                b.rows[i],
                width as int,
                (b.deltas[i] + kept[i].len()) as nat,
            )
        }),
    decreases upto,
{
    lemma_batch_grids(layout, images, videos, ids, mask, width, upto);
    let n = (upto - 1) as nat;
    lemma_batch_grids(layout, images, videos, ids, mask, width, n);
    if i < n {
        prompts_take_the_next_grids(layout, images, videos, ids, mask, width, n, i);
    } else {
        let kept = placed_batch(ids, mask)[i];
        let from = (
            pictures_in(layout, placed_batch(ids, mask), layout.image_token, n),
            pictures_in(layout, placed_batch(ids, mask), layout.video_token, n),
        );
        crate::rope::placed_prompts_say_what_is_left(layout, images, videos, kept, width, from);
    }
}

proof fn lemma_batch_grids(
    layout: PromptLayout,
    images: Seq<Thw>,
    videos: Seq<Thw>,
    ids: Seq<Seq<u32>>,
    mask: Option<Seq<Seq<u32>>>,
    width: nat,
    upto: nat,
)
    requires
        upto <= ids.len(),
        forall|k: int|
            0 <= k < upto ==> (#[trigger] placed_batch(ids, mask)[k]).len() <= width,
        place_batch(layout, images, videos, ids, mask, width, upto) is Ok,
    ensures
        ({
            let b = place_batch(layout, images, videos, ids, mask, width, upto)->Ok_0;
            let kept = placed_batch(ids, mask);
            &&& b.rows.len() == upto
            &&& b.deltas.len() == upto
            &&& b.images == pictures_in(layout, kept, layout.image_token, upto)
            &&& b.videos == pictures_in(layout, kept, layout.video_token, upto)
            &&& upto > 0 ==> place_batch(layout, images, videos, ids, mask, width, (upto - 1) as nat) is Ok
        }),
    decreases upto,
{
    if upto > 0 {
        let n = (upto - 1) as nat;
        lemma_batch_grids(layout, images, videos, ids, mask, width, n);
        let at = place_batch(layout, images, videos, ids, mask, width, n)->Ok_0;
        let kept = placed_batch(ids, mask)[n as int];
        assert(kept.len() <= width);
        crate::rope::placed_prompts_say_what_is_left(
            layout,
            images,
            videos,
            kept,
            width,
            (at.images, at.videos),
        );
    }
}

/// A batch is placed as long as each of its prompts is in order with the grids that are left
/// to it, and fills its row.
pub proof fn batches_in_order_are_placed(
    layout: PromptLayout,
    images: Seq<Thw>,
    videos: Seq<Thw>,
    ids: Seq<Seq<u32>>,
    width: nat,
    upto: nat,
)
    requires
        upto <= ids.len(),
        forall|k: int| 0 <= k < upto ==> (#[trigger] ids[k]).len() == width,
        forall|k: int|
            0 <= k < upto ==> crate::rope::in_order(
                layout,
                images,
                videos,
                #[trigger] ids[k],
                width,
                (
                    pictures_in(layout, ids, layout.image_token, k as nat),
                    pictures_in(layout, ids, layout.video_token, k as nat),
                ),
            ),
    ensures
        place_batch(layout, images, videos, ids, None, width, upto) is Ok,
    decreases upto,
{
    if upto > 0 {
        let n = (upto - 1) as nat;
        batches_in_order_are_placed(layout, images, videos, ids, width, n);
        assert(placed_batch(ids, None) =~= ids);
        lemma_batch_grids(layout, images, videos, ids, None, width, n);
        let at = place_batch(layout, images, videos, ids, None, width, n)->Ok_0;
        assert(ids[n as int].len() == width);
        crate::rope::prompts_in_order_are_placed(
            layout,
            images,
            videos,
            ids[n as int],
            width,
            (at.images, at.videos),
        );
        crate::rope::place_row_inv(
            layout,
            images,
            videos,
            ids[n as int],
            width,
            (at.images, at.videos),
        );
    }
}

/// The positions of a batch with pictures are those of its prompts, and its differences stand
/// in a row of signed numbers, one for each prompt.
pub proof fn picture_batches_keep_their_prompts(
    layout: PromptLayout,
    ids: Seq<Seq<u32>>,
    width: nat,
    images: Seq<Thw>,
    frames: Seq<Thw>,
)
    requires
        width <= u32::MAX,
        place_batch(layout, images, frames, ids, None, width, ids.len()) is Ok,
    ensures
        ({
            let b = place_batch(layout, images, frames, ids, None, width, ids.len())->Ok_0;
            let x = pictures_index(layout, ids, width, images, frames, None);
            &&& x is Ok
            &&& x->Ok_0.rows == b.rows
            &&& x->Ok_0.deltas == b.deltas
            &&& x->Ok_0.height == 1
            &&& x->Ok_0.width == ids.len()
            &&& x->Ok_0.element == Element::I64
        }),
{
}

proof fn lemma_kept_total(mask: Seq<u32>, n: nat)
    requires
        n <= mask.len(),
        forall|j: int| 0 <= j < mask.len() ==> #[trigger] mask[j] <= 1,
    ensures
        crate::tokens::total(mask.take(n as int)) == crate::tokens::kept_before(mask, n),
        crate::tokens::kept_before(mask, n) <= n,
    decreases n,
{
    if n > 0 {
        lemma_kept_total(mask, (n - 1) as nat);
        assert(mask.take(n as int).drop_last() =~= mask.take(n - 1));
        assert(mask[n - 1] <= 1);
    }
}

proof fn lemma_kept_fewer(mask: Seq<u32>, j: int, n: nat)
    requires
        0 <= j < n <= mask.len(),
        mask[j] == 0,
    ensures
        crate::tokens::kept_before(mask, n) < n,
    decreases n,
{
    if j < n - 1 {
        lemma_kept_fewer(mask, j, (n - 1) as nat);
    } else {
        lemma_kept_most(mask, (n - 1) as nat);
    }
}

proof fn lemma_kept_most(mask: Seq<u32>, n: nat)
    requires
        n <= mask.len(),
    ensures
        crate::tokens::kept_before(mask, n) <= n,
    decreases n,
{
    if n > 0 {
        lemma_kept_most(mask, (n - 1) as nat);
    }
}

/// Padding is not counted: a token that the mask keeps sits at the number of kept tokens
/// before it, on all three axes, and padding sits at one.
pub proof fn kept_tokens_are_numbered(mask: Seq<u32>, j: int)
    requires
        mask.len() <= u32::MAX,
        forall|k: int| 0 <= k < mask.len() ==> #[trigger] mask[k] <= 1,
        0 <= j < mask.len(),
    ensures
        ({
            let n = crate::tokens::kept_before(mask, j as nat);
            let p = mask_columns(mask, mask.len())[j];
            &&& mask_columns(mask, mask.len()).len() == mask.len()
            &&& mask[j] == 1 ==> p == (n, n, n)
            &&& mask[j] == 0 ==> p == (1nat, 1nat, 1nat)
        }),
{
    lemma_kept_total(mask, (j + 1) as nat);
    lemma_kept_total(mask, mask.len());
    assert(mask.take(mask.len() as int) =~= mask);
    if mask[j] == 0 {
        lemma_kept_fewer(mask, j, mask.len());
    } else {
        lemma_kept_total(mask, j as nat);
        let n = crate::tokens::kept_before(mask, j as nat) as int;
        assert(mask[j] == 1);
        assert((n + 1 - 1) % 0x1_0000_0000 == n);
    }
    if mask.len() == 1 {
        assert(j == 0);
    }
}

proof fn lemma_peak_is_top(columns: Seq<(nat, nat, nat)>, top: nat)
    requires
        forall|j: int| 0 <= j < columns.len() ==> (#[trigger] columns[j]).0 <= top,
        exists|j: int| 0 <= j < columns.len() && (#[trigger] columns[j]).0 == top,
    ensures
        peak(columns) == top,
    decreases columns.len(),
{
    let head = columns.drop_last();
    let j = choose|j: int| 0 <= j < columns.len() && (#[trigger] columns[j]).0 == top;
    lemma_peak_below(head, top);
    if j < head.len() {
        assert(head[j].0 == top);
        lemma_peak_is_top(head, top);
    }
}

proof fn lemma_peak_below(columns: Seq<(nat, nat, nat)>, top: nat)
    requires
        forall|j: int| 0 <= j < columns.len() ==> (#[trigger] columns[j]).0 <= top,
    ensures
        peak(columns) <= top,
    decreases columns.len(),
{
    if columns.len() > 0 {
        lemma_peak_below(columns.drop_last(), top);
        assert(columns[columns.len() - 1].0 <= top);
    }
}

/// The difference of a masked prompt leads from its tokens to the position above its largest
/// one: counted on from the number of its tokens, it gives that position. It is kept as an
/// unsigned 32-bit number.
pub proof fn masked_prompts_go_on_above(mask: Seq<u32>, top: nat)
    requires
        forall|j: int|
            0 <= j < mask.len() ==> (#[trigger] mask_columns(mask, mask.len())[j]).0 <= top,
        exists|j: int|
            0 <= j < mask.len() && (#[trigger] mask_columns(mask, mask.len())[j]).0 == top,
    ensures
        0 <= mask_delta(mask) < 0x1_0000_0000,
        (mask.len() + mask_delta(mask)) % 0x1_0000_0000 == (top + 1) % 0x1_0000_0000,
{
    lemma_peak_is_top(mask_columns(mask, mask.len()), top);
}

/// A batch of text numbers its tokens from zero where there is no mask, and by the mask where
/// there is one. A mask of a single row serves every prompt, and one of a single column every
/// token.
pub proof fn text_batches_follow_their_mask(
    mask: MaskView,
    prompts: nat,
    width: nat,
    element: Element,
    i: int,
    j: int,
)
    requires
        0 < width <= u32::MAX,
        mask.rows.len() == prompts || mask.rows.len() == 1,
        mask.width == width || mask.width == 1,
        forall|k: int| 0 <= k < mask.rows.len() ==> (#[trigger] mask.rows[k]).len() == mask.width,
        forall|k: int, l: int|
            0 <= k < mask.rows.len() && 0 <= l < mask.width ==> #[trigger] mask.rows[k][l] <= 1,
        0 <= i < prompts,
        0 <= j < width,
    ensures
        ({
            let plain = plain_index(prompts, width, None, element);
            let masked = plain_index(prompts, width, Some(mask), element);
            let row = mask.rows[if mask.rows.len() == 1 {
                0
            } else {
                i
            }];
            let n = crate::tokens::kept_before(row, j as nat);
            &&& plain matches Ok(x) && {
                &&& x.rows.len() == prompts
                &&& x.rows[i].len() == width
                &&& x.rows[i][j] == (j as nat, j as nat, j as nat)
                &&& x.deltas == Seq::new(prompts, |k: int| 0int)
                &&& x.height == prompts
                &&& x.width == 1
                &&& x.element == element
            }
            &&& masked matches Ok(x) && {
                &&& x.rows.len() == prompts
                &&& x.rows[i].len() == width
                &&& mask.width == width && row[j] == 1 ==> x.rows[i][j] == (n, n, n)
                &&& mask.width == width && row[j] == 0 ==> x.rows[i][j] == (1nat, 1nat, 1nat)
                &&& mask.width == 1 && row[0] == 1 ==> x.rows[i][j] == (0nat, 0nat, 0nat)
                &&& mask.width == 1 && row[0] == 0 ==> x.rows[i][j] == (1nat, 1nat, 1nat)
                &&& x.deltas.len() == prompts
                &&& x.deltas[i] == mask_delta(row)
                &&& x.height == 1
                &&& x.width == prompts
                &&& x.element == Element::U32
            }
        }),
{
    let at = if mask.rows.len() == 1 {
        0
    } else {
        i
    };
    let row = mask.rows[at];
    assert(row.len() == mask.width);
    assert forall|k: int| 0 <= k < mask.rows.len() implies crate::tokens::total(
        #[trigger] mask.rows[k],
    ) <= u32::MAX by {
        let m = mask.rows[k];
        assert(m.len() == mask.width);
        assert forall|l: int| 0 <= l < m.len() implies #[trigger] m[l] <= 1 by {
            assert(mask.rows[k][l] <= 1);
        }
        lemma_kept_total(m, m.len());
        assert(m.take(m.len() as int) =~= m);
    }
    assert forall|l: int| 0 <= l < row.len() implies #[trigger] row[l] <= 1 by {
        assert(mask.rows[at][l] <= 1);
    }
    if mask.width == width {
        kept_tokens_are_numbered(row, j);
    }
    if mask.width == 1 {
        kept_tokens_are_numbered(row, 0);
        assert(crate::tokens::kept_before(row, 0) == 0);
    }
}

/// Beside pictures, too, only the tokens that the mask keeps are placed, in their order.
pub proof fn masked_tokens_are_not_placed(ids: Seq<u32>, mask: Seq<u32>, j: int)
    requires
        ids.len() == mask.len(),
        forall|k: int| 0 <= k < mask.len() ==> #[trigger] mask[k] <= 1,
        0 <= j < mask.len(),
        mask[j] == 1,
    ensures
        ({
            let kept = placed_ids(ids, Some(mask));
            let n = crate::tokens::kept_before(mask, j as nat);
            &&& kept.len() == crate::tokens::kept_before(mask, mask.len())
            &&& n < kept.len()
            &&& kept[n as int] == ids[j]
        }),
{
    lemma_kept_total(mask, mask.len());
    assert(mask.take(mask.len() as int) =~= mask);
    crate::tokens::marked_tokens_are_kept(ids, mask, j);
    if crate::tokens::total(mask) == mask.len() {
        lemma_all_kept(mask, mask.len(), j as nat);
    }
}

proof fn lemma_all_kept(mask: Seq<u32>, n: nat, j: nat)
    requires
        j <= n <= mask.len(),
        crate::tokens::kept_before(mask, n) == n,
    ensures
        crate::tokens::kept_before(mask, j) == j,
    decreases n,
{
    if j < n {
        lemma_kept_most(mask, (n - 1) as nat);
        lemma_all_kept(mask, (n - 1) as nat, j);
    }
}

/// Beside pictures a mask is used row by row, one for each prompt, as long as its sums can be
/// counted; further rows do not count.
pub proof fn picture_masks_are_used(
    layout: PromptLayout,
    ids: Seq<Seq<u32>>,
    width: nat,
    images: Seq<Thw>,
    frames: Seq<Thw>,
    mask: MaskView,
)
    requires
        width <= u32::MAX,
        mask.rows.len() >= ids.len(),
        mask.width <= u32::MAX,
        forall|k: int| 0 <= k < mask.rows.len() ==> (#[trigger] mask.rows[k]).len() == mask.width,
        forall|k: int, l: int|
            0 <= k < mask.rows.len() && 0 <= l < mask.width ==> #[trigger] mask.rows[k][l] <= 1,
        place_batch(layout, images, frames, ids, Some(mask.rows), width, ids.len()) is Ok,
    ensures
        ({
            let b = place_batch(layout, images, frames, ids, Some(mask.rows), width, ids.len())->Ok_0;
            pictures_index(layout, ids, width, images, frames, Some(mask)) matches Ok(x) && {
                &&& x.rows == b.rows
                &&& x.deltas == b.deltas
                &&& x.height == 1
                &&& x.width == ids.len()
                &&& x.element == Element::I64
            }
        }),
{
    let first = mask.rows.take(ids.len() as int);
    assert forall|k: int| 0 <= k < first.len() implies crate::tokens::total(#[trigger] first[k])
        <= u32::MAX by {
        let m = mask.rows[k];
        assert(m.len() == mask.width);
        assert forall|l: int| 0 <= l < m.len() implies #[trigger] m[l] <= 1 by {
            assert(mask.rows[k][l] <= 1);
        }
        lemma_kept_total(m, m.len());
        assert(m.take(m.len() as int) =~= m);
    }
}

/// In a tensor of differences prompt `i` finds its own at place `i`, whether they stand in a
/// row or in a column.
pub proof fn differences_stand_by_prompt(t: Tensor, x: RopeView, prompts: usize, i: int)
    requires
        holds_deltas(t, x.deltas, x.height, x.width, x.element),
        (x.height == 1 && x.width == prompts) || (x.height == prompts && x.width == 1),
        0 <= i < prompts,
    ensures
        crate::tensor::tensor_elements(t)[i] == x.deltas[i],
        crate::tensor::tensor_elements(t).len() == x.deltas.len(),
        crate::tensor::tensor_element(t) == x.element,
        crate::tensor::tensor_dims(t).len() == 2,
        crate::tensor::tensor_dims(t)[0] == x.height,
        crate::tensor::tensor_dims(t)[1] == x.width,
{
}

/// Whatever numbers a mask holds, a token sits one below their sum up to its own, modulo 32
/// bits; only padding, a zero in a mask that does not add up to its length, sits at one.
pub proof fn masks_add_up(mask: Seq<u32>, j: int)
    requires
        0 <= j < mask.len(),
    ensures
        ({
            let p = mask_columns(mask, mask.len())[j];
            let padded = crate::tokens::total(mask) != mask.len();
            &&& p.0 == p.1 == p.2
            &&& padded && mask[j] == 0 ==> p.0 == 1
            &&& !padded || mask[j] != 0 ==> p.0 < 0x1_0000_0000 && (p.0 + 1) % 0x1_0000_0000
                == crate::tokens::total(mask.take(j + 1)) % 0x1_0000_0000
        }),
{
    if mask.len() == 1 {
        assert(j == 0);
    }
}

/// A mask that adds up to its length leaves a prompt as it is. Any other one keeps the tokens
/// whose number is not zero, in their order.
pub proof fn masks_leave_zeros_out(ids: Seq<u32>, mask: Seq<u32>, j: int)
    requires
        0 <= j < mask.len(),
        mask[j] != 0,
    ensures
        placed_ids(ids, None) == ids,
        crate::tokens::total(mask) == mask.len() ==> placed_ids(ids, Some(mask)) == ids,
        crate::tokens::total(mask) != mask.len() ==> {
            let kept = placed_ids(ids, Some(mask));
            let n = crate::tokens::kept_before(mask, j as nat);
            &&& kept.len() == crate::tokens::kept_before(mask, mask.len())
            &&& n < kept.len()
            &&& kept[n as int] == ids[j]
        },
{
    crate::tokens::marked_tokens_are_kept(ids, mask, j);
}

/// Positions and differences that a batch was given are those that it stores: token `j` of
/// prompt `i` has its time, its height and its width.
pub proof fn positions_are_stored_as_they_are(x: RopeIndex, i: int, j: int)
    requires
        0 <= i < x.positions.rows@.len(),
        0 <= j < x.positions.rows@[i]@.len(),
    ensures
        ({
            let p = x.positions.rows@[i]@[j];
            let v = x.placed();
            &&& v.rows == x.positions.cells()
            &&& v.rows.len() == x.positions.rows@.len()
            &&& v.rows[i].len() == x.positions.rows@[i]@.len()
            &&& v.rows[i][j] == (p.t as nat, p.h as nat, p.w as nat)
            &&& v.deltas == crate::decode::delta_values(x.deltas)
            &&& v.height == x.deltas.height
            &&& v.width == x.deltas.width
            &&& v.element == x.deltas.element
        }),
{
    assert(x.placed().deltas =~= crate::decode::delta_values(x.deltas));
}

} // verus!
