//! Three-axis rotary positions of a prompt that mixes text and pictures.
use vstd::prelude::*;

use crate::error::ModelError;
use crate::grid::Thw;

verus! {

/// The position of one token on the time, height and width axes.
#[derive(Clone, Copy, Debug, PartialEq, Eq, Structural)]
pub struct Position {
    pub t: u32,
    pub h: u32,
    pub w: u32,
}

impl View for Position {
    type V = (nat, nat, nat);

    open spec fn view(&self) -> (nat, nat, nat) {
        (self.t as nat, self.h as nat, self.w as nat)
    }
}

/// The coordinates of a run of positions.
pub open spec fn coords(run: Seq<Position>) -> Seq<(nat, nat, nat)> {
    run.map_values(|p: Position| p@)
}

/// The special tokens of a prompt and the side of the squares of patches that become one
/// token.
#[derive(Clone, Copy, Debug, PartialEq, Eq, Structural)]
pub struct PromptLayout {
    pub image_token: u32,
    pub video_token: u32,
    pub vision_start: u32,
    pub merge: u32,
}

/// How far a prompt has been placed: the columns so far, the first free position, and how
/// many image and video grids are used up.
pub struct Walk {
    pub columns: Seq<(nat, nat, nat)>,
    pub next: nat,
    pub images: nat,
    pub videos: nat,
}

/// `len` text tokens from position `start`: the three axes advance together.
pub open spec fn text_run(start: nat, len: nat) -> Seq<(nat, nat, nat)> {
    Seq::new(len, |i: int| ((start + i) as nat, (start + i) as nat, (start + i) as nat))
}

/// A picture of `t` frames, `h` rows and `w` columns from position `start`: each axis counts
/// on its own, the column index fastest.
pub open spec fn grid_run(start: nat, t: nat, h: nat, w: nat) -> Seq<(nat, nat, nat)> {
    Seq::new(
        t * h * w,
        |p: int|
            (
                (start + p / (h * w) as int) as nat,
                (start + (p / w as int) % h as int) as nat,
                (start + p % w as int) as nat,
            ),
    )
}

/// The largest of three numbers.
pub open spec fn max3(a: nat, b: nat, c: nat) -> nat {
    let ab = if a >= b {
        a
    } else {
        b
    };
    if ab >= c {
        ab
    } else {
        c
    }
}

/// Places the text before the picture that starts at `anchor`, and the picture itself. The
/// row that the prompt stands in has `room` columns.
pub open spec fn place_picture(
    layout: PromptLayout,
    images: Seq<Thw>,
    videos: Seq<Thw>,
    ids: Seq<u32>,
    room: nat,
    anchor: int,
    at: Walk,
) -> Result<Walk, ModelError> {
    let is_image = ids[anchor] == layout.image_token;
    let is_video = ids[anchor] == layout.video_token;
    if !is_image && !is_video {
        Err(ModelError::UnexpectedVisionToken)
    } else if is_image && at.images >= images.len() {
        Err(ModelError::MissingImageGrid)
    } else if is_video && at.videos >= videos.len() {
        Err(ModelError::MissingVideoGrid)
    } else if layout.merge == 0 {
        Err(ModelError::MergeSize)
    } else {
        let g = if is_video {
            videos[at.videos as int]
        } else {
            images[at.images as int]
        };
        let t = g.t as nat;
        let h = (g.h / layout.merge) as nat;
        let w = (g.w / layout.merge) as nat;
        if anchor < at.columns.len() {
            Err(ModelError::OverlappingVision)
        } else if g.tokens(layout.merge) == 0 {
            Err(ModelError::EmptyGrid)
        } else if anchor + g.tokens(layout.merge) > room {
            Err(ModelError::GridOverrun)
        } else {
            let text = (anchor - at.columns.len()) as nat;
            Ok(
                Walk {
                    columns: at.columns + text_run(at.next, text) + grid_run(
                        at.next + text,
                        t,
                        h,
                        w,
                    ),
                    next: at.next + text + max3(t, h, w),
                    images: if is_image {
                        at.images + 1
                    } else {
                        at.images
                    },
                    videos: if is_video {
                        at.videos + 1
                    } else {
                        at.videos
                    },
                },
            )
        }
    }
}

/// The walk after every picture that starts among the first `upto` tokens.
pub open spec fn walk_to(
    layout: PromptLayout,
    images: Seq<Thw>,
    videos: Seq<Thw>,
    ids: Seq<u32>,
    room: nat,
    from: (nat, nat),
    upto: nat,
) -> Result<Walk, ModelError>
    decreases upto,
{
    if upto == 0 {
        Ok(Walk { columns: Seq::empty(), next: 0, images: from.0, videos: from.1 })
    } else {
        match walk_to(layout, images, videos, ids, room, from, (upto - 1) as nat) {
            Err(e) => Err(e),
            Ok(at) => if ids[upto - 1] == layout.vision_start {
                place_picture(layout, images, videos, ids, room, upto as int, at)
            } else {
                Ok(at)
            },
        }
    }
}

/// The text after the last picture of a prompt; none where the picture runs past its tokens.
pub open spec fn trailing(ids: Seq<u32>, at: Walk) -> nat {
    if at.columns.len() < ids.len() {
        (ids.len() - at.columns.len()) as nat
    } else {
        0
    }
}

/// The whole of one prompt: its pictures in order, then the text after the last of them.
pub open spec fn place_row(
    layout: PromptLayout,
    images: Seq<Thw>,
    videos: Seq<Thw>,
    ids: Seq<u32>,
    room: nat,
    from: (nat, nat),
) -> Result<Walk, ModelError> {
    if ids.len() == 0 {
        Err(ModelError::EmptyPrompt)
    } else if ids.last() == layout.vision_start {
        Err(ModelError::DanglingVisionStart)
    } else {
        match walk_to(layout, images, videos, ids, room, from, ids.len()) {
            Err(e) => Err(e),
            Ok(at) => {
                let text = trailing(ids, at);
                Ok(
                    Walk {
                        columns: at.columns + text_run(at.next, text),
                        next: at.next + text,
                        images: at.images,
                        videos: at.videos,
                    },
                )
            },
        }
    }
}

/// What holds of every walk: it stays inside the prompt, it has never used more positions
/// than columns, every coordinate lies below the first free position, and the position
/// just below that one is in use.
pub open spec fn walk_inv(at: Walk, limit: nat) -> bool {
    &&& at.columns.len() <= limit
    &&& at.next <= at.columns.len()
    &&& forall|k: int|
        0 <= k < at.columns.len() ==> (#[trigger] at.columns[k]).0 < at.next && at.columns[k].1
            < at.next && at.columns[k].2 < at.next
    &&& at.columns.len() > 0 ==> exists|k: int|
        0 <= k < at.columns.len() && ((#[trigger] at.columns[k]).0 + 1 == at.next
            || at.columns[k].1 + 1 == at.next || at.columns[k].2 + 1 == at.next)
}

proof fn lemma_product_bounds(t: nat, h: nat, w: nat)
    requires
        t * h * w > 0,
    ensures
        t > 0,
        h > 0,
        w > 0,
        t <= t * h * w,
        h <= t * h * w,
        w <= t * h * w,
{
    assert(t > 0 && h > 0 && w > 0) by (nonlinear_arith)
        requires
            t * h * w > 0,
    ;
    assert(t <= t * h * w && h <= t * h * w && w <= t * h * w) by (nonlinear_arith)
        requires
            t > 0,
            h > 0,
            w > 0,
    ;
}

/// The coordinates of a picture stay below `start + max3(t, h, w)`.
proof fn lemma_grid_run_range(start: nat, t: nat, h: nat, w: nat, p: int)
    requires
        t > 0,
        h > 0,
        w > 0,
        0 <= p < t * h * w,
    ensures
        start <= grid_run(start, t, h, w)[p].0 < start + t,
        start <= grid_run(start, t, h, w)[p].1 < start + h,
        start <= grid_run(start, t, h, w)[p].2 < start + w,
{
    let hw = (h * w) as int;
    assert(hw > 0) by (nonlinear_arith)
        requires
            h > 0,
            w > 0,
            hw == h * w,
    ;
    assert(p < t * hw) by (nonlinear_arith)
        requires
            p < t * h * w,
            hw == h * w,
    ;
    vstd::arithmetic::div_mod::lemma_div_pos_is_pos(p, hw);
    assert(p / hw < t) by (nonlinear_arith)
        requires
            0 <= p < t * hw,
            hw > 0,
    ;
    vstd::arithmetic::div_mod::lemma_div_pos_is_pos(p, w as int);
    vstd::arithmetic::div_mod::lemma_mod_bound(p / w as int, h as int);
    vstd::arithmetic::div_mod::lemma_mod_bound(p, w as int);
}

/// The last token of a picture sits at the far corner of its grid.
proof fn lemma_grid_run_corner(start: nat, t: nat, h: nat, w: nat)
    requires
        t > 0,
        h > 0,
        w > 0,
    ensures
        t * h * w > 0,
        grid_run(start, t, h, w)[t * h * w - 1] == (
            (start + t - 1) as nat,
            (start + h - 1) as nat,
            (start + w - 1) as nat,
        ),
{
    let hw = (h * w) as int;
    let p = t * h * w - 1;
    assert(t * h * w > 0 && hw > 0) by (nonlinear_arith)
        requires
            t > 0,
            h > 0,
            w > 0,
            hw == h * w,
    ;
    assert(p == (t - 1) * hw + (hw - 1)) by (nonlinear_arith)
        requires
            p == t * h * w - 1,
            hw == h * w,
    ;
    vstd::arithmetic::div_mod::lemma_fundamental_div_mod_converse(p, hw, t - 1, hw - 1);
    assert(p == (t * h - 1) * w + (w - 1)) by (nonlinear_arith)
        requires
            p == t * h * w - 1,
    ;
    vstd::arithmetic::div_mod::lemma_fundamental_div_mod_converse(
        p,
        w as int,
        t * h - 1,
        w - 1,
    );
    assert(t * h - 1 == (t - 1) * h + (h - 1)) by (nonlinear_arith);
    vstd::arithmetic::div_mod::lemma_fundamental_div_mod_converse(
        t * h - 1,
        h as int,
        t - 1,
        h - 1,
    );
}

proof fn lemma_place_picture_inv(
    layout: PromptLayout,
    images: Seq<Thw>,
    videos: Seq<Thw>,
    ids: Seq<u32>,
    room: nat,
    anchor: int,
    at: Walk,
)
    requires
        0 <= anchor <= room,
        walk_inv(at, room),
    ensures
        place_picture(layout, images, videos, ids, room, anchor, at) matches Ok(w) ==> walk_inv(
            w,
            room,
        ) && w.columns.len() > anchor,
{
    match place_picture(layout, images, videos, ids, room, anchor, at) {
        Err(e) => {},
        Ok(to) => {
            let is_video = ids[anchor] == layout.video_token;
            let g = if is_video {
                videos[at.videos as int]
            } else {
                images[at.images as int]
            };
            let t = g.t as nat;
            let h = (g.h / layout.merge) as nat;
            let w = (g.w / layout.merge) as nat;
            let text = (anchor - at.columns.len()) as nat;
            lemma_product_bounds(t, h, w);
            let n = t * h * w;
            let grid = grid_run(at.next + text, t, h, w);
            let head = at.columns + text_run(at.next, text);
            assert(to.columns == head + grid);
            assert(head.len() == anchor);
            assert forall|k: int| 0 <= k < to.columns.len() implies (#[trigger] to.columns[k]).0
                < to.next && to.columns[k].1 < to.next && to.columns[k].2 < to.next by {
                if k < at.columns.len() {
                    assert(to.columns[k] == at.columns[k]);
                } else if k < anchor {
                    assert(to.columns[k] == text_run(at.next, text)[k - at.columns.len()]);
                } else {
                    assert(to.columns[k] == grid[k - anchor]);
                    lemma_grid_run_range(at.next + text, t, h, w, k - anchor);
                }
            }
            lemma_grid_run_corner(at.next + text, t, h, w);
            assert(to.columns[anchor + n - 1] == grid[n - 1]);
        },
    }
}

/// Every walk satisfies the invariant, and ends past every picture it has placed.
proof fn lemma_walk_inv(
    layout: PromptLayout,
    images: Seq<Thw>,
    videos: Seq<Thw>,
    ids: Seq<u32>,
    room: nat,
    from: (nat, nat),
    upto: nat,
)
    requires
        ids.len() <= room,
        upto <= ids.len(),
    ensures
        walk_to(layout, images, videos, ids, room, from, upto) matches Ok(w) ==> walk_inv(
            w,
            room,
        ),
    decreases upto,
{
    if upto > 0 {
        lemma_walk_inv(layout, images, videos, ids, room, from, (upto - 1) as nat);
        match walk_to(layout, images, videos, ids, room, from, (upto - 1) as nat) {
            Ok(at) => {
                lemma_place_picture_inv(layout, images, videos, ids, room, upto as int, at);
            },
            Err(e) => {},
        }
    }
}

/// The positions of a prompt cover its tokens and stay in its row, and the first free position
/// is one above the largest coordinate, which never exceeds the number of columns.
pub proof fn place_row_inv(
    layout: PromptLayout,
    images: Seq<Thw>,
    videos: Seq<Thw>,
    ids: Seq<u32>,
    room: nat,
    from: (nat, nat),
)
    requires
        ids.len() <= room,
    ensures
        place_row(layout, images, videos, ids, room, from) matches Ok(w) ==> {
            &&& ids.len() <= w.columns.len() <= room
            &&& walk_inv(w, room)
        },
{
    if ids.len() > 0 && ids.last() != layout.vision_start {
        lemma_walk_inv(layout, images, videos, ids, room, from, ids.len());
        match walk_to(layout, images, videos, ids, room, from, ids.len()) {
            Ok(at) => {
                let text = trailing(ids, at);
                let to = place_row(layout, images, videos, ids, room, from)->Ok_0;
                let run = text_run(at.next, text);
                assert(to.columns == at.columns + run);
                assert forall|k: int| 0 <= k < to.columns.len() implies (
                #[trigger] to.columns[k]).0 < to.next && to.columns[k].1 < to.next
                    && to.columns[k].2 < to.next by {
                    if k < at.columns.len() {
                        assert(to.columns[k] == at.columns[k]);
                    } else {
                        assert(to.columns[k] == run[k - at.columns.len()]);
                    }
                }
                if text > 0 {
                    assert(to.columns[to.columns.len() - 1] == run[text - 1]);
                } else {
                    assert(to.columns =~= at.columns);
                }
            },
            Err(e) => {},
        }
    }
}

proof fn lemma_no_pictures(
    layout: PromptLayout,
    images: Seq<Thw>,
    videos: Seq<Thw>,
    ids: Seq<u32>,
    room: nat,
    from: (nat, nat),
    upto: nat,
)
    requires
        upto <= ids.len(),
        forall|i: int| 0 <= i < ids.len() ==> ids[i] != layout.vision_start,
    ensures
        walk_to(layout, images, videos, ids, room, from, upto) == Ok::<Walk, ModelError>(
            Walk { columns: Seq::empty(), next: 0, images: from.0, videos: from.1 },
        ),
    decreases upto,
{
    if upto > 0 {
        lemma_no_pictures(layout, images, videos, ids, room, from, (upto - 1) as nat);
    }
}

/// A prompt without pictures is numbered from zero on all three axes, and its positions do
/// not run ahead of its tokens, whatever grids are given.
pub proof fn text_is_numbered(
    layout: PromptLayout,
    images: Seq<Thw>,
    videos: Seq<Thw>,
    ids: Seq<u32>,
    room: nat,
    from: (nat, nat),
)
    requires
        ids.len() > 0,
        forall|i: int| 0 <= i < ids.len() ==> ids[i] != layout.vision_start,
    ensures
        place_row(layout, images, videos, ids, room, from) == Ok::<Walk, ModelError>(
            Walk {
                columns: text_run(0, ids.len()),
                next: ids.len(),
                images: from.0,
                videos: from.1,
            },
        ),
{
    lemma_no_pictures(layout, images, videos, ids, room, from, ids.len());
    assert(Seq::<(nat, nat, nat)>::empty() + text_run(0, ids.len()) =~= text_run(0, ids.len()));
}

/// Every coordinate is at least `low`.
pub open spec fn at_least(c: (nat, nat, nat), low: nat) -> bool {
    c.0 >= low && c.1 >= low && c.2 >= low
}

/// Every coordinate is below `high`.
pub open spec fn below(c: (nat, nat, nat), high: nat) -> bool {
    c.0 < high && c.1 < high && c.2 < high
}

/// `next` is one above the largest coordinate of the columns.
pub open spec fn tops(columns: Seq<(nat, nat, nat)>, next: nat) -> bool {
    &&& forall|i: int|
        0 <= i < columns.len() ==> below(#[trigger] columns[i], next)
    &&& exists|i: int|
        0 <= i < columns.len() && ((#[trigger] columns[i]).0 + 1 == next || columns[i].1 + 1
            == next || columns[i].2 + 1 == next)
}

/// `to` goes on from `at`: it keeps the columns, and what it adds starts at the first free
/// position or above it.
pub open spec fn goes_on(at: Walk, to: Walk) -> bool {
    &&& at.columns.len() <= to.columns.len()
    &&& at.next <= to.next
    &&& forall|k: int| 0 <= k < at.columns.len() ==> #[trigger] to.columns[k] == at.columns[k]
    &&& forall|k: int|
        at.columns.len() <= k < to.columns.len() ==> at_least(#[trigger] to.columns[k], at.next)
}

proof fn lemma_picture_goes_on(
    layout: PromptLayout,
    images: Seq<Thw>,
    videos: Seq<Thw>,
    ids: Seq<u32>,
    room: nat,
    anchor: int,
    at: Walk,
)
    ensures
        place_picture(layout, images, videos, ids, room, anchor, at) matches Ok(to) ==> goes_on(at, to),
{
    match place_picture(layout, images, videos, ids, room, anchor, at) {
        Err(e) => {},
        Ok(to) => {
            let g = if ids[anchor] == layout.video_token {
                videos[at.videos as int]
            } else {
                images[at.images as int]
            };
            let t = g.t as nat;
            let h = (g.h / layout.merge) as nat;
            let w = (g.w / layout.merge) as nat;
            let text = (anchor - at.columns.len()) as nat;
            lemma_product_bounds(t, h, w);
            let run = text_run(at.next, text);
            let grid = grid_run(at.next + text, t, h, w);
            assert(to.columns == at.columns + run + grid);
            assert forall|k: int| at.columns.len() <= k < to.columns.len() implies at_least(
                #[trigger] to.columns[k],
                at.next,
            ) by {
                if k < anchor {
                    assert(to.columns[k] == run[k - at.columns.len()]);
                } else {
                    assert(to.columns[k] == grid[k - anchor]);
                    lemma_grid_run_range(at.next + text, t, h, w, k - anchor);
                }
            }
        },
    }
}

proof fn lemma_walk_goes_on(
    layout: PromptLayout,
    images: Seq<Thw>,
    videos: Seq<Thw>,
    ids: Seq<u32>,
    room: nat,
    from: (nat, nat),
    early: nat,
    late: nat,
)
    requires
        ids.len() <= room,
        early <= late <= ids.len(),
        walk_to(layout, images, videos, ids, room, from, late) is Ok,
    ensures
        walk_to(layout, images, videos, ids, room, from, early) is Ok,
        goes_on(
            walk_to(layout, images, videos, ids, room, from, early)->Ok_0,
            walk_to(layout, images, videos, ids, room, from, late)->Ok_0,
        ),
    decreases late,
{
    if early < late {
        let before = walk_to(layout, images, videos, ids, room, from, (late - 1) as nat)->Ok_0;
        lemma_walk_goes_on(layout, images, videos, ids, room, from, early, (late - 1) as nat);
        lemma_picture_goes_on(layout, images, videos, ids, room, late as int, before);
        let at = walk_to(layout, images, videos, ids, room, from, early)->Ok_0;
        let to = walk_to(layout, images, videos, ids, room, from, late)->Ok_0;
        assert forall|k: int| 0 <= k < at.columns.len() implies #[trigger] to.columns[k]
            == at.columns[k] by {
            assert(before.columns[k] == at.columns[k]);
        }
        assert forall|k: int| at.columns.len() <= k < to.columns.len() implies at_least(
            #[trigger] to.columns[k],
            at.next,
        ) by {
            if k < before.columns.len() {
                assert(to.columns[k] == before.columns[k]);
                assert(at_least(before.columns[k], at.next));
            } else {
                assert(at_least(to.columns[k], before.next));
            }
        }
    }
}

/// What comes after a picture lies above it: once the pictures among the first `upto` tokens
/// are placed, every later token has larger coordinates on all axes than every token placed
/// so far has on any.
pub proof fn later_tokens_lie_above(
    layout: PromptLayout,
    images: Seq<Thw>,
    videos: Seq<Thw>,
    ids: Seq<u32>,
    room: nat,
    from: (nat, nat),
    upto: nat,
)
    requires
        ids.len() <= room,
        upto <= ids.len(),
        place_row(layout, images, videos, ids, room, from) is Ok,
    ensures
        walk_to(layout, images, videos, ids, room, from, upto) is Ok,
        ({
            let at = walk_to(layout, images, videos, ids, room, from, upto)->Ok_0;
            let all = place_row(layout, images, videos, ids, room, from)->Ok_0.columns;
            &&& ids.len() <= all.len() <= room
            &&& forall|k: int|
                0 <= k < at.columns.len() ==> #[trigger] all[k] == at.columns[k] && below(
                    all[k],
                    at.next,
                )
            &&& forall|k: int|
                at.columns.len() <= k < all.len() ==> at_least(#[trigger] all[k], at.next)
        }),
{
    lemma_walk_goes_on(layout, images, videos, ids, room, from, upto, ids.len());
    lemma_walk_inv(layout, images, videos, ids, room, from, upto);
    place_row_inv(layout, images, videos, ids, room, from);
    let at = walk_to(layout, images, videos, ids, room, from, upto)->Ok_0;
    let end = walk_to(layout, images, videos, ids, room, from, ids.len())->Ok_0;
    let all = place_row(layout, images, videos, ids, room, from)->Ok_0.columns;
    let run = text_run(end.next, trailing(ids, end));
    assert(all == end.columns + run);
    assert forall|k: int| 0 <= k < at.columns.len() implies #[trigger] all[k] == at.columns[k]
        && below(all[k], at.next) by {
        assert(end.columns[k] == at.columns[k]);
    }
    assert forall|k: int| at.columns.len() <= k < all.len() implies at_least(
        #[trigger] all[k],
        at.next,
    ) by {
        if k < end.columns.len() {
            assert(all[k] == end.columns[k]);
            assert(at_least(end.columns[k], at.next));
        } else {
            assert(all[k] == run[k - end.columns.len()]);
        }
    }
}

/// No two columns are the same.
pub open spec fn distinct(columns: Seq<(nat, nat, nat)>) -> bool {
    forall|i: int, j: int|
        0 <= i < j < columns.len() ==> #[trigger] columns[i] != #[trigger] columns[j]
}

proof fn lemma_grid_place(t: nat, h: nat, w: nat, p: int)
    requires
        h > 0,
        w > 0,
        0 <= p < t * h * w,
    ensures
        p == ((p / (h * w) as int) * h + (p / w as int) % h as int) * w + p % w as int,
{
    vstd::arithmetic::div_mod::lemma_fundamental_div_mod(p, w as int);
    vstd::arithmetic::div_mod::lemma_fundamental_div_mod(p / w as int, h as int);
    vstd::arithmetic::div_mod::lemma_div_denominator(p, w as int, h as int);
    assert(w * h == h * w) by (nonlinear_arith);
    let a = p / (h * w) as int;
    let b = (p / w as int) % h as int;
    assert(p / w as int == a * h + b) by (nonlinear_arith)
        requires
            p / w as int == h * a + b,
    ;
    assert(p == (p / w as int) * w + p % w as int) by (nonlinear_arith)
        requires
            p == w * (p / w as int) + p % w as int,
    ;
}

proof fn lemma_grid_signs(h: nat, w: nat, p: int)
    requires
        h > 0,
        w > 0,
        p >= 0,
    ensures
        p / (h * w) as int >= 0,
        (p / w as int) % h as int >= 0,
        p % w as int >= 0,
{
    assert(h * w > 0) by (nonlinear_arith)
        requires
            h > 0,
            w > 0,
    ;
    vstd::arithmetic::div_mod::lemma_div_pos_is_pos(p, (h * w) as int);
    vstd::arithmetic::div_mod::lemma_mod_bound(p / w as int, h as int);
    vstd::arithmetic::div_mod::lemma_mod_bound(p, w as int);
}

proof fn lemma_grid_distinct(start: nat, t: nat, h: nat, w: nat)
    requires
        t > 0,
        h > 0,
        w > 0,
    ensures
        distinct(grid_run(start, t, h, w)),
{
    let run = grid_run(start, t, h, w);
    assert forall|i: int, j: int| 0 <= i < j < run.len() implies #[trigger] run[i]
        != #[trigger] run[j] by {
        lemma_grid_run_range(start, t, h, w, i);
        lemma_grid_run_range(start, t, h, w, j);
        lemma_grid_place(t, h, w, i);
        lemma_grid_place(t, h, w, j);
        lemma_grid_signs(h, w, i);
        lemma_grid_signs(h, w, j);
        if run[i] == run[j] {
            assert(run[i].0 == start + i / (h * w) as int);
            assert(run[j].0 == start + j / (h * w) as int);
            assert(i / (h * w) as int == j / (h * w) as int);
            assert((i / w as int) % h as int == (j / w as int) % h as int);
            assert(i % w as int == j % w as int);
        }
    }
}

/// A run that starts at or above everything before it adds no repetition.
proof fn lemma_distinct_add(a: Seq<(nat, nat, nat)>, b: Seq<(nat, nat, nat)>, at: nat)
    requires
        distinct(a),
        distinct(b),
        forall|k: int| 0 <= k < a.len() ==> below(#[trigger] a[k], at),
        forall|k: int| 0 <= k < b.len() ==> at_least(#[trigger] b[k], at),
    ensures
        distinct(a + b),
{
    assert forall|i: int, j: int| 0 <= i < j < (a + b).len() implies #[trigger] (a + b)[i]
        != #[trigger] (a + b)[j] by {
        if j < a.len() {
            assert(a[i] != a[j]);
        } else if i >= a.len() {
            assert(b[i - a.len()] != b[j - a.len()]);
        } else {
            assert(below(a[i], at));
            assert(at_least(b[j - a.len()], at));
        }
    }
}

proof fn lemma_walk_distinct(
    layout: PromptLayout,
    images: Seq<Thw>,
    videos: Seq<Thw>,
    ids: Seq<u32>,
    room: nat,
    from: (nat, nat),
    upto: nat,
)
    requires
        ids.len() <= room,
        upto <= ids.len(),
    ensures
        walk_to(layout, images, videos, ids, room, from, upto) matches Ok(at) ==> distinct(at.columns),
    decreases upto,
{
    if upto > 0 {
        lemma_walk_distinct(layout, images, videos, ids, room, from, (upto - 1) as nat);
        lemma_walk_inv(layout, images, videos, ids, room, from, (upto - 1) as nat);
        match walk_to(layout, images, videos, ids, room, from, (upto - 1) as nat) {
            Err(e) => {},
            Ok(at) => if ids[upto - 1] == layout.vision_start {
                match place_picture(layout, images, videos, ids, room, upto as int, at) {
                    Err(e) => {},
                    Ok(to) => {
                        let g = if ids[upto as int] == layout.video_token {
                            videos[at.videos as int]
                        } else {
                            images[at.images as int]
                        };
                        let t = g.t as nat;
                        let h = (g.h / layout.merge) as nat;
                        let w = (g.w / layout.merge) as nat;
                        let text = (upto - at.columns.len()) as nat;
                        lemma_product_bounds(t, h, w);
                        let run = text_run(at.next, text);
                        let grid = grid_run(at.next + text, t, h, w);
                        lemma_distinct_add(at.columns, run, at.next);
                        lemma_grid_distinct(at.next + text, t, h, w);
                        assert forall|k: int| 0 <= k < grid.len() implies at_least(
                            #[trigger] grid[k],
                            at.next + text,
                        ) by {
                            lemma_grid_run_range(at.next + text, t, h, w, k);
                        }
                        lemma_distinct_add(at.columns + run, grid, at.next + text);
                    },
                }
            },
        }
    }
}

/// No two tokens of a prompt share a position.
pub proof fn positions_are_distinct(
    layout: PromptLayout,
    images: Seq<Thw>,
    videos: Seq<Thw>,
    ids: Seq<u32>,
    room: nat,
    from: (nat, nat),
)
    requires
        ids.len() <= room,
        place_row(layout, images, videos, ids, room, from) is Ok,
    ensures
        distinct(place_row(layout, images, videos, ids, room, from)->Ok_0.columns),
{
    lemma_walk_distinct(layout, images, videos, ids, room, from, ids.len());
    lemma_walk_inv(layout, images, videos, ids, room, from, ids.len());
    let at = walk_to(layout, images, videos, ids, room, from, ids.len())->Ok_0;
    let run = text_run(at.next, trailing(ids, at));
    lemma_distinct_add(at.columns, run, at.next);
}

/// One prompt placed: its columns, the first free position, and the grids used up.
pub struct PlacedRow {
    pub columns: Vec<Position>,
    pub next: u32,
    pub images: usize,
    pub videos: usize,
}

impl PlacedRow {
    /// The walk that this row records.
    pub open spec fn walk(self) -> Walk {
        Walk {
            columns: coords(self.columns@),
            next: self.next as nat,
            images: self.images as nat,
            videos: self.videos as nat,
        }
    }
}

/// Appends the positions of `len` text tokens from `start`.
pub(crate) fn push_text(columns: &mut Vec<Position>, start: u32, len: usize)
    requires
        start + len <= u32::MAX,
    ensures
        coords(final(columns)@) == coords(old(columns)@) + text_run(start as nat, len as nat),
{
    let ghost before = columns@;
    let mut i: usize = 0;
    assert(coords(before) =~= coords(before) + text_run(start as nat, 0));
    while i < len
        invariant
            start + len <= u32::MAX,
            i <= len,
            coords(columns@) == coords(before) + text_run(start as nat, i as nat),
        decreases len - i,
    {
        let p: u32 = start + i as u32;
        let at = Position { t: p, h: p, w: p };
        let ghost was = columns@;
        columns.push(at);
        assert(coords(columns@) =~= coords(was).push(at@));
        assert(coords(columns@) =~= coords(before) + text_run(start as nat, (i + 1) as nat));
        i = i + 1;
    }
}

/// Appends the positions of a picture of `t` frames, `h` rows and `w` columns from `start`.
fn push_grid(columns: &mut Vec<Position>, start: u32, t: u32, h: u32, w: u32, n: usize)
    requires
        t > 0,
        h > 0,
        w > 0,
        n == (t as nat) * (h as nat) * (w as nat),
        start + n <= u32::MAX,
    ensures
        coords(final(columns)@) == coords(old(columns)@) + grid_run(
            start as nat,
            t as nat,
            h as nat,
            w as nat,
        ),
{
    let ghost before = columns@;
    let ghost whole = grid_run(start as nat, t as nat, h as nat, w as nat);
    proof {
        lemma_grid_run_corner(start as nat, t as nat, h as nat, w as nat);
        lemma_product_bounds(t as nat, h as nat, w as nat);
        assert((h as nat) * (w as nat) <= n && (h as nat) * (w as nat) > 0) by (nonlinear_arith)
            requires
                t > 0,
                h > 0,
                w > 0,
                n == (t as nat) * (h as nat) * (w as nat),
        ;
        assert((h as int) * (w as int) == (h as nat) * (w as nat));
    }
    let frame: usize = h as usize * w as usize;
    let mut p: usize = 0;
    assert(coords(before) =~= coords(before) + whole.take(0));
    while p < n
        invariant
            t > 0,
            h > 0,
            w > 0,
            n == (t as nat) * (h as nat) * (w as nat),
            start + n <= u32::MAX,
            frame == (h as nat) * (w as nat),
            frame > 0,
            whole == grid_run(start as nat, t as nat, h as nat, w as nat),
            p <= n,
            coords(columns@) == coords(before) + whole.take(p as int),
        decreases n - p,
    {
        proof {
            lemma_grid_run_range(start as nat, t as nat, h as nat, w as nat, p as int);
            lemma_product_bounds(t as nat, h as nat, w as nat);
        }
        let at = Position {
            t: start + (p / frame) as u32,
            h: start + ((p / w as usize) % h as usize) as u32,
            w: start + (p % w as usize) as u32,
        };
        assert(at@ == whole[p as int]);
        let ghost was = columns@;
        columns.push(at);
        assert(coords(columns@) =~= coords(was).push(at@));
        assert(whole.take(p + 1) =~= whole.take(p as int).push(whole[p as int]));
        assert(coords(columns@) =~= coords(before) + whole.take(p + 1));
        p = p + 1;
    }
    assert(whole.take(n as int) =~= whole);
}

fn largest(a: u32, b: u32, c: u32) -> (r: u32)
    ensures
        r == max3(a as nat, b as nat, c as nat),
{
    let ab = if a >= b {
        a
    } else {
        b
    };
    if ab >= c {
        ab
    } else {
        c
    }
}

impl PromptLayout {
    /// Places the positions of one prompt, which stands in a row of `room` columns, taking
    /// image and video grids from the given indices on.
    pub fn place(
        &self,
        images: &Vec<Thw>,
        videos: &Vec<Thw>,
        ids: &Vec<u32>,
        room: usize,
        first_image: usize,
        first_video: usize,
    ) -> (r: Result<PlacedRow, ModelError>)
        requires
            ids@.len() <= room <= u32::MAX,
            first_image <= images@.len(),
            first_video <= videos@.len(),
        ensures
            match r {
                Ok(row) => place_row(
                    *self,
                    images@,
                    videos@,
                    ids@,
                    room as nat,
                    (first_image as nat, first_video as nat),
                ) == Ok::<Walk, ModelError>(row.walk()),
                Err(e) => place_row(
                    *self,
                    images@,
                    videos@,
                    ids@,
                    room as nat,
                    (first_image as nat, first_video as nat),
                ) == Err::<Walk, ModelError>(e),
            },
            r matches Ok(row) ==> row.images <= images@.len() && row.videos <= videos@.len(),
    {
        let len: usize = ids.len();
        let ghost from = (first_image as nat, first_video as nat);
        if len == 0 {
            return Err(ModelError::EmptyPrompt);
        }
        if ids[len - 1] == self.vision_start {
            return Err(ModelError::DanglingVisionStart);
        }
        let mut row = PlacedRow {
            columns: Vec::new(),
            next: 0,
            images: first_image,
            videos: first_video,
        };
        assert(coords(row.columns@) =~= Seq::empty());
        let mut i: usize = 0;
        while i < len
            invariant
                len == ids@.len(),
                0 < len <= room <= u32::MAX,
                ids@.last() != self.vision_start,
                i <= len,
                row.images <= images@.len(),
                row.videos <= videos@.len(),
                from == (first_image as nat, first_video as nat),
                walk_to(*self, images@, videos@, ids@, room as nat, from, i as nat) == Ok::<Walk, ModelError>(
                    row.walk(),
                ),
                walk_inv(row.walk(), room as nat),
            decreases len - i,
        {
            if ids[i] == self.vision_start {
                let anchor: usize = i + 1;
                let ghost at = row.walk();
                let ghost step = place_picture(*self, images@, videos@, ids@, room as nat, anchor as int, at);
                proof {
                    lemma_place_picture_inv(*self, images@, videos@, ids@, room as nat, anchor as int, at);
                    lemma_err_stays(*self, images@, videos@, ids@, room as nat, from, anchor as nat, len as nat);
                }
                assert(anchor < len);
                assert(walk_to(*self, images@, videos@, ids@, room as nat, from, anchor as nat) == step);
                let is_image = ids[anchor] == self.image_token;
                let is_video = ids[anchor] == self.video_token;
                if !is_image && !is_video {
                    return Err(ModelError::UnexpectedVisionToken);
                }
                if is_image && row.images >= images.len() {
                    return Err(ModelError::MissingImageGrid);
                }
                if is_video && row.videos >= videos.len() {
                    return Err(ModelError::MissingVideoGrid);
                }
                if self.merge == 0 {
                    return Err(ModelError::MergeSize);
                }
                let g = if is_video {
                    videos[row.videos]
                } else {
                    images[row.images]
                };
                let h: u32 = g.h / self.merge;
                let w: u32 = g.w / self.merge;
                if anchor < row.columns.len() {
                    return Err(ModelError::OverlappingVision);
                }
                proof {
                    lemma_u128_product(g.t, h, w);
                }
                let n: u128 = g.t as u128 * h as u128 * w as u128;
                if n == 0 {
                    return Err(ModelError::EmptyGrid);
                }
                if n > (room - anchor) as u128 {
                    return Err(ModelError::GridOverrun);
                }
                proof {
                    lemma_product_bounds(g.t as nat, h as nat, w as nat);
                }
                let text: usize = anchor - row.columns.len();
                let start: u32 = row.next + text as u32;
                push_text(&mut row.columns, row.next, text);
                push_grid(&mut row.columns, start, g.t, h, w, n as usize);
                row.next = start + largest(g.t, h, w);
                if is_image {
                    row.images = row.images + 1;
                }
                if is_video {
                    row.videos = row.videos + 1;
                }
                assert(step == Ok::<Walk, ModelError>(row.walk()));
            }
            i = i + 1;
        }
        let text: usize = if row.columns.len() < len {
            len - row.columns.len()
        } else {
            0
        };
        push_text(&mut row.columns, row.next, text);
        row.next = row.next + text as u32;
        Ok(row)
    }
}

/// A product of three 32-bit numbers fits 128 bits.
pub(crate) proof fn lemma_u128_product(a: u32, b: u32, c: u32)
    ensures
        (a as u128) * (b as u128) <= u128::MAX,
        (a as u128) * (b as u128) * (c as u128) <= u128::MAX,
        (a as u128) * (b as u128) * (c as u128) == (a as nat) * (b as nat) * (c as nat),
{
    assert((a as int) * (b as int) <= 0x1_0000_0000 * 0x1_0000_0000) by (nonlinear_arith)
        requires
            0 <= a < 0x1_0000_0000,
            0 <= b < 0x1_0000_0000,
    ;
    let ab = (a as int) * (b as int);
    assert(0 <= ab) by (nonlinear_arith)
        requires
            ab == (a as int) * (b as int),
    ;
    assert(ab * (c as int) <= 0x1_0000_0000 * 0x1_0000_0000 * 0x1_0000_0000) by (nonlinear_arith)
        requires
            0 <= ab <= 0x1_0000_0000 * 0x1_0000_0000,
            0 <= c < 0x1_0000_0000,
    ;
}

/// Once a walk has failed it stays failed.
proof fn lemma_err_stays(
    layout: PromptLayout,
    images: Seq<Thw>,
    videos: Seq<Thw>,
    ids: Seq<u32>,
    room: nat,
    from: (nat, nat),
    a: nat,
    b: nat,
)
    requires
        a <= b,
    ensures
        walk_to(layout, images, videos, ids, room, from, a) matches Err(e) ==> walk_to(
            layout,
            images,
            videos,
            ids,
            room,
            from,
            b,
        ) == Err::<Walk, ModelError>(e),
    decreases b,
{
    if a < b {
        lemma_err_stays(layout, images, videos, ids, room, from, a, (b - 1) as nat);
    }
}

/// The same walk, with `images` and `videos` more grids used up before it.
pub open spec fn later(w: Walk, images: nat, videos: nat) -> Walk {
    Walk {
        columns: w.columns,
        next: w.next,
        images: w.images + images,
        videos: w.videos + videos,
    }
}

proof fn lemma_more_grids(
    layout: PromptLayout,
    images: Seq<Thw>,
    videos: Seq<Thw>,
    more_images: Seq<Thw>,
    more_videos: Seq<Thw>,
    ids: Seq<u32>,
    room: nat,
    from: (nat, nat),
    upto: nat,
)
    requires
        walk_to(layout, images, videos, ids, room, from, upto) is Ok,
    ensures
        walk_to(
            layout,
            images + more_images,
            videos + more_videos,
            ids,
            room,
            from,
            upto,
        ) == walk_to(layout, images, videos, ids, room, from, upto),
    decreases upto,
{
    if upto > 0 {
        let n = (upto - 1) as nat;
        lemma_more_grids(
            layout,
            images,
            videos,
            more_images,
            more_videos,
            ids,
            room,
            from,
            n,
        );
        let at = walk_to(layout, images, videos, ids, room, from, n)->Ok_0;
        if ids[upto - 1] == layout.vision_start {
            if at.images < images.len() {
                assert((images + more_images)[at.images as int] == images[at.images as int]);
            }
            if at.videos < videos.len() {
                assert((videos + more_videos)[at.videos as int] == videos[at.videos as int]);
            }
        }
    }
}

/// Grids that a prompt does not get to do not change its positions.
pub proof fn spare_grids_change_nothing(
    layout: PromptLayout,
    images: Seq<Thw>,
    videos: Seq<Thw>,
    more_images: Seq<Thw>,
    more_videos: Seq<Thw>,
    ids: Seq<u32>,
    room: nat,
    from: (nat, nat),
)
    requires
        place_row(layout, images, videos, ids, room, from) is Ok,
    ensures
        place_row(layout, images + more_images, videos + more_videos, ids, room, from)
            == place_row(layout, images, videos, ids, room, from),
{
    lemma_more_grids(
        layout,
        images,
        videos,
        more_images,
        more_videos,
        ids,
        room,
        from,
        ids.len(),
    );
}

proof fn lemma_walk_later(
    layout: PromptLayout,
    before_images: Seq<Thw>,
    before_videos: Seq<Thw>,
    images: Seq<Thw>,
    videos: Seq<Thw>,
    ids: Seq<u32>,
    room: nat,
    from: (nat, nat),
    upto: nat,
)
    ensures
        ({
            let m = before_images.len();
            let n = before_videos.len();
            walk_to(
                layout,
                before_images + images,
                before_videos + videos,
                ids,
                room,
                (from.0 + m, from.1 + n),
                upto,
            ) == match walk_to(layout, images, videos, ids, room, from, upto) {
                Err(e) => Err(e),
                Ok(w) => Ok(later(w, m, n)),
            }
        }),
    decreases upto,
{
    if upto > 0 {
        lemma_walk_later(
            layout,
            before_images,
            before_videos,
            images,
            videos,
            ids,
            room,
            from,
            (upto - 1) as nat,
        );
        let at = walk_to(layout, images, videos, ids, room, from, (upto - 1) as nat);
        if at is Ok && ids[upto - 1] == layout.vision_start {
            let i = at->Ok_0.images as int;
            let v = at->Ok_0.videos as int;
            if i < images.len() {
                assert((before_images + images)[i + before_images.len()] == images[i]);
            }
            if v < videos.len() {
                assert((before_videos + videos)[v + before_videos.len()] == videos[v]);
            }
        }
    }
}

/// Grids that are used up before a prompt do not change its positions.
pub proof fn used_grids_change_nothing(
    layout: PromptLayout,
    before_images: Seq<Thw>,
    before_videos: Seq<Thw>,
    images: Seq<Thw>,
    videos: Seq<Thw>,
    ids: Seq<u32>,
    room: nat,
    from: (nat, nat),
)
    ensures
        ({
            let m = before_images.len();
            let n = before_videos.len();
            place_row(
                layout,
                before_images + images,
                before_videos + videos,
                ids,
                room,
                (from.0 + m, from.1 + n),
            ) == match place_row(layout, images, videos, ids, room, from) {
                Err(e) => Err(e),
                Ok(w) => Ok(later(w, m, n)),
            }
        }),
{
    lemma_walk_later(
        layout,
        before_images,
        before_videos,
        images,
        videos,
        ids,
        room,
        from,
        ids.len(),
    );
}

/// A picture starts at token `a`: the token before it announces it.
pub open spec fn starts_at(layout: PromptLayout, ids: Seq<u32>, a: int) -> bool {
    1 <= a < ids.len() && ids[a - 1] == layout.vision_start
}

/// How many pictures of a kind start before token `a`.
pub open spec fn pictures_before(layout: PromptLayout, ids: Seq<u32>, token: u32, a: nat) -> nat
    decreases a,
{
    if a == 0 {
        0
    } else {
        pictures_before(layout, ids, token, (a - 1) as nat) + if starts_at(layout, ids, a - 1)
            && ids[a - 1] == token {
            1nat
        } else {
            0nat
        }
    }
}

/// The grid of the picture at token `a`: the next one of its kind that no picture before it
/// has taken.
pub open spec fn grid_at(
    layout: PromptLayout,
    images: Seq<Thw>,
    videos: Seq<Thw>,
    ids: Seq<u32>,
    from: (nat, nat),
    a: int,
) -> Thw {
    if ids[a] == layout.video_token {
        videos[from.1 as int + pictures_before(layout, ids, layout.video_token, a as nat)]
    } else {
        images[from.0 as int + pictures_before(layout, ids, layout.image_token, a as nat)]
    }
}

/// `s` is the first position above all coordinates of the first `j` tokens.
pub open spec fn next_free(columns: Seq<(nat, nat, nat)>, j: int, s: nat) -> bool {
    &&& forall|i: int|
        0 <= i < j ==> (#[trigger] columns[i]).0 < s && columns[i].1 < s && columns[i].2 < s
    &&& s > 0 ==> exists|i: int|
        0 <= i < j && ((#[trigger] columns[i]).0 + 1 == s || columns[i].1 + 1 == s || columns[i].2
            + 1 == s)
}

proof fn lemma_next_free_prefix(
    a: Seq<(nat, nat, nat)>,
    b: Seq<(nat, nat, nat)>,
    j: int,
    s: nat,
)
    requires
        j <= a.len(),
        j <= b.len(),
        forall|i: int| 0 <= i < j ==> #[trigger] a[i] == b[i],
        next_free(a, j, s),
    ensures
        next_free(b, j, s),
{
    assert forall|i: int| 0 <= i < j implies (#[trigger] b[i]).0 < s && b[i].1 < s && b[i].2 < s by {
        assert(a[i] == b[i]);
    }
    if s > 0 {
        let i = choose|i: int|
            0 <= i < j && ((#[trigger] a[i]).0 + 1 == s || a[i].1 + 1 == s || a[i].2 + 1 == s);
        assert(a[i] == b[i]);
    }
}

proof fn lemma_next_free_walk(at: Walk, limit: nat)
    requires
        walk_inv(at, limit),
    ensures
        next_free(at.columns, at.columns.len() as int, at.next),
{
}

/// A run of text behind some columns: each token is the first free position.
proof fn lemma_text_behind(columns: Seq<(nat, nat, nat)>, next: nat, text: nat, j: int)
    requires
        next_free(columns, columns.len() as int, next),
        0 <= j <= text,
    ensures
        next_free(columns + text_run(next, text), columns.len() + j, (next + j) as nat),
        j < text ==> (columns + text_run(next, text))[columns.len() + j] == (
            (next + j) as nat,
            (next + j) as nat,
            (next + j) as nat,
        ),
{
    let all = columns + text_run(next, text);
    let n = columns.len() as int;
    assert forall|i: int| 0 <= i < n + j implies (#[trigger] all[i]).0 < next + j && all[i].1 < next
        + j && all[i].2 < next + j by {
        if i < n {
            assert(all[i] == columns[i]);
        } else {
            assert(all[i] == text_run(next, text)[i - n]);
        }
    }
    if j > 0 {
        assert(all[n + j - 1] == text_run(next, text)[j - 1]);
    } else if next > 0 {
        let i = choose|i: int|
            0 <= i < n && ((#[trigger] columns[i]).0 + 1 == next || columns[i].1 + 1 == next
                || columns[i].2 + 1 == next);
        assert(all[i] == columns[i]);
    }
}

/// The place of a cell in a picture.
proof fn lemma_cell_place(t: nat, h: nat, w: nat, q: int, y: int, x: int)
    requires
        0 <= q < t,
        0 <= y < h,
        0 <= x < w,
    ensures
        ({
            let p = (q * h + y) * w + x;
            &&& 0 <= p < t * h * w
            &&& p / (h * w) as int == q
            &&& (p / w as int) % h as int == y
            &&& p % w as int == x
        }),
{
    let l = q * h + y;
    let p = l * w + x;
    assert(0 <= l < t * h) by (nonlinear_arith)
        requires
            0 <= q < t,
            0 <= y < h,
            l == q * h + y,
    ;
    assert(0 <= p < t * h * w) by (nonlinear_arith)
        requires
            0 <= l < t * h,
            0 <= x < w,
            p == l * w + x,
    ;
    vstd::arithmetic::div_mod::lemma_fundamental_div_mod_converse(p, w as int, l, x);
    vstd::arithmetic::div_mod::lemma_fundamental_div_mod_converse(l, h as int, q, y);
    let r = y * w + x;
    assert(p == q * (h * w) + r && 0 <= r < h * w) by (nonlinear_arith)
        requires
            p == (q * h + y) * w + x,
            r == y * w + x,
            0 <= y < h,
            0 <= x < w,
    ;
    vstd::arithmetic::div_mod::lemma_fundamental_div_mod_converse(p, (h * w) as int, q, r);
}

proof fn lemma_used_grids(
    layout: PromptLayout,
    images: Seq<Thw>,
    videos: Seq<Thw>,
    ids: Seq<u32>,
    room: nat,
    from: (nat, nat),
    upto: nat,
)
    requires
        upto < ids.len(),
        walk_to(layout, images, videos, ids, room, from, upto) is Ok,
    ensures
        ({
            let at = walk_to(layout, images, videos, ids, room, from, upto)->Ok_0;
            &&& at.images == from.0 + pictures_before(layout, ids, layout.image_token, upto + 1)
            &&& at.videos == from.1 + pictures_before(layout, ids, layout.video_token, upto + 1)
        }),
    decreases upto,
{
    reveal_with_fuel(pictures_before, 2);
    if upto > 0 {
        lemma_used_grids(layout, images, videos, ids, room, from, (upto - 1) as nat);
    }
}

/// What placing a picture at token `a` leaves of the walk before it.
proof fn lemma_placed(
    layout: PromptLayout,
    images: Seq<Thw>,
    videos: Seq<Thw>,
    ids: Seq<u32>,
    room: nat,
    from: (nat, nat),
    a: nat,
)
    requires
        ids.len() <= room,
        starts_at(layout, ids, a as int),
        walk_to(layout, images, videos, ids, room, from, a) is Ok,
    ensures
        ({
            let at = walk_to(layout, images, videos, ids, room, from, (a - 1) as nat)->Ok_0;
            let to = walk_to(layout, images, videos, ids, room, from, a)->Ok_0;
            let g = grid_at(layout, images, videos, ids, from, a as int);
            let t = g.t as nat;
            let h = (g.h / layout.merge) as nat;
            let w = (g.w / layout.merge) as nat;
            let text = (a - at.columns.len()) as nat;
            &&& walk_to(layout, images, videos, ids, room, from, (a - 1) as nat) is Ok
            &&& layout.merge > 0
            &&& at.columns.len() <= a
            &&& t * h * w > 0
            &&& a + t * h * w <= room
            &&& ids[a as int] == layout.image_token || ids[a as int] == layout.video_token
            &&& to.columns == at.columns + text_run(at.next, text) + grid_run(
                at.next + text,
                t,
                h,
                w,
            )
            &&& next_free(at.columns, at.columns.len() as int, at.next)
        }),
{
    lemma_used_grids(layout, images, videos, ids, room, from, (a - 1) as nat);
    lemma_walk_inv(layout, images, videos, ids, room, from, (a - 1) as nat);
    let at = walk_to(layout, images, videos, ids, room, from, (a - 1) as nat)->Ok_0;
    lemma_next_free_walk(at, room);
}

proof fn lemma_cell_placed(
    layout: PromptLayout,
    images: Seq<Thw>,
    videos: Seq<Thw>,
    ids: Seq<u32>,
    room: nat,
    from: (nat, nat),
    upto: nat,
    a: nat,
    q: int,
    y: int,
    x: int,
)
    requires
        ids.len() <= room,
        upto < ids.len(),
        a <= upto,
        starts_at(layout, ids, a as int),
        walk_to(layout, images, videos, ids, room, from, upto) is Ok,
        layout.merge > 0 ==> {
            let g = grid_at(layout, images, videos, ids, from, a as int);
            0 <= q < g.t && 0 <= y < g.h / layout.merge && 0 <= x < g.w / layout.merge
        },
    ensures
        ({
            let at = walk_to(layout, images, videos, ids, room, from, upto)->Ok_0;
            let g = grid_at(layout, images, videos, ids, from, a as int);
            let h = g.h as int / layout.merge as int;
            let w = g.w as int / layout.merge as int;
            let k = a + (q * h + y) * w + x;
            let s = at.columns[k].0 - q;
            &&& layout.merge > 0
            &&& ids[a as int] == layout.image_token || ids[a as int] == layout.video_token
            &&& a + g.t * h * w <= at.columns.len()
            &&& a <= k < at.columns.len()
            &&& s >= 0
            &&& at.columns[k].1 == s + y
            &&& at.columns[k].2 == s + x
            &&& next_free(at.columns, a as int, s as nat)
        }),
    decreases upto,
{
    let at = walk_to(layout, images, videos, ids, room, from, upto)->Ok_0;
    let g = grid_at(layout, images, videos, ids, from, a as int);
    if a < upto {
        let n = (upto - 1) as nat;
        lemma_cell_placed(layout, images, videos, ids, room, from, n, a, q, y, x);
        let before = walk_to(layout, images, videos, ids, room, from, n)->Ok_0;
        let h = g.h as int / layout.merge as int;
        let w = g.w as int / layout.merge as int;
        let k = a + (q * h + y) * w + x;
        if ids[upto - 1] == layout.vision_start {
            lemma_placed(layout, images, videos, ids, room, from, upto);
            assert(forall|i: int|
                0 <= i < before.columns.len() ==> before.columns[i] == #[trigger] at.columns[i]);
            lemma_next_free_prefix(
                before.columns,
                at.columns,
                a as int,
                (before.columns[k].0 - q) as nat,
            );
        }
    } else {
        lemma_placed(layout, images, videos, ids, room, from, a);
        let before = walk_to(layout, images, videos, ids, room, from, (a - 1) as nat)->Ok_0;
        let t = g.t as nat;
        let h = (g.h / layout.merge) as nat;
        let w = (g.w / layout.merge) as nat;
        let text = (a - before.columns.len()) as nat;
        let s = before.next + text;
        let head = before.columns + text_run(before.next, text);
        let p = (q * h + y) * w + x;
        lemma_cell_place(t, h, w, q, y, x);
        lemma_text_behind(before.columns, before.next, text, text as int);
        assert(head.len() == a);
        assert(at.columns[a + p] == grid_run(s, t, h, w)[p]);
        lemma_next_free_prefix(head, at.columns, a as int, s);
    }
}

/// A token belongs to a picture that starts at token `upto` or before.
pub open spec fn in_picture(
    layout: PromptLayout,
    images: Seq<Thw>,
    videos: Seq<Thw>,
    ids: Seq<u32>,
    from: (nat, nat),
    upto: nat,
    j: int,
) -> bool {
    exists|a: int|
        #![trigger starts_at(layout, ids, a)]
        starts_at(layout, ids, a) && a <= upto && a <= j && {
            let g = grid_at(layout, images, videos, ids, from, a);
            j < a + g.t * (g.h as int / layout.merge as int) * (g.w as int / layout.merge as int)
        }
}

proof fn lemma_text_placed(
    layout: PromptLayout,
    images: Seq<Thw>,
    videos: Seq<Thw>,
    ids: Seq<u32>,
    room: nat,
    from: (nat, nat),
    upto: nat,
    j: int,
)
    requires
        ids.len() <= room,
        upto < ids.len(),
        walk_to(layout, images, videos, ids, room, from, upto) is Ok,
        0 <= j < walk_to(layout, images, videos, ids, room, from, upto)->Ok_0.columns.len(),
        !in_picture(layout, images, videos, ids, from, upto, j),
    ensures
        ({
            let at = walk_to(layout, images, videos, ids, room, from, upto)->Ok_0;
            &&& at.columns[j].1 == at.columns[j].0
            &&& at.columns[j].2 == at.columns[j].0
            &&& next_free(at.columns, j, at.columns[j].0)
        }),
    decreases upto,
{
    if upto > 0 {
        let n = (upto - 1) as nat;
        let at = walk_to(layout, images, videos, ids, room, from, upto)->Ok_0;
        let before = walk_to(layout, images, videos, ids, room, from, n)->Ok_0;
        assert(!in_picture(layout, images, videos, ids, from, n, j)) by {
            if in_picture(layout, images, videos, ids, from, n, j) {
                let a = choose|a: int|
                    #![trigger starts_at(layout, ids, a)]
                    starts_at(layout, ids, a) && a <= n && a <= j && {
                        let g = grid_at(layout, images, videos, ids, from, a);
                        j < a + g.t * (g.h as int / layout.merge as int) * (g.w as int
                            / layout.merge as int)
                    };
                assert(starts_at(layout, ids, a));
            }
        }
        if ids[upto - 1] == layout.vision_start {
            assert(starts_at(layout, ids, upto as int));
            lemma_placed(layout, images, videos, ids, room, from, upto);
            let g = grid_at(layout, images, videos, ids, from, upto as int);
            let text = (upto - before.columns.len()) as nat;
            let head = before.columns + text_run(before.next, text);
            if j < before.columns.len() {
                lemma_text_placed(layout, images, videos, ids, room, from, n, j);
                assert(forall|i: int|
                    0 <= i < before.columns.len() ==> before.columns[i] == #[trigger] at.columns[i]);
                assert(before.columns[j] == at.columns[j]);
                lemma_next_free_prefix(before.columns, at.columns, j, before.columns[j].0);
            } else if j < upto {
                let i = j - before.columns.len();
                lemma_text_behind(before.columns, before.next, text, i);
                assert(head.len() == upto);
                assert(forall|i: int| 0 <= i < upto ==> head[i] == #[trigger] at.columns[i]);
                assert(head[j] == at.columns[j]);
                lemma_next_free_prefix(head, at.columns, j, head[j].0);
            }
        } else {
            lemma_text_placed(layout, images, videos, ids, room, from, n, j);
        }
    }
}

/// A picture lies on its grid: it starts at the first position above everything before it,
/// its cells follow frame by frame, row by row and column by column, and each is as far from
/// the start on the three axes as its frame, row and column say. It takes the next grid of
/// its kind.
pub proof fn pictures_lie_on_their_grid(
    layout: PromptLayout,
    images: Seq<Thw>,
    videos: Seq<Thw>,
    ids: Seq<u32>,
    room: nat,
    from: (nat, nat),
    a: nat,
    q: int,
    y: int,
    x: int,
)
    requires
        ids.len() <= room,
        place_row(layout, images, videos, ids, room, from) is Ok,
        starts_at(layout, ids, a as int),
        layout.merge > 0 ==> {
            let g = grid_at(layout, images, videos, ids, from, a as int);
            0 <= q < g.t && 0 <= y < g.h / layout.merge && 0 <= x < g.w / layout.merge
        },
    ensures
        ({
            let placed = place_row(layout, images, videos, ids, room, from)->Ok_0;
            let g = grid_at(layout, images, videos, ids, from, a as int);
            let h = g.h as int / layout.merge as int;
            let w = g.w as int / layout.merge as int;
            let k = a + (q * h + y) * w + x;
            let s = placed.columns[k].0 - q;
            &&& layout.merge > 0
            &&& ids[a as int] == layout.image_token || ids[a as int] == layout.video_token
            &&& a + g.t * h * w <= placed.columns.len()
            &&& a <= k < placed.columns.len()
            &&& s >= 0
            &&& placed.columns[k].1 == s + y
            &&& placed.columns[k].2 == s + x
            &&& next_free(placed.columns, a as int, s as nat)
        }),
{
    let n = (ids.len() - 1) as nat;
    let placed = place_row(layout, images, videos, ids, room, from)->Ok_0;
    reveal_with_fuel(walk_to, 2);
    let at = walk_to(layout, images, videos, ids, room, from, n)->Ok_0;
    assert(walk_to(layout, images, videos, ids, room, from, ids.len())->Ok_0 == at);
    lemma_cell_placed(layout, images, videos, ids, room, from, n, a, q, y, x);
    let g = grid_at(layout, images, videos, ids, from, a as int);
    let h = g.h as int / layout.merge as int;
    let w = g.w as int / layout.merge as int;
    let k = a + (q * h + y) * w + x;
    assert(forall|i: int|
        0 <= i < at.columns.len() ==> at.columns[i] == #[trigger] placed.columns[i]);
    lemma_next_free_prefix(at.columns, placed.columns, a as int, (at.columns[k].0 - q) as nat);
}

/// A token outside all pictures has one coordinate on all axes: the first position above
/// everything before it. A prompt has a position for each of its tokens, the position that it
/// leaves free lies above them all, and it has used a grid for each of its pictures.
pub proof fn text_goes_on_above(
    layout: PromptLayout,
    images: Seq<Thw>,
    videos: Seq<Thw>,
    ids: Seq<u32>,
    room: nat,
    from: (nat, nat),
    j: int,
)
    requires
        ids.len() <= room,
        place_row(layout, images, videos, ids, room, from) is Ok,
        0 <= j < place_row(layout, images, videos, ids, room, from)->Ok_0.columns.len(),
    ensures
        ({
            let placed = place_row(layout, images, videos, ids, room, from)->Ok_0;
            let n = ids.len();
            &&& !in_picture(layout, images, videos, ids, from, n, j) ==> {
                &&& placed.columns[j].1 == placed.columns[j].0
                &&& placed.columns[j].2 == placed.columns[j].0
                &&& next_free(placed.columns, j, placed.columns[j].0)
            }
            &&& n <= placed.columns.len()
            &&& next_free(placed.columns, placed.columns.len() as int, placed.next)
            &&& placed.images == from.0 + pictures_before(layout, ids, layout.image_token, n)
            &&& placed.videos == from.1 + pictures_before(layout, ids, layout.video_token, n)
        }),
{
    let n = (ids.len() - 1) as nat;
    let placed = place_row(layout, images, videos, ids, room, from)->Ok_0;
    reveal_with_fuel(walk_to, 2);
    let at = walk_to(layout, images, videos, ids, room, from, n)->Ok_0;
    assert(walk_to(layout, images, videos, ids, room, from, ids.len())->Ok_0 == at);
    lemma_used_grids(layout, images, videos, ids, room, from, n);
    lemma_walk_inv(layout, images, videos, ids, room, from, n);
    lemma_next_free_walk(at, room);
    place_row_inv(layout, images, videos, ids, room, from);
    lemma_next_free_walk(placed, room);
    if !in_picture(layout, images, videos, ids, from, ids.len(), j) {
        assert(!in_picture(layout, images, videos, ids, from, n, j)) by {
            if in_picture(layout, images, videos, ids, from, n, j) {
                let a = choose|a: int|
                    #![trigger starts_at(layout, ids, a)]
                    starts_at(layout, ids, a) && a <= n && a <= j && {
                        let g = grid_at(layout, images, videos, ids, from, a);
                        j < a + g.t * (g.h as int / layout.merge as int) * (g.w as int
                            / layout.merge as int)
                    };
                assert(starts_at(layout, ids, a));
            }
        }
        if j < at.columns.len() {
            lemma_text_placed(layout, images, videos, ids, room, from, n, j);
            assert(forall|i: int|
                0 <= i < at.columns.len() ==> at.columns[i] == #[trigger] placed.columns[i]);
            assert(placed.columns[j] == at.columns[j]);
            lemma_next_free_prefix(at.columns, placed.columns, j, at.columns[j].0);
        } else {
            lemma_text_behind(at.columns, at.next, trailing(ids, at), j - at.columns.len());
        }
    }
}

/// How many tokens the picture at token `a` covers.
pub open spec fn covers(
    layout: PromptLayout,
    images: Seq<Thw>,
    videos: Seq<Thw>,
    ids: Seq<u32>,
    from: (nat, nat),
    a: int,
) -> int {
    let g = grid_at(layout, images, videos, ids, from, a);
    g.t * (g.h as int / layout.merge as int) * (g.w as int / layout.merge as int)
}

/// A prompt is in order: it does not end where a picture is announced, every picture that is
/// announced is an image or a video, has a grid that covers a token, fits into the row, and
/// ends before the next one starts.
pub open spec fn in_order(
    layout: PromptLayout,
    images: Seq<Thw>,
    videos: Seq<Thw>,
    ids: Seq<u32>,
    room: nat,
    from: (nat, nat),
) -> bool {
    &&& ids.len() > 0
    &&& ids.last() != layout.vision_start
    &&& forall|a: int| #[trigger]
        starts_at(layout, ids, a) ==> {
            &&& layout.merge > 0
            &&& ids[a] == layout.image_token || ids[a] == layout.video_token
            &&& ids[a] == layout.image_token ==> from.0 + pictures_before(
                layout,
                ids,
                layout.image_token,
                a as nat,
            ) < images.len()
            &&& ids[a] == layout.video_token ==> from.1 + pictures_before(
                layout,
                ids,
                layout.video_token,
                a as nat,
            ) < videos.len()
            &&& 0 < covers(layout, images, videos, ids, from, a)
            &&& a + covers(layout, images, videos, ids, from, a) <= room
        }
    &&& forall|a: int, b: int|
        a < b && #[trigger] starts_at(layout, ids, a) && #[trigger] starts_at(layout, ids, b) ==> a
            + covers(layout, images, videos, ids, from, a) <= b
}

proof fn lemma_walk_in_order(
    layout: PromptLayout,
    images: Seq<Thw>,
    videos: Seq<Thw>,
    ids: Seq<u32>,
    room: nat,
    from: (nat, nat),
    upto: nat,
)
    requires
        in_order(layout, images, videos, ids, room, from),
        upto < ids.len(),
    ensures
        walk_to(layout, images, videos, ids, room, from, upto) matches Ok(at) && (at.columns.len()
            == 0 || exists|a: int|
            a <= upto && #[trigger] starts_at(layout, ids, a) && at.columns.len() == a + covers(
                layout,
                images,
                videos,
                ids,
                from,
                a,
            )),
    decreases upto,
{
    if upto > 0 {
        let n = (upto - 1) as nat;
        lemma_walk_in_order(layout, images, videos, ids, room, from, n);
        let at = walk_to(layout, images, videos, ids, room, from, n)->Ok_0;
        if ids[upto - 1] == layout.vision_start {
            assert(starts_at(layout, ids, upto as int));
            lemma_used_grids(layout, images, videos, ids, room, from, n);
            if at.columns.len() > 0 {
                let a = choose|a: int|
                    a <= n && #[trigger] starts_at(layout, ids, a) && at.columns.len() == a
                        + covers(layout, images, videos, ids, from, a);
                assert(starts_at(layout, ids, a));
                assert(a + covers(layout, images, videos, ids, from, a) <= upto);
            }
        } else if at.columns.len() > 0 {
            let a = choose|a: int|
                a <= n && #[trigger] starts_at(layout, ids, a) && at.columns.len() == a + covers(
                    layout,
                    images,
                    videos,
                    ids,
                    from,
                    a,
                );
            assert(starts_at(layout, ids, a));
        }
    }
}

/// A prompt that is in order is never refused.
pub proof fn prompts_in_order_are_placed(
    layout: PromptLayout,
    images: Seq<Thw>,
    videos: Seq<Thw>,
    ids: Seq<u32>,
    room: nat,
    from: (nat, nat),
)
    requires
        in_order(layout, images, videos, ids, room, from),
    ensures
        place_row(layout, images, videos, ids, room, from) is Ok,
{
    reveal_with_fuel(walk_to, 2);
    lemma_walk_in_order(layout, images, videos, ids, room, from, (ids.len() - 1) as nat);
}

proof fn lemma_in_order(
    layout: PromptLayout,
    images: Seq<Thw>,
    videos: Seq<Thw>,
    ids: Seq<u32>,
    room: nat,
    from: (nat, nat),
    upto: nat,
    a: nat,
)
    requires
        ids.len() <= room,
        upto < ids.len(),
        a <= upto,
        starts_at(layout, ids, a as int),
        walk_to(layout, images, videos, ids, room, from, upto) is Ok,
    ensures
        ({
            let at = walk_to(layout, images, videos, ids, room, from, upto)->Ok_0;
            &&& layout.merge > 0
            &&& ids[a as int] == layout.image_token || ids[a as int] == layout.video_token
            &&& ids[a as int] == layout.image_token ==> from.0 + pictures_before(
                layout,
                ids,
                layout.image_token,
                a,
            ) < images.len()
            &&& ids[a as int] == layout.video_token ==> from.1 + pictures_before(
                layout,
                ids,
                layout.video_token,
                a,
            ) < videos.len()
            &&& 0 < covers(layout, images, videos, ids, from, a as int)
            &&& a + covers(layout, images, videos, ids, from, a as int) <= room
            &&& a + covers(layout, images, videos, ids, from, a as int) <= at.columns.len()
            &&& walk_to(layout, images, videos, ids, room, from, (a - 1) as nat) is Ok
            &&& walk_to(layout, images, videos, ids, room, from, (a - 1) as nat)->Ok_0.columns.len()
                <= a
        }),
    decreases upto,
{
    if a < upto {
        let n = (upto - 1) as nat;
        lemma_in_order(layout, images, videos, ids, room, from, n, a);
        if ids[upto - 1] == layout.vision_start {
            lemma_placed(layout, images, videos, ids, room, from, upto);
        }
    } else {
        lemma_placed(layout, images, videos, ids, room, from, a);
        lemma_used_grids(layout, images, videos, ids, room, from, (a - 1) as nat);
    }
}

/// A prompt that is not in order is never placed, so that it is known from a prompt alone
/// whether it is refused.
pub proof fn placed_prompts_are_in_order(
    layout: PromptLayout,
    images: Seq<Thw>,
    videos: Seq<Thw>,
    ids: Seq<u32>,
    room: nat,
    from: (nat, nat),
)
    requires
        ids.len() <= room,
        place_row(layout, images, videos, ids, room, from) is Ok,
    ensures
        in_order(layout, images, videos, ids, room, from),
{
    reveal_with_fuel(walk_to, 2);
    let n = (ids.len() - 1) as nat;
    assert(walk_to(layout, images, videos, ids, room, from, n) is Ok);
    assert forall|a: int| #[trigger] starts_at(layout, ids, a) implies {
        &&& layout.merge > 0
        &&& ids[a] == layout.image_token || ids[a] == layout.video_token
        &&& ids[a] == layout.image_token ==> from.0 + pictures_before(
            layout,
            ids,
            layout.image_token,
            a as nat,
        ) < images.len()
        &&& ids[a] == layout.video_token ==> from.1 + pictures_before(
            layout,
            ids,
            layout.video_token,
            a as nat,
        ) < videos.len()
        &&& 0 < covers(layout, images, videos, ids, from, a)
        &&& a + covers(layout, images, videos, ids, from, a) <= room
    } by {
        lemma_in_order(layout, images, videos, ids, room, from, n, a as nat);
    }
    assert forall|a: int, b: int|
        a < b && #[trigger] starts_at(layout, ids, a) && #[trigger] starts_at(
            layout,
            ids,
            b,
        ) implies a + covers(layout, images, videos, ids, from, a) <= b by {
        lemma_in_order(layout, images, videos, ids, room, from, n, b as nat);
        lemma_in_order(layout, images, videos, ids, room, from, (b - 1) as nat, a as nat);
    }
}

/// A prompt that was placed says where to go on: behind the pictures that it used up, and at
/// the first position above all of its own.
pub proof fn placed_prompts_say_what_is_left(
    layout: PromptLayout,
    images: Seq<Thw>,
    videos: Seq<Thw>,
    ids: Seq<u32>,
    room: nat,
    from: (nat, nat),
)
    requires
        ids.len() <= room,
        place_row(layout, images, videos, ids, room, from) is Ok,
    ensures
        ({
            let w = place_row(layout, images, videos, ids, room, from)->Ok_0;
            &&& w.images == from.0 + pictures_before(layout, ids, layout.image_token, ids.len())
            &&& w.videos == from.1 + pictures_before(layout, ids, layout.video_token, ids.len())
            &&& next_free(w.columns, w.columns.len() as int, w.next)
        }),
{
    reveal_with_fuel(walk_to, 2);
    let n = (ids.len() - 1) as nat;
    assert(walk_to(layout, images, videos, ids, room, from, n) is Ok);
    lemma_used_grids(layout, images, videos, ids, room, from, n);
    place_row_inv(layout, images, videos, ids, room, from);
    lemma_next_free_walk(place_row(layout, images, videos, ids, room, from)->Ok_0, room);
}

/// The first fault of a prompt is the one that it is refused for: no token, a picture that is
/// announced by the last token, or at the first picture another kind, a missing grid, no merge
/// size, an empty grid, or a grid that does not fit.
pub proof fn a_refused_prompt_names_its_fault(
    layout: PromptLayout,
    images: Seq<Thw>,
    videos: Seq<Thw>,
    ids: Seq<u32>,
    room: nat,
    from: (nat, nat),
    a: nat,
)
    requires
        ids.len() > 0,
        ids.last() != layout.vision_start,
        starts_at(layout, ids, a as int),
        forall|b: int| b < a ==> !#[trigger] starts_at(layout, ids, b),
    ensures
        place_row(layout, images, videos, Seq::empty(), room, from) == Err::<Walk, ModelError>(
            ModelError::EmptyPrompt,
        ),
        place_row(layout, images, videos, ids.push(layout.vision_start), room, from) == Err::<
            Walk,
            ModelError,
        >(ModelError::DanglingVisionStart),
        ({
            let r = place_row(layout, images, videos, ids, room, from);
            let image = ids[a as int] == layout.image_token;
            let video = ids[a as int] == layout.video_token;
            let n = covers(layout, images, videos, ids, from, a as int);
            if !image && !video {
                r == Err::<Walk, ModelError>(ModelError::UnexpectedVisionToken)
            } else if image && from.0 >= images.len() {
                r == Err::<Walk, ModelError>(ModelError::MissingImageGrid)
            } else if video && from.1 >= videos.len() {
                r == Err::<Walk, ModelError>(ModelError::MissingVideoGrid)
            } else if layout.merge == 0 {
                r == Err::<Walk, ModelError>(ModelError::MergeSize)
            } else if n == 0 {
                r == Err::<Walk, ModelError>(ModelError::EmptyGrid)
            } else if a + n > room {
                r == Err::<Walk, ModelError>(ModelError::GridOverrun)
            } else {
                true
            }
        }),
{
    lemma_nothing_before(layout, images, videos, ids, room, from, (a - 1) as nat);
    lemma_none_before(layout, ids, a);
    let r = walk_to(layout, images, videos, ids, room, from, a);
    if r is Err {
        lemma_err_stays(layout, images, videos, ids, room, from, a, ids.len());
    }
}

proof fn lemma_none_before(layout: PromptLayout, ids: Seq<u32>, a: nat)
    requires
        forall|b: int| b < a ==> !#[trigger] starts_at(layout, ids, b),
    ensures
        pictures_before(layout, ids, layout.image_token, a) == 0,
        pictures_before(layout, ids, layout.video_token, a) == 0,
    decreases a,
{
    if a > 0 {
        lemma_none_before(layout, ids, (a - 1) as nat);
        assert(!starts_at(layout, ids, a - 1));
    }
}

proof fn lemma_nothing_before(
    layout: PromptLayout,
    images: Seq<Thw>,
    videos: Seq<Thw>,
    ids: Seq<u32>,
    room: nat,
    from: (nat, nat),
    upto: nat,
)
    requires
        upto < ids.len(),
        forall|b: int| b <= upto ==> !#[trigger] starts_at(layout, ids, b),
    ensures
        walk_to(layout, images, videos, ids, room, from, upto) == Ok::<Walk, ModelError>(
            Walk { columns: Seq::empty(), next: 0, images: from.0, videos: from.1 },
        ),
    decreases upto,
{
    if upto > 0 {
        lemma_nothing_before(layout, images, videos, ids, room, from, (upto - 1) as nat);
        assert(!starts_at(layout, ids, upto as int));
    }
}

} // verus!
