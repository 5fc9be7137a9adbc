//! Patch grids of images and videos.
use candle_core::Tensor;
use vstd::prelude::*;

use crate::error::ModelError;
use crate::tensor::{read_dims, read_matrix};

verus! {

/// The patch grid of one image or video: frames, patch rows, patch columns.
#[derive(Clone, Copy, Debug, PartialEq, Eq, Structural)]
pub struct Thw {
    pub t: u32,
    pub h: u32,
    pub w: u32,
}

impl Thw {
    /// How many tokens the language model sees for this grid once every square of
    /// `merge` by `merge` patches has become one token.
    pub open spec fn tokens(self, merge: u32) -> nat
        recommends
            merge > 0,
    {
        (self.t as nat) * ((self.h / merge) as nat) * ((self.w / merge) as nat)
    }
}

/// The grids that the rows of a matrix describe.
pub open spec fn grids_of(rows: Seq<Seq<u32>>) -> Seq<Thw> {
    rows.map_values(|r: Seq<u32>| Thw { t: r[0], h: r[1], w: r[2] })
}

/// Every row has exactly three numbers.
pub open spec fn three_wide(rows: Seq<Seq<u32>>) -> bool {
    forall|i: int| 0 <= i < rows.len() ==> (#[trigger] rows[i]).len() == 3
}

/// Reads rows of time, height and width; a row of any other width is refused.
pub fn parse_grid(rows: &Vec<Vec<u32>>) -> (r: Result<Vec<Thw>, ModelError>)
    ensures
        match r {
            Ok(g) => three_wide(rows.deep_view()) && g@ == grids_of(rows.deep_view()),
            Err(e) => !three_wide(rows.deep_view()) && e == ModelError::GridWidth,
        },
{
    let mut out: Vec<Thw> = Vec::new();
    for i in 0..rows.len()
        invariant
            out@.len() == i,
            forall|k: int| 0 <= k < i ==> (#[trigger] rows.deep_view()[k]).len() == 3,
            forall|k: int|
                0 <= k < i ==> #[trigger] out@[k] == grids_of(rows.deep_view())[k],
    {
        let row = &rows[i];
        assert(rows.deep_view()[i as int] == row.deep_view());
        assert(row.deep_view() =~= row@);
        if row.len() != 3 {
            return Err(ModelError::GridWidth);
        }
        out.push(Thw { t: row[0], h: row[1], w: row[2] });
    }
    assert(out@ =~= grids_of(rows.deep_view()));
    Ok(out)
}

/// The grids that a tensor describes.
pub open spec fn grids_in(t: Tensor) -> Seq<Thw> {
    grids_of(crate::tensor::matrix_of(t))
}

/// Reads a grid tensor: two dimensions, three numbers to a row.
pub fn read_grid(t: &Tensor) -> (r: Result<Vec<Thw>, ModelError>)
    ensures
        match r {
            Ok(g) => {
                &&& crate::tensor::holds_u32(*t, 2)
                &&& three_wide(crate::tensor::matrix_of(*t))
                &&& g@ == grids_in(*t)
            },
            Err(e) => {
                ||| crate::tensor::refused(*t, 2, e)
                ||| {
                    &&& e == ModelError::GridWidth
                    &&& crate::tensor::holds_u32(*t, 2)
                    &&& !three_wide(crate::tensor::matrix_of(*t))
                }
            },
        },
{
    let rows = match read_matrix(t) {
        Ok(rows) => rows,
        Err(e) => return Err(e),
    };
    parse_grid(&rows)
}

/// A tensor holds grids, three numbers or more to a row.
pub open spec fn is_wide(t: Tensor) -> bool {
    crate::tensor::holds_u32(t, 2) && crate::tensor::tensor_dims(t)[1] >= 3
}

/// A tensor is refused as a grid of three numbers or more to a row.
pub open spec fn refused_wide(t: Tensor, e: ModelError) -> bool {
    ||| crate::tensor::refused(t, 2, e)
    ||| {
        &&& e == ModelError::GridWidth
        &&& crate::tensor::holds_u32(t, 2)
        &&& crate::tensor::tensor_dims(t)[1] < 3
    }
}

/// The grids of rows that are wide enough, whatever follows the three sizes.
fn take_sizes(rows: &Vec<Vec<u32>>) -> (r: Vec<Thw>)
    requires
        forall|i: int| 0 <= i < rows.deep_view().len() ==> (#[trigger] rows.deep_view()[i]).len()
            >= 3,
    ensures
        r@ == grids_of(rows.deep_view()),
{
    let mut out: Vec<Thw> = Vec::new();
    let ghost want = grids_of(rows.deep_view());
    let mut i: usize = 0;
    while i < rows.len()
        invariant
            forall|i: int|
                0 <= i < rows.deep_view().len() ==> (#[trigger] rows.deep_view()[i]).len() >= 3,
            rows.deep_view().len() == rows@.len(),
            want == grids_of(rows.deep_view()),
            i <= rows@.len(),
            out@ == want.take(i as int),
        decreases rows@.len() - i,
    {
        let row = &rows[i];
        assert(rows.deep_view()[i as int] =~= row@);
        out.push(Thw { t: row[0], h: row[1], w: row[2] });
        assert(out@ =~= want.take(i + 1));
        i = i + 1;
    }
    assert(want.take(i as int) =~= want);
    out
}

/// Reads the first three numbers of every row of a grid tensor.
pub fn read_wide_grid(t: &Tensor) -> (r: Result<Vec<Thw>, ModelError>)
    ensures
        match r {
            Ok(g) => is_wide(*t) && g@ == grids_in(*t),
            Err(e) => refused_wide(*t, e),
        },
{
    let rows = match read_matrix(t) {
        Ok(rows) => rows,
        Err(e) => return Err(e),
    };
    let dims = read_dims(t);
    if dims[1] < 3 {
        return Err(ModelError::GridWidth);
    }
    Ok(take_sizes(&rows))
}

impl Thw {
    /// The patches of a grid.
    pub open spec fn patches(self) -> nat {
        (self.t as nat) * (self.h as nat) * (self.w as nat)
    }

    /// How many rows of features a grid ends up as.
    pub open spec fn feature_rows(self, merge: u32) -> nat {
        self.patches() / ((merge as nat) * (merge as nat))
    }
}

/// How many rows of features each grid ends up as.
pub open spec fn feature_split(grids: Seq<Thw>, merge: u32) -> Seq<nat> {
    grids.map_values(|g: Thw| g.feature_rows(merge))
}

/// The number of patches of every grid is an unsigned 32-bit number.
pub open spec fn patches_fit(grids: Seq<Thw>) -> bool {
    forall|i: int| 0 <= i < grids.len() ==> (#[trigger] grids[i]).patches() <= u32::MAX
}

/// Sizes as natural numbers.
pub open spec fn sizes(s: Seq<usize>) -> Seq<nat> {
    s.map_values(|x: usize| x as nat)
}

/// How many rows of features each grid ends up as. Refuses a grid with more patches than 32
/// bits count.
pub fn split_features(grids: &Vec<Thw>, merge: u32) -> (r: Result<Vec<usize>, ModelError>)
    requires
        merge > 0,
    ensures
        match r {
            Ok(v) => patches_fit(grids@) && sizes(v@) == feature_split(grids@, merge),
            Err(e) => !patches_fit(grids@) && e == ModelError::Overflow,
        },
{
    let mut out: Vec<usize> = Vec::new();
    let ghost want = feature_split(grids@, merge);
    proof {
        assert(0 < (merge as int) * (merge as int) <= u64::MAX) by (nonlinear_arith)
            requires
                0 < merge <= 0xffff_ffff,
        ;
    }
    let square: u64 = merge as u64 * merge as u64;
    assert(sizes(out@) =~= want.take(0));
    let mut i: usize = 0;
    while i < grids.len()
        invariant
            merge > 0,
            square == (merge as nat) * (merge as nat),
            square > 0,
            want == feature_split(grids@, merge),
            i <= grids@.len(),
            forall|k: int| 0 <= k < i ==> (#[trigger] grids@[k]).patches() <= u32::MAX,
            sizes(out@) == want.take(i as int),
        decreases grids@.len() - i,
    {
        let g = grids[i];
        proof {
            crate::rope::lemma_u128_product(g.t, g.h, g.w);
        }
        let n: u128 = g.t as u128 * g.h as u128 * g.w as u128;
        if n > u32::MAX as u128 {
            return Err(ModelError::Overflow);
        }
        let rows: u64 = n as u64 / square;
        proof {
            vstd::arithmetic::div_mod::lemma_div_is_ordered_by_denominator(
                n as int,
                1,
                square as int,
            );
        }
        let ghost was = out@;
        out.push(rows as usize);
        assert(sizes(out@) =~= sizes(was).push(rows as nat));
        assert(sizes(out@) =~= want.take(i + 1));
        i = i + 1;
    }
    assert(want.take(i as int) =~= want);
    Ok(out)
}

/// The lengths of the frames of one grid.
pub open spec fn frame_lengths(g: Thw) -> Seq<usize> {
    Seq::new(g.t as nat, |i: int| (g.h * g.w) as usize)
}

/// The lengths of all frames, in order: attention stays inside a frame.
pub open spec fn frame_chunks(grids: Seq<Thw>) -> Seq<usize>
    decreases grids.len(),
{
    if grids.len() == 0 {
        Seq::empty()
    } else {
        frame_chunks(grids.drop_last()) + frame_lengths(grids.last())
    }
}

/// No frame has more patches than can be indexed.
pub open spec fn frames_fit(grids: Seq<Thw>) -> bool {
    forall|i: int| 0 <= i < grids.len() ==> (#[trigger] grids[i]).h * grids[i].w <= usize::MAX
}

/// The lengths of all frames, in order. Refuses a frame with more patches than can be
/// indexed.
pub fn chunk_frames(grids: &Vec<Thw>) -> (r: Result<Vec<usize>, ModelError>)
    ensures
        match r {
            Ok(v) => frames_fit(grids@) && v@ == frame_chunks(grids@),
            Err(e) => !frames_fit(grids@) && e == ModelError::Overflow,
        },
{
    let mut out: Vec<usize> = Vec::new();
    let mut i: usize = 0;
    assert(out@ =~= frame_chunks(grids@.take(0)));
    while i < grids.len()
        invariant
            i <= grids@.len(),
            forall|k: int| 0 <= k < i ==> (#[trigger] grids@[k]).h * grids@[k].w <= usize::MAX,
            out@ == frame_chunks(grids@.take(i as int)),
        decreases grids@.len() - i,
    {
        let g = grids[i];
        proof {
            assert(0 <= g.h * g.w <= u64::MAX) by (nonlinear_arith)
                requires
                    0 <= g.h <= 0xffff_ffff,
                    0 <= g.w <= 0xffff_ffff,
            ;
        }
        let area: u64 = g.h as u64 * g.w as u64;
        if area > usize::MAX as u64 {
            return Err(ModelError::Overflow);
        }
        let ghost before = out@;
        let ghost want = frame_lengths(g);
        assert(before =~= before + want.take(0));
        let mut k: u32 = 0;
        while k < g.t
            invariant
                want == frame_lengths(g),
                area == g.h * g.w,
                area <= usize::MAX,
                k <= g.t,
                out@ == before + want.take(k as int),
            decreases g.t - k,
        {
            out.push(area as usize);
            assert(out@ =~= before + want.take(k + 1));
            k = k + 1;
        }
        assert(want.take(k as int) =~= want);
        assert(grids@.take(i + 1).drop_last() =~= grids@.take(i as int));
        i = i + 1;
    }
    assert(grids@.take(i as int) =~= grids@);
    Ok(out)
}

/// The longest side of all grids, zero where there is none.
pub open spec fn longest_side(grids: Seq<Thw>) -> u32
    decreases grids.len(),
{
    if grids.len() == 0 {
        0
    } else {
        let g = grids.last();
        let side = if g.h >= g.w {
            g.h
        } else {
            g.w
        };
        if side >= longest_side(grids.drop_last()) {
            side
        } else {
            longest_side(grids.drop_last())
        }
    }
}

/// The longest side of all grids.
pub fn find_longest_side(grids: &Vec<Thw>) -> (r: u32)
    ensures
        r == longest_side(grids@),
{
    let mut best: u32 = 0;
    let mut i: usize = 0;
    while i < grids.len()
        invariant
            i <= grids@.len(),
            best == longest_side(grids@.take(i as int)),
        decreases grids@.len() - i,
    {
        assert(grids@.take(i + 1).drop_last() =~= grids@.take(i as int));
        let g = grids[i];
        let side = if g.h >= g.w {
            g.h
        } else {
            g.w
        };
        if side >= best {
            best = side;
        }
        i = i + 1;
    }
    assert(grids@.take(i as int) =~= grids@);
    best
}

/// No side is longer than the longest.
pub proof fn no_side_is_longer(grids: Seq<Thw>, i: int)
    requires
        0 <= i < grids.len(),
    ensures
        grids[i].h <= longest_side(grids),
        grids[i].w <= longest_side(grids),
    decreases grids.len(),
{
    if i < grids.len() - 1 {
        no_side_is_longer(grids.drop_last(), i);
    }
}

/// A picture that fills whole squares has as many feature rows as the language model sees
/// tokens for it.
pub proof fn features_match_tokens(g: Thw, merge: u32)
    requires
        merge > 0,
        g.h % merge == 0,
        g.w % merge == 0,
    ensures
        g.feature_rows(merge) == g.tokens(merge),
{
    let m = merge as int;
    let a = (g.h / merge) as int;
    let b = (g.w / merge) as int;
    let t = g.t as int;
    vstd::arithmetic::div_mod::lemma_fundamental_div_mod(g.h as int, m);
    vstd::arithmetic::div_mod::lemma_fundamental_div_mod(g.w as int, m);
    let mm = m * m;
    assert(mm > 0) by (nonlinear_arith)
        requires
            m > 0,
            mm == m * m,
    ;
    assert(t * (m * a) * (m * b) == (t * a * b) * (m * m)) by (nonlinear_arith);
    vstd::arithmetic::div_mod::lemma_div_by_multiple(t * a * b, mm);
}

/// A row of a grid tensor reads as frames, patch rows and patch columns, in this order; what
/// follows them in a longer row is passed over.
pub proof fn a_row_is_time_height_width(t: Tensor, i: int)
    requires
        is_wide(t),
        0 <= i < crate::tensor::tensor_dims(t)[0],
    ensures
        ({
            let e = crate::tensor::tensor_elements(t);
            let n = crate::tensor::tensor_dims(t)[1] as int;
            &&& grids_in(t).len() == crate::tensor::tensor_dims(t)[0]
            &&& 0 <= i * n && i * n + n <= e.len()
            &&& grids_in(t)[i].t == e[i * n]
            &&& grids_in(t)[i].h == e[i * n + 1]
            &&& grids_in(t)[i].w == e[i * n + 2]
        }),
{
    let dims = crate::tensor::tensor_dims(t);
    let e = crate::tensor::tensor_elements(t);
    let n = dims[1] as int;
    assert(dims =~= seq![dims[0], dims[1]]);
    crate::tensor::lemma_volume2(dims[0], dims[1]);
    assert(0 <= i * n && i * n + n <= dims[0] * n) by (nonlinear_arith)
        requires
            0 <= i < dims[0],
            n >= 3,
    ;
    assert(i * n + 0 == i * n);
    assert(0 <= e[i * n + 0] <= u32::MAX);
    assert(0 <= e[i * n + 1] <= u32::MAX);
    assert(0 <= e[i * n + 2] <= u32::MAX);
}

/// The language model sees one token for each whole square of patches: `down` squares fit
/// below one another and `across` side by side, in each frame.
pub proof fn tokens_are_whole_squares(g: Thw, merge: u32, down: nat, across: nat)
    requires
        merge > 0,
        down * merge <= g.h < (down + 1) * merge,
        across * merge <= g.w < (across + 1) * merge,
    ensures
        g.tokens(merge) == g.t * down * across,
{
    let m = merge as int;
    let h = g.h as int;
    let w = g.w as int;
    let rh = h - down * m;
    let rw = w - across * m;
    assert((down + 1) * m == down * m + m && (across + 1) * m == across * m + m)
        by (nonlinear_arith);
    vstd::arithmetic::div_mod::lemma_fundamental_div_mod_converse(h, m, down as int, rh);
    vstd::arithmetic::div_mod::lemma_fundamental_div_mod_converse(w, m, across as int, rw);
}

/// A picture becomes as many rows of features as squares of `merge` by `merge` can be made
/// from all its patches; a rest that fills no square is lost.
pub proof fn features_are_squares_of_patches(grids: Seq<Thw>, merge: u32, i: int, rows: nat)
    requires
        merge > 0,
        0 <= i < grids.len(),
        rows * (merge * merge) <= grids[i].t * grids[i].h * grids[i].w < (rows + 1) * (merge
            * merge),
    ensures
        feature_split(grids, merge).len() == grids.len(),
        feature_split(grids, merge)[i] == rows,
{
    let g = grids[i];
    let n = g.t * g.h * g.w;
    let d = merge * merge;
    assert((rows + 1) * d == rows * d + d) by (nonlinear_arith);
    vstd::arithmetic::div_mod::lemma_fundamental_div_mod_converse(n, d, rows as int, n - rows * d);
}

/// How many frames the first `n` of some pictures have.
pub open spec fn frames_up_to(grids: Seq<Thw>, n: nat) -> nat
    decreases n,
{
    if n == 0 {
        0
    } else {
        frames_up_to(grids, (n - 1) as nat) + grids[n - 1].t as nat
    }
}

pub(crate) proof fn lemma_frames_up_to(grids: Seq<Thw>, head: Seq<Thw>, n: nat)
    requires
        n <= head.len() <= grids.len(),
        forall|i: int| 0 <= i < head.len() ==> #[trigger] head[i] == grids[i],
    ensures
        frames_up_to(grids, n) == frames_up_to(head, n),
    decreases n,
{
    if n > 0 {
        lemma_frames_up_to(grids, head, (n - 1) as nat);
        assert(head[n - 1] == grids[n - 1]);
    }
}

proof fn lemma_chunk_count(grids: Seq<Thw>)
    ensures
        frame_chunks(grids).len() == frames_up_to(grids, grids.len()),
    decreases grids.len(),
{
    if grids.len() > 0 {
        let head = grids.drop_last();
        lemma_chunk_count(head);
        lemma_frames_up_to(grids, head, head.len());
    }
}

/// Attention has a chunk for every frame of every picture, in order, and each takes in the
/// patches of its frame.
pub proof fn every_frame_is_a_chunk(grids: Seq<Thw>, i: int, f: int)
    requires
        frames_fit(grids),
        0 <= i < grids.len(),
        0 <= f < grids[i].t,
    ensures
        frame_chunks(grids).len() == frames_up_to(grids, grids.len()),
        frames_up_to(grids, i as nat) + f < frame_chunks(grids).len(),
        frame_chunks(grids)[frames_up_to(grids, i as nat) + f] == grids[i].h * grids[i].w,
    decreases grids.len(),
{
    let head = grids.drop_last();
    lemma_chunk_count(grids);
    lemma_chunk_count(head);
    lemma_frames_up_to(grids, head, head.len());
    let g = grids[i];
    assert(0 <= g.h * g.w) by (nonlinear_arith)
        requires
            g.h >= 0,
            g.w >= 0,
    ;
    assert(grids[i].h * grids[i].w <= usize::MAX);
    if i < head.len() {
        assert(frames_fit(head)) by {
            assert forall|k: int| 0 <= k < head.len() implies (#[trigger] head[k]).h * head[k].w
                <= usize::MAX by {
                assert(grids[k].h * grids[k].w <= usize::MAX);
            }
        }
        every_frame_is_a_chunk(head, i, f);
        lemma_frames_up_to(grids, head, i as nat);
    }
}

/// The longest side is the side of a picture, where there is any.
pub proof fn some_side_is_longest(grids: Seq<Thw>)
    requires
        grids.len() > 0,
    ensures
        exists|i: int|
            0 <= i < grids.len() && ((#[trigger] grids[i]).h == longest_side(grids) || grids[i].w
                == longest_side(grids)),
    decreases grids.len(),
{
    let head = grids.drop_last();
    let n = head.len() as int;
    if head.len() == 0 {
        reveal_with_fuel(longest_side, 2);
        assert(grids[0].h == longest_side(grids) || grids[0].w == longest_side(grids));
    } else {
        some_side_is_longest(head);
        let i = choose|i: int|
            0 <= i < head.len() && ((#[trigger] head[i]).h == longest_side(head) || head[i].w
                == longest_side(head));
        assert(grids[i] == head[i]);
        assert(grids[n] == grids.last());
    }
}

/// Pictures are counted in 32 bits, and frames as far as memory goes: one that has more
/// patches is refused, and no other is.
pub proof fn countable_pictures_are_accepted(grids: Seq<Thw>)
    ensures
        patches_fit(grids) <==> forall|i: int|
            0 <= i < grids.len() ==> (#[trigger] grids[i]).t * grids[i].h * grids[i].w
                <= 0xffff_ffff,
        frames_fit(grids) <==> forall|i: int|
            0 <= i < grids.len() ==> (#[trigger] grids[i]).h * grids[i].w <= usize::MAX,
{
}

} // verus!
