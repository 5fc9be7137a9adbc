//! The order in which the patches of a picture are laid out.
//!
//! A picture's patches are not taken row by row. Each square of `merge` by `merge`
//! neighbouring patches is laid out in one run, so that the run can be merged into a
//! single token; the squares themselves follow row by row, and frames follow each other.
use vstd::prelude::*;

use crate::error::ModelError;
use crate::grid::Thw;

verus! {

/// The patch row of the `k`-th patch, where a frame has `down` by `across` squares.
pub open spec fn patch_row(k: int, down: int, across: int, merge: int) -> int {
    ((k / (merge * merge)) / across % down) * merge + (k / merge) % merge
}

/// The patch column of the `k`-th patch, where a row of squares has `across` of them.
pub open spec fn patch_column(k: int, across: int, merge: int) -> int {
    ((k / (merge * merge)) % across) * merge + k % merge
}

/// The number of patches of `frames` frames of `down` by `across` squares.
pub open spec fn laid_out(frames: nat, down: nat, across: nat, merge: nat) -> nat {
    frames * (down * across) * (merge * merge)
}

/// How many times a picture's single frame is laid out: once for each frame, and once for a
/// picture that claims no frame.
pub open spec fn copies(t: u32) -> nat {
    if t > 1 {
        t as nat
    } else {
        1
    }
}

/// Row and column of every patch of a picture, in layout order. Rows and columns that do
/// not fill a square are left out.
pub open spec fn coordinates(g: Thw, merge: u32) -> Seq<(nat, nat)> {
    let down = (g.h / merge) as int;
    let across = (g.w / merge) as int;
    Seq::new(
        laid_out(copies(g.t), down as nat, across as nat, merge as nat),
        |k: int|
            (
                patch_row(k, down, across, merge as int) as nat,
                patch_column(k, across, merge as int) as nat,
            ),
    )
}

/// The coordinates of several pictures, one after the other.
pub open spec fn all_coordinates(grids: Seq<Thw>, merge: u32) -> Seq<(nat, nat)>
    decreases grids.len(),
{
    if grids.len() == 0 {
        Seq::empty()
    } else {
        all_coordinates(grids.drop_last(), merge) + coordinates(grids.last(), merge)
    }
}

/// The patches of a picture fill whole squares, frame by frame.
pub open spec fn fills_squares(g: Thw, merge: u32) -> bool {
    copies(g.t) * (g.h as nat) * (g.w as nat) == laid_out(
        g.t as nat,
        (g.h / merge) as nat,
        (g.w / merge) as nat,
        merge as nat,
    )
}

/// For every patch of a picture in layout order, its index in a frame taken row by row.
pub open spec fn row_order(g: Thw, merge: u32) -> Seq<nat> {
    let down = (g.h / merge) as int;
    let across = (g.w / merge) as int;
    Seq::new(
        laid_out(g.t as nat, down as nat, across as nat, merge as nat),
        |k: int|
            (patch_row(k, down, across, merge as int) * g.w + patch_column(
                k,
                across,
                merge as int,
            )) as nat,
    )
}

/// The place of the patch in row `r` and column `c` of frame `f`.
pub open spec fn place_of(
    f: int,
    r: int,
    c: int,
    down: int,
    across: int,
    merge: int,
) -> int {
    (((f * down + r / merge) * across + c / merge) * merge + r % merge) * merge + c % merge
}

proof fn lemma_split(a: int, b: int, d: int)
    requires
        d > 0,
        0 <= b < d,
    ensures
        (a * d + b) / d == a,
        (a * d + b) % d == b,
{
    vstd::arithmetic::div_mod::lemma_fundamental_div_mod_converse(a * d + b, d, a, b);
}

proof fn lemma_div_twice(k: int, merge: int)
    requires
        merge > 0,
        0 <= k,
    ensures
        k / (merge * merge) == (k / merge) / merge,
        merge * merge > 0,
{
    assert(merge * merge > 0) by (nonlinear_arith)
        requires
            merge > 0,
    ;
    vstd::arithmetic::div_mod::lemma_div_denominator(k, merge, merge);
}

/// Counting frames first leaves the place inside the frame.
proof fn lemma_frame_first(
    f: int,
    rb: int,
    cb: int,
    ri: int,
    ci: int,
    d: int,
    a: int,
    m: int,
)
    ensures
        (((f * d + rb) * a + cb) * m + ri) * m + ci == f * ((d * a) * (m * m)) + (((rb * a + cb)
            * m + ri) * m + ci),
{
    let da = d * a;
    assert((f * d + rb) * a == f * da + rb * a) by (nonlinear_arith)
        requires
            da == d * a,
    ;
    let s = rb * a + cb;
    assert((f * da + s) * m == f * (da * m) + s * m) by (nonlinear_arith);
    let l = s * m + ri;
    assert((f * (da * m) + l) * m == f * ((da * m) * m) + l * m) by (nonlinear_arith);
    assert((da * m) * m == da * (m * m)) by (nonlinear_arith);
}

/// Every patch is laid out: the patch in row `r` and column `c` of frame `f` stands at
/// `place_of` it, inside the layout.
pub proof fn every_patch_is_laid_out(
    frames: nat,
    down: nat,
    across: nat,
    merge: nat,
    f: int,
    r: int,
    c: int,
)
    requires
        merge > 0,
        0 <= f < frames,
        0 <= r < down * merge,
        0 <= c < across * merge,
    ensures
        ({
            let k = place_of(f, r, c, down as int, across as int, merge as int);
            &&& 0 <= k < laid_out(frames, down, across, merge)
            &&& patch_row(k, down as int, across as int, merge as int) == r
            &&& patch_column(k, across as int, merge as int) == c
            &&& k / ((down * across) * (merge * merge)) as int == f
        }),
{
    let m = merge as int;
    let d = down as int;
    let a = across as int;
    let (rb, ri) = (r / m, r % m);
    let (cb, ci) = (c / m, c % m);
    vstd::arithmetic::div_mod::lemma_fundamental_div_mod(r, m);
    vstd::arithmetic::div_mod::lemma_fundamental_div_mod(c, m);
    assert(0 <= rb < d && 0 <= ri < m) by (nonlinear_arith)
        requires
            0 <= r < d * m,
            m > 0,
            rb == r / m,
            ri == r % m,
    ;
    assert(0 <= cb < a && 0 <= ci < m) by (nonlinear_arith)
        requires
            0 <= c < a * m,
            m > 0,
            cb == c / m,
            ci == c % m,
    ;
    let band = f * d + rb;
    let square = band * a + cb;
    let line = square * m + ri;
    let k = line * m + ci;
    assert(0 <= band < frames * d) by (nonlinear_arith)
        requires
            0 <= f < frames,
            0 <= rb < d,
            band == f * d + rb,
    ;
    assert(0 <= square < (frames * d) * a) by (nonlinear_arith)
        requires
            0 <= band < frames * d,
            0 <= cb < a,
            square == band * a + cb,
    ;
    assert(0 <= line < ((frames * d) * a) * m) by (nonlinear_arith)
        requires
            0 <= square < (frames * d) * a,
            0 <= ri < m,
            line == square * m + ri,
    ;
    assert(0 <= k < (((frames * d) * a) * m) * m) by (nonlinear_arith)
        requires
            0 <= line < ((frames * d) * a) * m,
            0 <= ci < m,
            k == line * m + ci,
    ;
    assert((((frames * d) * a) * m) * m == (frames * (d * a)) * (m * m)) by (nonlinear_arith);
    lemma_split(line, ci, m);
    lemma_split(square, ri, m);
    lemma_split(band, cb, a);
    lemma_split(f, rb, d);
    lemma_div_twice(k, m);
    assert(rb * m == m * rb && cb * m == m * cb) by (nonlinear_arith);
    // the frame is what is left after dividing by the four sizes in turn
    let da = d * a;
    let frame = da * (m * m);
    let rest = ((rb * a + cb) * m + ri) * m + ci;
    lemma_frame_first(f, rb, cb, ri, ci, d, a, m);
    assert(0 <= rb * a + cb < da) by (nonlinear_arith)
        requires
            0 <= rb < d,
            0 <= cb < a,
            da == d * a,
    ;
    let s = rb * a + cb;
    assert(0 <= s * m + ri < da * m) by (nonlinear_arith)
        requires
            0 <= s < da,
            0 <= ri < m,
    ;
    let l = s * m + ri;
    assert(0 <= l * m + ci < (da * m) * m) by (nonlinear_arith)
        requires
            0 <= l < da * m,
            0 <= ci < m,
    ;
    assert((da * m) * m == frame) by (nonlinear_arith)
        requires
            frame == da * (m * m),
    ;
    lemma_split(f, rest, frame);
}

/// No two places hold the same patch: a place is determined by its frame, row and column,
/// which lie inside the picture.
pub proof fn place_is_determined(frames: nat, down: nat, across: nat, merge: nat, k: int)
    requires
        merge > 0,
        0 <= k < laid_out(frames, down, across, merge),
    ensures
        ({
            let f = k / ((down * across) * (merge * merge)) as int;
            let r = patch_row(k, down as int, across as int, merge as int);
            let c = patch_column(k, across as int, merge as int);
            &&& 0 <= f < frames
            &&& 0 <= r < down * merge
            &&& 0 <= c < across * merge
            &&& place_of(f, r, c, down as int, across as int, merge as int) == k
        }),
{
    let m = merge as int;
    let d = down as int;
    let a = across as int;
    let frame = (d * a) * (m * m);
    assert(d > 0 && a > 0 && frames > 0) by (nonlinear_arith)
        requires
            0 < frames * (d * a) * (m * m),
            d >= 0,
            a >= 0,
            frames >= 0,
    ;
    lemma_div_twice(k, m);
    let ci = k % m;
    let line = k / m;
    let ri = line % m;
    let square = line / m;
    let cb = square % a;
    let band = square / a;
    let rb = band % d;
    let f = band / d;
    vstd::arithmetic::div_mod::lemma_fundamental_div_mod(k, m);
    vstd::arithmetic::div_mod::lemma_fundamental_div_mod(line, m);
    vstd::arithmetic::div_mod::lemma_fundamental_div_mod(square, a);
    vstd::arithmetic::div_mod::lemma_fundamental_div_mod(band, d);
    vstd::arithmetic::div_mod::lemma_mod_bound(k, m);
    vstd::arithmetic::div_mod::lemma_mod_bound(line, m);
    vstd::arithmetic::div_mod::lemma_mod_bound(square, a);
    vstd::arithmetic::div_mod::lemma_mod_bound(band, d);
    vstd::arithmetic::div_mod::lemma_div_pos_is_pos(k, m);
    vstd::arithmetic::div_mod::lemma_div_pos_is_pos(line, m);
    vstd::arithmetic::div_mod::lemma_div_pos_is_pos(square, a);
    vstd::arithmetic::div_mod::lemma_div_pos_is_pos(band, d);
    let r = rb * m + ri;
    let c = cb * m + ci;
    assert(patch_row(k, d, a, m) == r);
    assert(patch_column(k, a, m) == c);
    lemma_split(rb, ri, m);
    lemma_split(cb, ci, m);
    assert(0 <= r < d * m) by (nonlinear_arith)
        requires
            r == rb * m + ri,
            0 <= rb < d,
            0 <= ri < m,
    ;
    assert(0 <= c < a * m) by (nonlinear_arith)
        requires
            c == cb * m + ci,
            0 <= cb < a,
            0 <= ci < m,
    ;
    assert(k == (((f * d + rb) * a + cb) * m + ri) * m + ci) by (nonlinear_arith)
        requires
            k == m * line + ci,
            line == m * square + ri,
            square == a * band + cb,
            band == d * f + rb,
    ;
    // the frame
    let rest = ((rb * a + cb) * m + ri) * m + ci;
    lemma_frame_first(f, rb, cb, ri, ci, d, a, m);
    let da = d * a;
    let s = rb * a + cb;
    assert(0 <= s < da) by (nonlinear_arith)
        requires
            0 <= rb < d,
            0 <= cb < a,
            da == d * a,
            s == rb * a + cb,
    ;
    let l = s * m + ri;
    assert(0 <= l < da * m) by (nonlinear_arith)
        requires
            0 <= s < da,
            0 <= ri < m,
            l == s * m + ri,
    ;
    assert(0 <= l * m + ci < (da * m) * m) by (nonlinear_arith)
        requires
            0 <= l < da * m,
            0 <= ci < m,
    ;
    assert((da * m) * m == frame) by (nonlinear_arith)
        requires
            frame == da * (m * m),
    ;
    lemma_split(f, rest, frame);
    assert(f < frames) by (nonlinear_arith)
        requires
            f * frame + rest < frames * (d * a) * (m * m),
            frame == (d * a) * (m * m),
            frame > 0,
            rest >= 0,
    ;
}

/// A run of `merge * merge` neighbours in the layout is one square of the picture.
pub proof fn runs_are_squares(down: nat, across: nat, merge: nat, k: int, l: int)
    requires
        merge > 0,
        down > 0,
        across > 0,
        0 <= k,
        0 <= l,
        k / (merge * merge) as int == l / (merge * merge) as int,
    ensures
        patch_row(k, down as int, across as int, merge as int) / merge as int == patch_row(
            l,
            down as int,
            across as int,
            merge as int,
        ) / merge as int,
        patch_column(k, across as int, merge as int) / merge as int == patch_column(
            l,
            across as int,
            merge as int,
        ) / merge as int,
{
    let m = merge as int;
    let s = k / (m * m);
    vstd::arithmetic::div_mod::lemma_mod_bound(k / m, m);
    vstd::arithmetic::div_mod::lemma_mod_bound(l / m, m);
    vstd::arithmetic::div_mod::lemma_mod_bound(k, m);
    vstd::arithmetic::div_mod::lemma_mod_bound(l, m);
    lemma_split(s / across as int % down as int, (k / m) % m, m);
    lemma_split(s / across as int % down as int, (l / m) % m, m);
    lemma_split(s % across as int, k % m, m);
    lemma_split(s % across as int, l % m, m);
}

proof fn lemma_layout_product(frames: nat, down: nat, across: nat, merge: nat)
    ensures
        laid_out(frames, down, across, merge) == frames * (down * merge) * (across * merge),
{
    assert(frames * (down * across) * (merge * merge) == frames * (down * merge) * (across
        * merge)) by (nonlinear_arith);
}

/// The squares of a side never cover more patches than the side has.
proof fn lemma_squares_fit(side: u32, merge: u32)
    requires
        merge > 0,
    ensures
        (side / merge) * merge <= side,
{
    vstd::arithmetic::div_mod::lemma_fundamental_div_mod(side as int, merge as int);
    assert((side / merge) * merge == merge * (side / merge)) by (nonlinear_arith);
}

/// Counts the patches of `frames` frames of a picture, unless there are too many to index.
fn layout_len(frames: u32, g: Thw, merge: u32) -> (r: Option<usize>)
    requires
        merge > 0,
    ensures
        match r {
            Some(n) => n == laid_out(
                frames as nat,
                (g.h / merge) as nat,
                (g.w / merge) as nat,
                merge as nat,
            ),
            None => laid_out(
                frames as nat,
                (g.h / merge) as nat,
                (g.w / merge) as nat,
                merge as nat,
            ) > usize::MAX,
        },
{
    proof {
        lemma_squares_fit(g.h, merge);
        lemma_squares_fit(g.w, merge);
        lemma_layout_product(
            frames as nat,
            (g.h / merge) as nat,
            (g.w / merge) as nat,
            merge as nat,
        );
    }
    let high: u32 = (g.h / merge) * merge;
    let wide: u32 = (g.w / merge) * merge;
    proof {
        crate::rope::lemma_u128_product(frames, high, wide);
    }
    let n: u128 = frames as u128 * high as u128 * wide as u128;
    if n > usize::MAX as u128 {
        None
    } else {
        Some(n as usize)
    }
}

/// A layout that is not empty has no empty side, and one square fits into it.
proof fn lemma_nonempty_layout(frames: nat, down: nat, across: nat, merge: nat)
    requires
        laid_out(frames, down, across, merge) > 0,
    ensures
        frames > 0,
        down > 0,
        across > 0,
        merge > 0,
        0 < merge * merge <= laid_out(frames, down, across, merge),
{
    let sides = frames * (down * across);
    let square = merge * merge;
    assert(sides > 0 && square > 0 && square <= sides * square) by (nonlinear_arith)
        requires
            sides * square > 0,
            sides >= 0,
            square >= 0,
    ;
    assert(frames > 0 && down > 0 && across > 0) by (nonlinear_arith)
        requires
            frames * (down * across) > 0,
    ;
    assert(merge > 0) by (nonlinear_arith)
        requires
            merge * merge > 0,
    ;
}

/// Row and column of patch `k` of a layout of `n` patches.
fn locate(k: usize, n: usize, frames: u32, g: Thw, merge: u32) -> (r: (u32, u32))
    requires
        merge > 0,
        k < n,
        n == laid_out(frames as nat, (g.h / merge) as nat, (g.w / merge) as nat, merge as nat),
    ensures
        r.0 == patch_row(k as int, (g.h / merge) as int, (g.w / merge) as int, merge as int),
        r.1 == patch_column(k as int, (g.w / merge) as int, merge as int),
        r.0 < g.h,
        r.1 < g.w,
{
    let down: u32 = g.h / merge;
    let across: u32 = g.w / merge;
    proof {
        lemma_nonempty_layout(frames as nat, down as nat, across as nat, merge as nat);
        place_is_determined(frames as nat, down as nat, across as nat, merge as nat, k as int);
        lemma_squares_fit(g.h, merge);
        lemma_squares_fit(g.w, merge);
        assert((merge as int) * (merge as int) == (merge as nat) * (merge as nat));
    }
    let m: usize = merge as usize;
    let square: usize = k / (m * m);
    let band: usize = (square / across as usize) % down as usize;
    let column: usize = square % across as usize;
    proof {
        vstd::arithmetic::div_mod::lemma_mod_bound(
            (square / across as usize) as int,
            down as int,
        );
        vstd::arithmetic::div_mod::lemma_mod_bound((k / m) as int, m as int);
        vstd::arithmetic::div_mod::lemma_mod_bound(k as int, m as int);
        vstd::arithmetic::div_mod::lemma_mod_bound(square as int, across as int);
        assert(0 <= band * m && 0 <= column * m) by (nonlinear_arith)
            requires
                band >= 0,
                column >= 0,
                m >= 0,
        ;
    }
    let row: usize = band * m + (k / m) % m;
    let col: usize = column * m + k % m;
    (row as u32, col as u32)
}

/// The coordinates that a pair of index lists holds.
pub open spec fn pairs(rows: Seq<u32>, columns: Seq<u32>) -> Seq<(nat, nat)> {
    Seq::new(rows.len(), |k: int| (rows[k] as nat, columns[k] as nat))
}

/// Appends row and column of every patch of a picture. Refuses a picture with more patches
/// than can be indexed.
pub fn push_coordinates(
    g: Thw,
    merge: u32,
    rows: &mut Vec<u32>,
    columns: &mut Vec<u32>,
) -> (r: Result<(), ModelError>)
    requires
        merge > 0,
        old(rows)@.len() == old(columns)@.len(),
    ensures
        match r {
            Ok(_) => {
                &&& coordinates(g, merge).len() <= usize::MAX
                &&& final(rows)@.len() == final(columns)@.len()
                &&& pairs(final(rows)@, final(columns)@) == pairs(old(rows)@, old(columns)@)
                    + coordinates(g, merge)
            },
            Err(e) => coordinates(g, merge).len() > usize::MAX && e == ModelError::Overflow,
        },
{
    let frames: u32 = if g.t > 1 {
        g.t
    } else {
        1
    };
    let n: usize = match layout_len(frames, g, merge) {
        Some(n) => n,
        None => return Err(ModelError::Overflow),
    };
    let ghost want = coordinates(g, merge);
    let ghost before = pairs(rows@, columns@);
    assert(before =~= before + want.take(0));
    let mut k: usize = 0;
    while k < n
        invariant
            merge > 0,
            want == coordinates(g, merge),
            frames == copies(g.t),
            n == laid_out(
                frames as nat,
                (g.h / merge) as nat,
                (g.w / merge) as nat,
                merge as nat,
            ),
            k <= n,
            rows@.len() == columns@.len(),
            pairs(rows@, columns@) == before + want.take(k as int),
        decreases n - k,
    {
        let (row, column) = locate(k, n, frames, g, merge);
        let ghost was = pairs(rows@, columns@);
        rows.push(row);
        columns.push(column);
        assert(pairs(rows@, columns@) =~= was.push(want[k as int]));
        assert(pairs(rows@, columns@) =~= before + want.take(k + 1));
        k = k + 1;
    }
    assert(want.take(k as int) =~= want);
    Ok(())
}

/// What a picture is refused for when its patches are put in order, if anything: more
/// patches than can be indexed, or squares that are not whole.
pub open spec fn order_fault(g: Thw, merge: u32) -> Option<ModelError> {
    if (g.h as nat) * (g.w as nat) > u32::MAX || row_order(g, merge).len() > usize::MAX {
        Some(ModelError::Overflow)
    } else if !fills_squares(g, merge) {
        Some(ModelError::PartialSquare)
    } else {
        None
    }
}

/// For every patch of a picture in layout order, its index in a frame taken row by row.
///
/// Refuses a picture whose patches do not fill whole squares, and one with more patches than
/// can be indexed.
pub fn order_rows(g: Thw, merge: u32) -> (r: Result<Vec<u32>, ModelError>)
    requires
        merge > 0,
    ensures
        match r {
            Ok(v) => order_fault(g, merge) is None && crate::visual::nats(v@) == row_order(
                g,
                merge,
            ),
            Err(e) => order_fault(g, merge) == Some(e),
        },
{
    proof {
        assert((g.h as nat) * (g.w as nat) <= u64::MAX) by (nonlinear_arith)
            requires
                0 <= g.h <= u32::MAX,
                0 <= g.w <= u32::MAX,
        ;
    }
    let area: u64 = g.h as u64 * g.w as u64;
    if area > u32::MAX as u64 {
        return Err(ModelError::Overflow);
    }
    let n: usize = match layout_len(g.t, g, merge) {
        Some(n) => n,
        None => return Err(ModelError::Overflow),
    };
    let frames: u32 = if g.t > 1 {
        g.t
    } else {
        1
    };
    proof {
        crate::rope::lemma_u128_product(frames, g.h, g.w);
    }
    if frames as u128 * g.h as u128 * g.w as u128 != n as u128 {
        return Err(ModelError::PartialSquare);
    }
    let ghost want = row_order(g, merge);
    let mut out: Vec<u32> = Vec::new();
    assert(crate::visual::nats(out@) =~= want.take(0));
    let mut k: usize = 0;
    while k < n
        invariant
            merge > 0,
            want == row_order(g, merge),
            area == (g.h as nat) * (g.w as nat),
            area <= u32::MAX,
            n == laid_out(
                g.t as nat,
                (g.h / merge) as nat,
                (g.w / merge) as nat,
                merge as nat,
            ),
            k <= n,
            crate::visual::nats(out@) == want.take(k as int),
        decreases n - k,
    {
        let (row, column) = locate(k, n, g.t, g, merge);
        proof {
            assert(row * g.w + column < g.h * g.w && 0 <= row * g.w) by (nonlinear_arith)
                requires
                    0 <= row < g.h,
                    0 <= column < g.w,
            ;
        }
        let x: u32 = row * g.w + column;
        let ghost was = out@;
        out.push(x);
        assert(crate::visual::nats(out@) =~= crate::visual::nats(was).push(x as nat));
        assert(crate::visual::nats(out@) =~= want.take(k + 1));
        k = k + 1;
    }
    assert(want.take(k as int) =~= want);
    Ok(out)
}

/// The position table and the rotary coordinates are laid out alike: the table row that a
/// patch reads is the one at its own row and column.
pub proof fn orders_agree(g: Thw, merge: u32, k: int)
    requires
        merge > 0,
        g.t > 0,
        0 <= k < row_order(g, merge).len(),
    ensures
        row_order(g, merge).len() == coordinates(g, merge).len(),
        row_order(g, merge)[k] == coordinates(g, merge)[k].0 * g.w + coordinates(g, merge)[k].1,
        coordinates(g, merge)[k].0 < g.h,
        coordinates(g, merge)[k].1 < g.w,
{
    place_is_determined(
        g.t as nat,
        (g.h / merge) as nat,
        (g.w / merge) as nat,
        merge as nat,
        k,
    );
    lemma_squares_fit(g.h, merge);
    lemma_squares_fit(g.w, merge);
    let row = patch_row(k, (g.h / merge) as int, (g.w / merge) as int, merge as int);
    assert(0 <= row * g.w) by (nonlinear_arith)
        requires
            row >= 0,
            g.w >= 0,
    ;
}

/// A picture with patches in a frame fills whole squares just when `merge` divides both of
/// its sides.
pub proof fn whole_squares(g: Thw, merge: u32)
    requires
        merge > 0,
        g.t > 0,
        g.h > 0,
        g.w > 0,
    ensures
        fills_squares(g, merge) <==> g.h % merge == 0 && g.w % merge == 0,
{
    let h = g.h as int;
    let w = g.w as int;
    let t = g.t as int;
    let m = merge as int;
    let hm = (h / m) * m;
    let wm = (w / m) * m;
    lemma_layout_product(g.t as nat, (g.h / merge) as nat, (g.w / merge) as nat, merge as nat);
    vstd::arithmetic::div_mod::lemma_fundamental_div_mod(h, m);
    vstd::arithmetic::div_mod::lemma_fundamental_div_mod(w, m);
    vstd::arithmetic::div_mod::lemma_mod_bound(h, m);
    vstd::arithmetic::div_mod::lemma_mod_bound(w, m);
    assert(hm == m * (h / m) && wm == m * (w / m)) by (nonlinear_arith)
        requires
            hm == (h / m) * m,
            wm == (w / m) * m,
    ;
    assert(0 <= hm <= h && 0 <= wm <= w) by (nonlinear_arith)
        requires
            hm == (h / m) * m,
            wm == (w / m) * m,
            h == hm + h % m,
            w == wm + w % m,
            h % m >= 0,
            w % m >= 0,
            h > 0,
            w > 0,
            m > 0,
    ;
    if h % m != 0 || w % m != 0 {
        assert(t * hm * wm < t * h * w) by (nonlinear_arith)
            requires
                t > 0,
                h > 0,
                w > 0,
                0 <= hm <= h,
                0 <= wm <= w,
                hm < h || wm < w,
        ;
    }
}

/// Every patch stands in its place, whatever its row: in a frame squares follow row by row,
/// and in a square patches do. No other coordinates are listed.
pub proof fn patches_stand_in_place(g: Thw, merge: u32, f: int, r: int, c: int)
    requires
        merge > 0,
        0 <= f,
        f < g.t || f == 0,
        0 <= r < (g.h / merge) * merge,
        0 <= c < (g.w / merge) * merge,
    ensures
        ({
            let m = merge as int;
            let down = g.h as int / m;
            let across = g.w as int / m;
            let k = (((f * down + r / m) * across + c / m) * m + r % m) * m + c % m;
            let frames = if g.t == 0 {
                1int
            } else {
                g.t as int
            };
            &&& coordinates(g, merge).len() == frames * (down * m) * (across * m)
            &&& 0 <= k < coordinates(g, merge).len()
            &&& coordinates(g, merge)[k] == (r as nat, c as nat)
            &&& row_order(g, merge).len() == g.t * (down * m) * (across * m)
            &&& f < g.t ==> k < row_order(g, merge).len() && row_order(g, merge)[k] == r * g.w + c
        }),
{
    let down = (g.h / merge) as nat;
    let across = (g.w / merge) as nat;
    let m = merge as nat;
    lemma_layout_product(copies(g.t), down, across, m);
    lemma_layout_product(g.t as nat, down, across, m);
    every_patch_is_laid_out(copies(g.t), down, across, m, f, r, c);
    if f < g.t {
        every_patch_is_laid_out(g.t as nat, down, across, m, f, r, c);
    }
    assert(0 <= r * g.w) by (nonlinear_arith)
        requires
            r >= 0,
            g.w >= 0,
    ;
}

/// How many coordinates the first `n` of some pictures have.
pub open spec fn coordinates_before(grids: Seq<Thw>, merge: u32, n: nat) -> nat
    decreases n,
{
    if n == 0 {
        0
    } else {
        coordinates_before(grids, merge, (n - 1) as nat) + coordinates(grids[n - 1], merge).len()
    }
}

proof fn lemma_coordinates_before(grids: Seq<Thw>, head: Seq<Thw>, merge: u32, n: nat)
    requires
        n <= head.len() <= grids.len(),
        forall|i: int| 0 <= i < head.len() ==> #[trigger] head[i] == grids[i],
    ensures
        coordinates_before(grids, merge, n) == coordinates_before(head, merge, n),
    decreases n,
{
    if n > 0 {
        lemma_coordinates_before(grids, head, merge, (n - 1) as nat);
        assert(head[n - 1] == grids[n - 1]);
    }
}

proof fn lemma_all_len(grids: Seq<Thw>, merge: u32)
    ensures
        all_coordinates(grids, merge).len() == coordinates_before(grids, merge, grids.len()),
    decreases grids.len(),
{
    if grids.len() > 0 {
        let head = grids.drop_last();
        lemma_all_len(head, merge);
        lemma_coordinates_before(grids, head, merge, head.len());
    }
}

/// The coordinates of a picture stand behind those of the pictures before it.
pub proof fn pictures_are_listed_in_order(grids: Seq<Thw>, merge: u32, i: int, k: int)
    requires
        0 <= i < grids.len(),
        0 <= k < coordinates(grids[i], merge).len(),
    ensures
        ({
            let all = all_coordinates(grids, merge);
            &&& all.len() == coordinates_before(grids, merge, grids.len())
            &&& coordinates_before(grids, merge, i as nat) + k < all.len()
            &&& all[coordinates_before(grids, merge, i as nat) + k] == coordinates(
                grids[i],
                merge,
            )[k]
        }),
    decreases grids.len(),
{
    let head = grids.drop_last();
    lemma_all_len(grids, merge);
    lemma_all_len(head, merge);
    lemma_coordinates_before(grids, head, merge, head.len());
    if i < head.len() {
        pictures_are_listed_in_order(head, merge, i, k);
        lemma_coordinates_before(grids, head, merge, i as nat);
    }
}

/// A picture whose sides `merge` divides is laid out whole, as long as its patches can be
/// counted.
pub proof fn whole_pictures_are_laid_out(g: Thw, merge: u32)
    requires
        merge > 0,
        g.t > 0,
        g.h % merge == 0,
        g.w % merge == 0,
        g.h * g.w <= u32::MAX,
        g.t * g.h * g.w <= usize::MAX,
    ensures
        order_fault(g, merge) is None,
        coordinates(g, merge).len() == g.t * g.h * g.w,
        row_order(g, merge).len() == g.t * g.h * g.w,
{
    let h = g.h as int;
    let w = g.w as int;
    let t = g.t as int;
    let m = merge as int;
    lemma_layout_product(g.t as nat, (g.h / merge) as nat, (g.w / merge) as nat, merge as nat);
    vstd::arithmetic::div_mod::lemma_fundamental_div_mod(h, m);
    vstd::arithmetic::div_mod::lemma_fundamental_div_mod(w, m);
    assert((h / m) * m == h && (w / m) * m == w) by (nonlinear_arith)
        requires
            h == m * (h / m),
            w == m * (w / m),
    ;
}

} // verus!
