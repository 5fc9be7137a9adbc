//! Reading a square table of position embeddings at fractional places.
//!
//! Each patch of a picture falls between four entries of the table. The floor of its place
//! on each side is found in floating point; which four entries surround it follows here.
use vstd::prelude::*;

use crate::grid::Thw;

verus! {

/// For each patch row and each patch column of a picture, the table row or column at or
/// below its place.
#[derive(Debug)]
pub struct Floors {
    pub rows: Vec<u32>,
    pub columns: Vec<u32>,
}

/// The table line at a floor, or the one above it, which never leaves the table.
pub open spec fn lift(floor: u32, side: u32, up: bool) -> int {
    if !up {
        floor as int
    } else if floor + 1 < side {
        floor + 1
    } else {
        side - 1
    }
}

/// The table entry at one corner of the square around patch `k`. Corners 0 and 1 are on the
/// lower row, 0 and 2 on the lower column.
pub open spec fn corner_entry(
    rows: Seq<u32>,
    columns: Seq<u32>,
    side: u32,
    corner: int,
    k: int,
) -> nat {
    (lift(rows[k / columns.len() as int], side, corner >= 2) * side + lift(
        columns[k % columns.len() as int],
        side,
        corner % 2 == 1,
    )) as nat
}

/// One corner for every patch of a picture, row by row.
pub open spec fn corner_table(rows: Seq<u32>, columns: Seq<u32>, side: u32, corner: int) -> Seq<
    nat,
> {
    Seq::new(rows.len() * columns.len(), |k: int| corner_entry(rows, columns, side, corner, k))
}

/// One corner for every patch of several pictures.
pub open spec fn corner_tables(floors: Seq<Floors>, side: u32, corner: int) -> Seq<nat>
    decreases floors.len(),
{
    if floors.len() == 0 {
        Seq::empty()
    } else {
        corner_tables(floors.drop_last(), side, corner) + corner_table(
            floors.last().rows@,
            floors.last().columns@,
            side,
            corner,
        )
    }
}

/// All lines are inside a table of the given side.
pub open spec fn inside(lines: Seq<u32>, side: u32) -> bool {
    forall|i: int| 0 <= i < lines.len() ==> #[trigger] lines[i] < side
}

/// The floors of one picture: one for each patch row and column, inside the table.
pub open spec fn floors_fit(f: Floors, g: Thw, side: u32) -> bool {
    &&& f.rows@.len() == g.h
    &&& f.columns@.len() == g.w
    &&& inside(f.rows@, side)
    &&& inside(f.columns@, side)
}

/// The floors of every picture fit its grid.
pub open spec fn all_floors_fit(floors: Seq<Floors>, grids: Seq<Thw>, side: u32) -> bool {
    &&& floors.len() == grids.len()
    &&& forall|i: int| 0 <= i < floors.len() ==> floors_fit(#[trigger] floors[i], grids[i], side)
}

fn all_inside(lines: &Vec<u32>, side: u32) -> (r: bool)
    ensures
        r == inside(lines@, side),
{
    let mut i: usize = 0;
    while i < lines.len()
        invariant
            i <= lines@.len(),
            forall|k: int| 0 <= k < i ==> #[trigger] lines@[k] < side,
        decreases lines@.len() - i,
    {
        if lines[i] >= side {
            return false;
        }
        i = i + 1;
    }
    true
}

/// Whether there are floors for every patch row and column of every picture, inside the
/// table.
pub fn check_floors(floors: &Vec<Floors>, grids: &Vec<Thw>, side: u32) -> (r: bool)
    ensures
        r == all_floors_fit(floors@, grids@, side),
{
    if floors.len() != grids.len() {
        return false;
    }
    let mut i: usize = 0;
    while i < floors.len()
        invariant
            floors@.len() == grids@.len(),
            i <= floors@.len(),
            forall|k: int| 0 <= k < i ==> floors_fit(#[trigger] floors@[k], grids@[k], side),
        decreases floors@.len() - i,
    {
        let f = &floors[i];
        let g = grids[i];
        let fits = f.rows.len() == g.h as usize && f.columns.len() == g.w as usize && all_inside(
            &f.rows,
            side,
        ) && all_inside(&f.columns, side);
        assert(fits == floors_fit(floors@[i as int], grids@[i as int], side));
        if !fits {
            return false;
        }
        i = i + 1;
    }
    true
}

fn lifted(floor: u32, side: u32, up: bool) -> (r: u32)
    requires
        floor < side,
    ensures
        r == lift(floor, side, up),
        r < side,
{
    if !up {
        floor
    } else if floor + 1 < side {
        floor + 1
    } else {
        side - 1
    }
}

/// An entry at a row and a column below `side` lies inside the table.
proof fn lemma_entry_inside(row: int, column: int, side: int)
    requires
        0 <= row < side,
        0 <= column < side,
    ensures
        0 <= row * side,
        row * side + column < side * side,
{
    assert(0 <= row * side && row * side + column < side * side) by (nonlinear_arith)
        requires
            0 <= row < side,
            0 <= column < side,
    ;
}

/// The entries at one corner for every patch of several pictures.
pub fn corner_indices(floors: &Vec<Floors>, side: u32, corner: u8) -> (r: Vec<u32>)
    requires
        side <= 0x1_0000,
        forall|i: int|
            0 <= i < floors@.len() ==> inside((#[trigger] floors@[i]).rows@, side) && inside(
                floors@[i].columns@,
                side,
            ),
    ensures
        crate::visual::nats(r@) == corner_tables(floors@, side, corner as int),
{
    let row_up = corner >= 2;
    let column_up = corner % 2 == 1;
    let mut out: Vec<u32> = Vec::new();
    assert(crate::visual::nats(out@) =~= corner_tables(floors@.take(0), side, corner as int));
    let mut i: usize = 0;
    while i < floors.len()
        invariant
            side <= 0x1_0000,
            row_up == (corner >= 2),
            column_up == (corner % 2 == 1),
            forall|i: int|
                0 <= i < floors@.len() ==> inside((#[trigger] floors@[i]).rows@, side) && inside(
                    floors@[i].columns@,
                    side,
                ),
            i <= floors@.len(),
            crate::visual::nats(out@) == corner_tables(
                floors@.take(i as int),
                side,
                corner as int,
            ),
        decreases floors@.len() - i,
    {
        let f = &floors[i];
        let ghost table = corner_table(f.rows@, f.columns@, side, corner as int);
        let ghost before = crate::visual::nats(out@);
        let wide: usize = f.columns.len();
        let mut a: usize = 0;
        assert(before =~= before + table.take(0)) by {
            assert(0 * wide == 0) by (nonlinear_arith);
        }
        assert(0 * wide == 0) by (nonlinear_arith);
        while a < f.rows.len()
            invariant
                side <= 0x1_0000,
                row_up == (corner >= 2),
                column_up == (corner % 2 == 1),
                inside(f.rows@, side),
                inside(f.columns@, side),
                wide == f.columns@.len(),
                table == corner_table(f.rows@, f.columns@, side, corner as int),
                a <= f.rows@.len(),
                crate::visual::nats(out@) == before + table.take(a * wide),
            decreases f.rows@.len() - a,
        {
            let row: u32 = lifted(f.rows[a], side, row_up);
            let mut b: usize = 0;
            proof {
                assert(0 <= a * wide && (a + 1) * wide == a * wide + wide && (a + 1) * wide
                    <= f.rows@.len() * wide) by (nonlinear_arith)
                    requires
                        0 <= a < f.rows@.len(),
                        wide >= 0,
                ;
            }
            while b < wide
                invariant
                    side <= 0x1_0000,
                    column_up == (corner % 2 == 1),
                    row_up == (corner >= 2),
                    inside(f.columns@, side),
                    wide == f.columns@.len(),
                    table == corner_table(f.rows@, f.columns@, side, corner as int),
                    table.len() == f.rows@.len() * wide,
                    a < f.rows@.len(),
                    row < side,
                    row == lift(f.rows@[a as int], side, row_up),
                    0 <= a * wide,
                    a * wide + wide <= table.len(),
                    b <= wide,
                    crate::visual::nats(out@) == before + table.take(a * wide + b),
                decreases wide - b,
            {
                let column: u32 = lifted(f.columns[b], side, column_up);
                let ghost k = a * wide + b;
                proof {
                    lemma_entry_inside(row as int, column as int, side as int);
                    assert(side * side <= 0x1_0000 * 0x1_0000) by (nonlinear_arith)
                        requires
                            0 <= side <= 0x1_0000,
                    ;
                    vstd::arithmetic::div_mod::lemma_fundamental_div_mod_converse(
                        k,
                        wide as int,
                        a as int,
                        b as int,
                    );
                }
                let x: u32 = row * side + column;
                assert(x == table[k]);
                let ghost was = out@;
                out.push(x);
                assert(crate::visual::nats(out@) =~= crate::visual::nats(was).push(x as nat));
                assert(crate::visual::nats(out@) =~= before + table.take(k + 1));
                b = b + 1;
            }
            a = a + 1;
        }
        assert(table.take(a * wide) =~= table);
        assert(floors@.take(i + 1).drop_last() =~= floors@.take(i as int));
        i = i + 1;
    }
    assert(floors@.take(i as int) =~= floors@);
    out
}

/// The four entries around a patch lie inside the table.
pub proof fn corners_lie_in_the_table(
    rows: Seq<u32>,
    columns: Seq<u32>,
    side: u32,
    corner: int,
    k: int,
)
    requires
        inside(rows, side),
        inside(columns, side),
        0 <= k < rows.len() * columns.len(),
    ensures
        corner_entry(rows, columns, side, corner, k) < side * side,
{
    let w = columns.len() as int;
    assert(w > 0 && 0 <= k / w < rows.len() && 0 <= k % w < w) by (nonlinear_arith)
        requires
            0 <= k < rows.len() * w,
            w >= 0,
    ;
    assert(rows[k / w] < side);
    assert(columns[k % w] < side);
    let row = lift(rows[k / w], side, corner >= 2);
    let column = lift(columns[k % w], side, corner % 2 == 1);
    lemma_entry_inside(row, column, side as int);
}

/// The four entries around a patch are neighbours in the table. The first is at its floors;
/// the second is the next one along the row, the third the one right below it, unless the
/// table ends there; and the fourth completes the square.
pub proof fn corners_are_neighbours(rows: Seq<u32>, columns: Seq<u32>, side: u32, y: int, x: int)
    requires
        inside(rows, side),
        inside(columns, side),
        0 <= y < rows.len(),
        0 <= x < columns.len(),
    ensures
        ({
            let k = y * columns.len() + x;
            let e = |c: int| corner_table(rows, columns, side, c)[k] as int;
            &&& forall|c: int|
                0 <= c < 4 ==> (#[trigger] corner_table(rows, columns, side, c)).len()
                    == rows.len() * columns.len()
            &&& 0 <= k < rows.len() * columns.len()
            &&& e(0) == rows[y] * side + columns[x]
            &&& e(1) - e(0) == if columns[x] + 1 == side {
                0int
            } else {
                1
            }
            &&& e(2) - e(0) == if rows[y] + 1 == side {
                0int
            } else {
                side as int
            }
            &&& e(3) - e(2) == e(1) - e(0)
        }),
{
    let w = columns.len() as int;
    let k = y * w + x;
    assert(0 <= k < rows.len() * columns.len()) by (nonlinear_arith)
        requires
            0 <= y < rows.len(),
            0 <= x < w,
            k == y * w + x,
            w == columns.len(),
    ;
    vstd::arithmetic::div_mod::lemma_fundamental_div_mod_converse(k, w, y, x);
    assert(rows[y] < side && columns[x] < side);
    let r = rows[y] as int;
    let s = side as int;
    assert((r + 1) * s == r * s + s && r * s >= 0) by (nonlinear_arith)
        requires
            r >= 0,
            s >= 0,
    ;
    assert(r + 1 >= s ==> r == s - 1);
}

/// How many patches the first `n` of some pictures have in a frame.
pub open spec fn patches_before(floors: Seq<Floors>, n: nat) -> nat
    decreases n,
{
    if n == 0 {
        0
    } else {
        patches_before(floors, (n - 1) as nat) + floors[n - 1].rows@.len()
            * floors[n - 1].columns@.len()
    }
}

/// The entries of a picture stand behind those of the pictures before it.
pub proof fn pictures_stand_in_order(
    floors: Seq<Floors>,
    side: u32,
    corner: int,
    i: int,
    k: int,
)
    requires
        0 <= i < floors.len(),
        0 <= k < floors[i].rows@.len() * floors[i].columns@.len(),
    ensures
        ({
            let all = corner_tables(floors, side, corner);
            &&& all.len() == patches_before(floors, floors.len())
            &&& patches_before(floors, i as nat) + k < all.len()
            &&& all[patches_before(floors, i as nat) + k] == corner_table(
                floors[i].rows@,
                floors[i].columns@,
                side,
                corner,
            )[k]
        }),
    decreases floors.len(),
{
    let head = floors.drop_last();
    lemma_tables_len(floors, side, corner);
    lemma_tables_len(head, side, corner);
    lemma_patches_before(floors, head, head.len());
    if i < head.len() {
        pictures_stand_in_order(head, side, corner, i, k);
        lemma_patches_before(floors, head, i as nat);
    }
}

proof fn lemma_patches_before(floors: Seq<Floors>, head: Seq<Floors>, n: nat)
    requires
        n <= head.len() <= floors.len(),
        forall|i: int| 0 <= i < head.len() ==> #[trigger] head[i] == floors[i],
    ensures
        patches_before(floors, n) == patches_before(head, n),
    decreases n,
{
    if n > 0 {
        lemma_patches_before(floors, head, (n - 1) as nat);
        assert(head[n - 1] == floors[n - 1]);
    }
}

proof fn lemma_tables_len(floors: Seq<Floors>, side: u32, corner: int)
    ensures
        corner_tables(floors, side, corner).len() == patches_before(floors, floors.len()),
    decreases floors.len(),
{
    if floors.len() > 0 {
        let head = floors.drop_last();
        lemma_tables_len(head, side, corner);
        lemma_patches_before(floors, head, head.len());
    }
}

} // verus!
