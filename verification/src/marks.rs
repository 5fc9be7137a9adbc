//! Marks on the tokens of a batch, and what follows from them.
use candle_core::Tensor;
use vstd::prelude::*;

use crate::error::ModelError;
use crate::tensor::{make_u8, Element};
use crate::tokens::TokenRows;

verus! {

/// Which tokens of a batch are marked: one row per prompt, all of the same width.
#[derive(Debug)]
pub struct MarkRows {
    pub rows: Vec<Vec<bool>>,
    pub width: usize,
}

impl MarkRows {
    /// The marks, row by row.
    pub open spec fn cells(self) -> Seq<Seq<bool>> {
        self.rows.deep_view()
    }
}

impl MarkRows {
    /// Every row is as long as the width says.
    pub open spec fn wf(self) -> bool {
        forall|i: int| 0 <= i < self.cells().len() ==> (#[trigger] self.cells()[i]).len() == self.width
    }
}

/// How many marks a row has.
pub open spec fn count(row: Seq<bool>) -> nat
    decreases row.len(),
{
    if row.len() == 0 {
        0
    } else if row.last() {
        count(row.drop_last()) + 1
    } else {
        count(row.drop_last())
    }
}

/// The places of the marks in a list of flags.
pub open spec fn set_places(flags: Seq<bool>) -> Seq<nat>
    decreases flags.len(),
{
    if flags.len() == 0 {
        Seq::empty()
    } else if flags.last() {
        set_places(flags.drop_last()).push((flags.len() - 1) as nat)
    } else {
        set_places(flags.drop_last())
    }
}

/// How many marks the columns `from..to` of a batch have.
pub open spec fn count_columns(rows: Seq<Seq<bool>>, from: int, to: int) -> nat
    decreases rows.len(),
{
    if rows.len() == 0 {
        0
    } else {
        count_columns(rows.drop_last(), from, to) + count(rows.last().subrange(from, to))
    }
}

/// The marks of the tokens that are equal to `token`.
pub open spec fn marks_of(ids: Seq<Seq<u32>>, token: u32) -> Seq<Seq<bool>> {
    ids.map_values(|row: Seq<u32>| row.map_values(|id: u32| id == token))
}

/// A row has no more marks than places.
pub(crate) proof fn lemma_count_le(row: Seq<bool>)
    ensures
        count(row) <= row.len(),
    decreases row.len(),
{
    if row.len() > 0 {
        lemma_count_le(row.drop_last());
    }
}

/// The marks of two rows add up.
pub(crate) proof fn lemma_count_add(a: Seq<bool>, b: Seq<bool>)
    ensures
        count(a + b) == count(a) + count(b),
    decreases b.len(),
{
    if b.len() == 0 {
        assert(a + b =~= a);
    } else {
        lemma_count_add(a, b.drop_last());
        assert((a + b).drop_last() =~= a + b.drop_last());
        assert((a + b).last() == b.last());
    }
}

/// Neighbouring ranges of columns add up.
pub(crate) proof fn lemma_columns_add(rows: Seq<Seq<bool>>, a: int, b: int, c: int)
    requires
        0 <= a <= b <= c,
        forall|i: int| 0 <= i < rows.len() ==> c <= (#[trigger] rows[i]).len(),
    ensures
        count_columns(rows, a, b) + count_columns(rows, b, c) == count_columns(rows, a, c),
    decreases rows.len(),
{
    if rows.len() > 0 {
        let head = rows.drop_last();
        assert forall|i: int| 0 <= i < head.len() implies c <= (#[trigger] head[i]).len() by {
            assert(head[i] == rows[i]);
        }
        lemma_columns_add(head, a, b, c);
        let row = rows.last();
        assert(row == rows[rows.len() - 1]);
        assert(row.subrange(a, b) + row.subrange(b, c) =~= row.subrange(a, c));
        lemma_count_add(row.subrange(a, b), row.subrange(b, c));
    }
}

/// Columns have no more marks than places.
pub(crate) proof fn lemma_columns_bound(rows: Seq<Seq<bool>>, from: int, to: int)
    requires
        0 <= from <= to,
        forall|i: int| 0 <= i < rows.len() ==> to <= (#[trigger] rows[i]).len(),
    ensures
        count_columns(rows, from, to) <= rows.len() * (to - from),
    decreases rows.len(),
{
    if rows.len() > 0 {
        let head = rows.drop_last();
        assert forall|i: int| 0 <= i < head.len() implies to <= (#[trigger] head[i]).len() by {
            assert(head[i] == rows[i]);
        }
        lemma_columns_bound(head, from, to);
        let row = rows.last();
        assert(row == rows[rows.len() - 1]);
        lemma_count_le(row.subrange(from, to));
        assert(head.len() * (to - from) + (to - from) == rows.len() * (to - from))
            by (nonlinear_arith)
            requires
                head.len() + 1 == rows.len(),
        ;
    }
}

impl MarkRows {
    /// Marks the tokens that are equal to `token`.
    pub fn of_token(ids: &TokenRows, token: u32) -> (r: MarkRows)
        requires
            ids.wf(),
        ensures
            r.wf(),
            r.width == ids.width,
            r.cells() == marks_of(ids.cells(), token),
    {
        let mut out = MarkRows { rows: Vec::new(), width: ids.width };
        let ghost want = marks_of(ids.cells(), token);
        let mut i: usize = 0;
        while i < ids.rows.len()
            invariant
                ids.wf(),
                want == marks_of(ids.cells(), token),
                i <= ids.rows@.len(),
                ids.cells().len() == ids.rows@.len(),
                out.width == ids.width,
                out.cells() == want.take(i as int),
            decreases ids.rows@.len() - i,
        {
            let row = &ids.rows[i];
            assert(ids.cells()[i as int] =~= row@);
            let mut marks: Vec<bool> = Vec::new();
            let mut j: usize = 0;
            while j < row.len()
                invariant
                    j <= row@.len(),
                    marks@ == row@.map_values(|id: u32| id == token).take(j as int),
                decreases row@.len() - j,
            {
                marks.push(row[j] == token);
                assert(marks@ =~= row@.map_values(|id: u32| id == token).take(j + 1));
                j = j + 1;
            }
            assert(marks@ =~= want[i as int]);
            let ghost was = out.cells();
            let ghost added = marks@;
            out.rows.push(marks);
            assert(out.cells() =~= was.push(added)) by {
                assert(out.rows@.last().deep_view() =~= added);
            }
            assert(out.cells() =~= want.take(i + 1));
            i = i + 1;
        }
        assert(out.cells() =~= want);
        out
    }

    /// Counts the marks in the columns `from..to`.
    pub fn count_columns(&self, from: usize, to: usize) -> (r: usize)
        requires
            self.wf(),
            from <= to <= self.width,
            self.cells().len() * self.width <= usize::MAX,
        ensures
            r == count_columns(self.cells(), from as int, to as int),
    {
        let mut n: usize = 0;
        let mut i: usize = 0;
        while i < self.rows.len()
            invariant
                self.wf(),
                from <= to <= self.width,
                self.cells().len() * self.width <= usize::MAX,
                self.cells().len() == self.rows@.len(),
                i <= self.rows@.len(),
                n == count_columns(self.cells().take(i as int), from as int, to as int),
            decreases self.rows@.len() - i,
        {
            let row = &self.rows[i];
            let ghost piece = row@.subrange(from as int, to as int);
            let ghost before = n;
            assert(self.cells()[i as int] =~= row@);
            assert(row@.len() == self.width);
            proof {
                let head = self.cells().take(i + 1);
                assert(head.drop_last() =~= self.cells().take(i as int));
                assert(head.last() == row@);
                lemma_columns_bound(head, from as int, to as int);
                assert((i + 1) * (to - from) <= self.cells().len() * self.width) by (nonlinear_arith)
                    requires
                        0 <= i + 1 <= self.cells().len(),
                        0 <= to - from <= self.width,
                ;
            }
            let mut j: usize = from;
            while j < to
                invariant
                    from <= j <= to <= row@.len(),
                    piece == row@.subrange(from as int, to as int),
                    before + count(piece) <= usize::MAX,
                    n == before + count(piece.take(j - from)),
                decreases to - j,
            {
                proof {
                    let k = j - from;
                    assert(piece.take(k + 1).drop_last() =~= piece.take(k));
                    assert(piece.take(k + 1) + piece.skip(k + 1) =~= piece);
                    lemma_count_add(piece.take(k + 1), piece.skip(k + 1));
                }
                if row[j] {
                    n = n + 1;
                }
                j = j + 1;
            }
            assert(piece.take(j - from) =~= piece);
            i = i + 1;
        }
        assert(self.cells().take(i as int) =~= self.cells());
        n
    }
}

/// Marks as ones and zeros.
pub open spec fn bit_rows(rows: Seq<Seq<bool>>) -> Seq<Seq<int>> {
    rows.map_values(
        |row: Seq<bool>|
            row.map_values(
                |b: bool|
                    if b {
                        1int
                    } else {
                        0int
                    },
            ),
    )
}

/// `t` has a row of ones and zeros, as bytes, for each row of `rows`.
pub open spec fn holds_marks(t: Tensor, rows: Seq<Seq<bool>>, width: usize) -> bool {
    &&& crate::tensor::tensor_dims(t) == seq![rows.len() as usize, width]
    &&& crate::tensor::tensor_element(t) == Element::U8
    &&& crate::tensor::tensor_elements(t) == crate::tensor::row_major(bit_rows(rows))
}

impl MarkRows {
    /// The marks as a tensor of bytes, one for a marked token and zero for any other.
    pub fn to_tensor(&self) -> (r: Result<Tensor, ModelError>)
        requires
            self.wf(),
        ensures
            r is Ok,
            holds_marks(r->Ok_0, self.cells(), self.width),
    {
        let ghost want = bit_rows(self.cells());
        let mut data: Vec<u8> = Vec::new();
        let mut i: usize = 0;
        assert(data@.map_values(|x: u8| x as int) =~= crate::tensor::row_major(want.take(0)));
        while i < self.rows.len()
            invariant
                self.wf(),
                want == bit_rows(self.cells()),
                self.cells().len() == self.rows@.len(),
                i <= self.rows@.len(),
                data@.map_values(|x: u8| x as int) == crate::tensor::row_major(want.take(i as int)),
            decreases self.rows@.len() - i,
        {
            let row = &self.rows[i];
            assert(self.cells()[i as int] =~= row@);
            let ghost line = want[i as int];
            let ghost before = data@.map_values(|x: u8| x as int);
            assert(before + line.take(0) =~= before);
            let mut j: usize = 0;
            while j < row.len()
                invariant
                    j <= row@.len(),
                    line.len() == row@.len(),
                    forall|k: int|
                        0 <= k < row@.len() ==> #[trigger] line[k] == if row@[k] {
                            1int
                        } else {
                            0int
                        },
                    data@.map_values(|x: u8| x as int) == before + line.take(j as int),
                decreases row@.len() - j,
            {
                let b: u8 = if row[j] {
                    1
                } else {
                    0
                };
                let ghost was = data@;
                data.push(b);
                assert(line[j as int] == b as int);
                assert(data@.map_values(|x: u8| x as int) =~= was.map_values(
                    |x: u8| x as int,
                ).push(b as int));
                assert(data@.map_values(|x: u8| x as int) =~= before + line.take(j + 1));
                j = j + 1;
            }
            assert(line.take(j as int) =~= line);
            assert(want.take(i + 1).drop_last() =~= want.take(i as int));
            i = i + 1;
        }
        assert(want.take(i as int) =~= want);
        proof {
            crate::tensor::lemma_row_major_len(want, self.width as nat);
            crate::tensor::lemma_volume2(self.rows.len(), self.width);
            assert(data@.map_values(|x: u8| x as int).len() == data.len());
        }
        let mut dims: Vec<usize> = Vec::new();
        dims.push(self.rows.len());
        dims.push(self.width);
        assert(dims@ =~= seq![self.rows.len(), self.width]);
        match make_u8(data, dims) {
            Ok(t) => Ok(t),
            Err(e) => Err(ModelError::Tensor(e)),
        }
    }
}

/// A mark stands just where a token is equal to the one that is looked for.
pub proof fn marks_stand_on_tokens(ids: Seq<Seq<u32>>, token: u32, i: int, j: int)
    requires
        0 <= i < ids.len(),
        0 <= j < ids[i].len(),
    ensures
        marks_of(ids, token).len() == ids.len(),
        marks_of(ids, token)[i].len() == ids[i].len(),
        marks_of(ids, token)[i][j] <==> ids[i][j] == token,
{
}

/// Counting adds up: a mark counts one, a place without a mark nothing, and the counts of two
/// rows put together are those of both.
pub proof fn counts_add_up(a: Seq<bool>, b: Seq<bool>)
    ensures
        count(Seq::<bool>::empty()) == 0,
        count(seq![true]) == 1,
        count(seq![false]) == 0,
        count(a + b) == count(a) + count(b),
        count(a) <= a.len(),
{
    reveal_with_fuel(count, 2);
    assert(seq![true].drop_last() =~= Seq::<bool>::empty());
    assert(seq![false].drop_last() =~= Seq::<bool>::empty());
    lemma_count_add(a, b);
    lemma_count_le(a);
}

/// The marks of a batch are those of its prompts, and the marks of neighbouring columns add
/// up.
pub proof fn batch_counts_add_up(
    rows: Seq<Seq<bool>>,
    row: Seq<bool>,
    a: int,
    b: int,
    c: int,
)
    requires
        0 <= a <= b <= c,
        forall|i: int| 0 <= i < rows.len() ==> c <= (#[trigger] rows[i]).len(),
    ensures
        count_columns(Seq::<Seq<bool>>::empty(), a, b) == 0,
        count_columns(rows.push(row), a, b) == count_columns(rows, a, b) + count(
            row.subrange(a, b),
        ),
        count_columns(rows, a, c) == count_columns(rows, a, b) + count_columns(rows, b, c),
{
    assert(rows.push(row).drop_last() =~= rows);
    lemma_columns_add(rows, a, b, c);
}

/// The places of the marks are all there, in ascending order, and none besides.
pub proof fn places_are_those_of_the_marks(flags: Seq<bool>)
    ensures
        forall|i: int|
            0 <= i < set_places(flags).len() ==> #[trigger] set_places(flags)[i] < flags.len()
                && flags[set_places(flags)[i] as int],
        forall|i: int, j: int|
            0 <= i < j < set_places(flags).len() ==> #[trigger] set_places(flags)[i]
                < #[trigger] set_places(flags)[j],
        forall|p: int|
            0 <= p < flags.len() && #[trigger] flags[p] ==> set_places(flags).contains(p as nat),
    decreases flags.len(),
{
    if flags.len() > 0 {
        let rest = flags.drop_last();
        places_are_those_of_the_marks(rest);
        let all = set_places(flags);
        let before = set_places(rest);
        assert forall|i: int| 0 <= i < all.len() implies #[trigger] all[i] < flags.len()
            && flags[all[i] as int] by {
            if i < before.len() {
                assert(all[i] == before[i]);
                assert(rest[before[i] as int]);
            }
        }
        assert forall|i: int, j: int| 0 <= i < j < all.len() implies #[trigger] all[i]
            < #[trigger] all[j] by {
            assert(all[i] == before[i]);
            assert(before[i] < rest.len());
            if j < before.len() {
                assert(all[j] == before[j]);
            }
        }
        assert forall|p: int| 0 <= p < flags.len() && #[trigger] flags[p] implies all.contains(
            p as nat,
        ) by {
            if p < rest.len() {
                assert(rest[p]);
                let i = before.index_of(p as nat);
                assert(before[i] == p);
                assert(all[i] == p);
            } else {
                assert(all[all.len() - 1] == p);
            }
        }
    }
}

/// In a tensor of marks the byte of a token is one where the token is marked, and zero
/// elsewhere.
pub proof fn marks_are_bytes(t: Tensor, rows: Seq<Seq<bool>>, width: usize, i: int, j: int)
    requires
        holds_marks(t, rows, width),
        rows.len() <= usize::MAX,
        forall|k: int| 0 <= k < rows.len() ==> (#[trigger] rows[k]).len() == width,
        0 <= i < rows.len(),
        0 <= j < width,
    ensures
        crate::tensor::tensor_dims(t).len() == 2,
        crate::tensor::tensor_dims(t)[0] == rows.len(),
        crate::tensor::tensor_dims(t)[1] == width,
        crate::tensor::tensor_element(t) == Element::U8,
        crate::tensor::tensor_elements(t)[i * width + j] == if rows[i][j] {
            1int
        } else {
            0
        },
{
    let bits = bit_rows(rows);
    assert forall|k: int| 0 <= k < bits.len() implies (#[trigger] bits[k]).len() == width by {
        assert(rows[k].len() == width);
    }
    crate::tensor::rows_stand_one_behind_the_other(bits, width as nat, i, j);
}

} // verus!
