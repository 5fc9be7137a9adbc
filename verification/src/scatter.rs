//! Where features go in a batch whose prompts are taken one after the other.
use vstd::prelude::*;

use crate::error::ModelError;
use crate::marks::MarkRows;

verus! {

/// The marks of all prompts, one prompt after the other.
pub open spec fn flat(rows: Seq<Seq<bool>>) -> Seq<bool>
    decreases rows.len(),
{
    if rows.len() == 0 {
        Seq::empty()
    } else {
        flat(rows.drop_last()) + rows.last()
    }
}

/// For every token, the row that takes its place when the features stand below the tokens:
/// its own for a token without a mark, and for a marked one the next row of features.
pub open spec fn sources(marks: Seq<bool>) -> Seq<nat> {
    Seq::new(
        marks.len(),
        |p: int|
            if marks[p] {
                marks.len() + crate::marks::count(marks.take(p))
            } else {
                p as nat
            },
    )
}

impl MarkRows {
    fn flatten(&self) -> (r: Vec<bool>)
        ensures
            r@ == flat(self.cells()),
    {
        let mut out: Vec<bool> = Vec::new();
        let mut i: usize = 0;
        assert(out@ =~= flat(self.cells().take(0)));
        while i < self.rows.len()
            invariant
                self.cells().len() == self.rows@.len(),
                i <= self.rows@.len(),
                out@ == flat(self.cells().take(i as int)),
            decreases self.rows@.len() - i,
        {
            let row = &self.rows[i];
            let ghost before = out@;
            let mut j: usize = 0;
            assert(before =~= before + row@.take(0));
            while j < row.len()
                invariant
                    j <= row@.len(),
                    out@ == before + row@.take(j as int),
                decreases row@.len() - j,
            {
                out.push(row[j]);
                assert(out@ =~= before + row@.take(j + 1));
                j = j + 1;
            }
            proof {
                assert(row@.take(j as int) =~= row@);
                assert(self.cells()[i as int] =~= row@);
                assert(self.cells().take(i + 1).drop_last() =~= self.cells().take(i as int));
            }
            i = i + 1;
        }
        assert(self.cells().take(i as int) =~= self.cells());
        out
    }

    /// The places of the marked tokens. Refuses a batch with more tokens than 32 bits count.
    pub fn places(&self) -> (r: Result<Vec<u32>, ModelError>)
        ensures
            match r {
                Ok(v) => {
                    &&& flat(self.cells()).len() <= u32::MAX
                    &&& crate::visual::nats(v@) == crate::marks::set_places(flat(self.cells()))
                },
                Err(e) => flat(self.cells()).len() > u32::MAX && e == ModelError::Overflow,
            },
    {
        let marks = self.flatten();
        if marks.len() > u32::MAX as usize {
            return Err(ModelError::Overflow);
        }
        let mut out: Vec<u32> = Vec::new();
        let mut p: usize = 0;
        assert(crate::visual::nats(out@) =~= crate::marks::set_places(marks@.take(0)));
        while p < marks.len()
            invariant
                p <= marks@.len() <= u32::MAX,
                crate::visual::nats(out@) == crate::marks::set_places(marks@.take(p as int)),
            decreases marks@.len() - p,
        {
            assert(marks@.take(p + 1).drop_last() =~= marks@.take(p as int));
            let ghost before = out@;
            if marks[p] {
                out.push(p as u32);
                assert(crate::visual::nats(out@) =~= crate::visual::nats(before).push(p as nat));
            }
            p = p + 1;
        }
        assert(marks@.take(p as int) =~= marks@);
        Ok(out)
    }

    /// For every token, the row that takes its place when the features stand below the
    /// tokens. Refuses a batch with more tokens and features than 32 bits count.
    pub fn sources(&self) -> (r: Result<Vec<u32>, ModelError>)
        ensures
            ({
                let marks = flat(self.cells());
                match r {
                    Ok(v) => {
                        &&& marks.len() + crate::marks::count(marks) <= u32::MAX
                        &&& crate::visual::nats(v@) == sources(marks)
                    },
                    Err(e) => {
                        &&& marks.len() + crate::marks::count(marks) > u32::MAX
                        &&& e == ModelError::Overflow
                    },
                }
            }),
    {
        let marks = self.flatten();
        let ghost all = marks@;
        let mut found: usize = 0;
        let mut p: usize = 0;
        while p < marks.len()
            invariant
                all == marks@,
                p <= marks@.len(),
                found <= p,
                found == crate::marks::count(marks@.take(p as int)),
            decreases marks@.len() - p,
        {
            assert(marks@.take(p + 1).drop_last() =~= marks@.take(p as int));
            if marks[p] {
                found = found + 1;
            }
            p = p + 1;
        }
        assert(marks@.take(p as int) =~= marks@);
        let total: usize = marks.len();
        if total > u32::MAX as usize || found > u32::MAX as usize - total {
            return Err(ModelError::Overflow);
        }
        let ghost want = sources(all);
        let mut out: Vec<u32> = Vec::new();
        let mut next: u32 = total as u32;
        let mut q: usize = 0;
        assert(crate::visual::nats(out@) =~= want.take(0));
        while q < marks.len()
            invariant
                all == marks@,
                want == sources(all),
                total == all.len(),
                total + crate::marks::count(all) <= u32::MAX,
                q <= all.len(),
                next == total + crate::marks::count(all.take(q as int)),
                crate::visual::nats(out@) == want.take(q as int),
            decreases all.len() - q,
        {
            let ghost before = out@;
            proof {
                assert(all.take(q + 1).drop_last() =~= all.take(q as int));
                assert(all.take(q + 1) + all.skip(q + 1) =~= all);
                crate::marks::lemma_count_add(all.take(q + 1), all.skip(q + 1));
            }
            if marks[q] {
                out.push(next);
                next = next + 1;
            } else {
                out.push(q as u32);
            }
            assert(crate::visual::nats(out@) =~= crate::visual::nats(before).push(want[q as int]));
            assert(crate::visual::nats(out@) =~= want.take(q + 1));
            q = q + 1;
        }
        assert(want.take(q as int) =~= want);
        Ok(out)
    }

    /// The marks of `take` columns from `start` on.
    pub fn columns(&self, start: usize, take: usize) -> (r: MarkRows)
        requires
            self.wf(),
            start + take <= self.width,
        ensures
            r.wf(),
            r.width == take,
            r.cells() == self.cells().map_values(|row: Seq<bool>| row.subrange(start as int, start + take)),
    {
        let mut out = MarkRows { rows: Vec::new(), width: take };
        let ghost want = self.cells().map_values(
            |row: Seq<bool>| row.subrange(start as int, start + take),
        );
        let mut i: usize = 0;
        assert(out.cells() =~= want.take(0));
        while i < self.rows.len()
            invariant
                self.wf(),
                start + take <= self.width,
                want == self.cells().map_values(
                    |row: Seq<bool>| row.subrange(start as int, start + take),
                ),
                self.cells().len() == self.rows@.len(),
                i <= self.rows@.len(),
                out.width == take,
                out.cells() == want.take(i as int),
            decreases self.rows@.len() - i,
        {
            let row = &self.rows[i];
            assert(self.cells()[i as int] =~= row@);
            let mut part: Vec<bool> = Vec::new();
            let end: usize = start + take;
            let mut j: usize = start;
            assert(part@ =~= row@.subrange(start as int, start as int));
            while j < end
                invariant
                    start <= j <= end <= row@.len(),
                    part@ == row@.subrange(start as int, j as int),
                decreases end - j,
            {
                part.push(row[j]);
                assert(part@ =~= row@.subrange(start as int, j + 1));
                j = j + 1;
            }
            let ghost was = out.cells();
            let ghost added = part@;
            assert(added =~= want[i as int]);
            out.rows.push(part);
            assert(out.cells() =~= was.push(added)) by {
                assert(out.rows@.last().deep_view() =~= added);
            }
            assert(out.cells() =~= want.take(i + 1));
            i = i + 1;
        }
        assert(want.take(i as int) =~= want);
        assert(out.wf()) by {
            assert forall|k: int| 0 <= k < out.cells().len() implies (#[trigger] out.cells()[k]).len() == take by {
                assert(out.cells()[k] == want[k]);
                assert(self.cells()[k].len() == self.width);
            }
        }
        out
    }
}

/// There are as many places as marks.
proof fn lemma_places_len(marks: Seq<bool>)
    ensures
        crate::marks::set_places(marks).len() == crate::marks::count(marks),
    decreases marks.len(),
{
    if marks.len() > 0 {
        lemma_places_len(marks.drop_last());
    }
}

/// The `k`-th row of features goes to the `k`-th marked token, and a token without a mark
/// keeps its own row.
pub proof fn features_land_in_order(marks: Seq<bool>, k: int, p: int)
    requires
        0 <= k < crate::marks::count(marks),
        0 <= p < marks.len(),
    ensures
        crate::marks::set_places(marks).len() == crate::marks::count(marks),
        crate::marks::set_places(marks)[k] < marks.len(),
        marks[crate::marks::set_places(marks)[k] as int],
        sources(marks)[crate::marks::set_places(marks)[k] as int] == marks.len() + k,
        !marks[p] ==> sources(marks)[p] == p,
{
    lemma_places_len(marks);
    lemma_place_counts(marks, k);
}

proof fn lemma_place_counts(marks: Seq<bool>, k: int)
    requires
        0 <= k < crate::marks::set_places(marks).len(),
    ensures
        ({
            let at = crate::marks::set_places(marks)[k];
            &&& at < marks.len()
            &&& marks[at as int]
            &&& crate::marks::count(marks.take(at as int)) == k
        }),
    decreases marks.len(),
{
    let rest = marks.drop_last();
    lemma_places_len(rest);
    if k < crate::marks::set_places(rest).len() {
        lemma_place_counts(rest, k);
        let at = crate::marks::set_places(rest)[k];
        assert(marks.take(at as int) =~= rest.take(at as int));
    } else {
        assert(marks.take(marks.len() - 1) =~= rest);
    }
}

/// Prompts are taken one after the other: token `j` of prompt `i` stands behind all tokens of
/// the prompts before.
pub proof fn prompts_are_taken_in_turn(rows: Seq<Seq<bool>>, width: nat, i: int, j: int)
    requires
        forall|k: int| 0 <= k < rows.len() ==> (#[trigger] rows[k]).len() == width,
        0 <= i < rows.len(),
        0 <= j < width,
    ensures
        flat(rows).len() == rows.len() * width,
        0 <= i * width + j < flat(rows).len(),
        flat(rows)[i * width + j] == rows[i][j],
    decreases rows.len(),
{
    let head = rows.drop_last();
    lemma_flat_width(rows, width);
    assert forall|k: int| 0 <= k < head.len() implies (#[trigger] head[k]).len() == width by {
        assert(head[k] == rows[k]);
    }
    lemma_flat_width(head, width);
    assert(rows.last().len() == width) by {
        assert(rows[rows.len() - 1].len() == width);
    }
    assert(0 <= i * width && i * width + width <= rows.len() * width) by (nonlinear_arith)
        requires
            0 <= i < rows.len(),
            width >= 0,
    ;
    if i < head.len() {
        prompts_are_taken_in_turn(head, width, i, j);
        assert(head[i] == rows[i]);
    } else {
        assert(i == head.len());
    }
}

pub(crate) proof fn lemma_flat_width(rows: Seq<Seq<bool>>, width: nat)
    requires
        forall|k: int| 0 <= k < rows.len() ==> (#[trigger] rows[k]).len() == width,
    ensures
        flat(rows).len() == rows.len() * width,
    decreases rows.len(),
{
    if rows.len() > 0 {
        let head = rows.drop_last();
        assert forall|k: int| 0 <= k < head.len() implies (#[trigger] head[k]).len() == width by {
            assert(head[k] == rows[k]);
        }
        lemma_flat_width(head, width);
        assert(rows[rows.len() - 1].len() == width);
        assert(head.len() * width + width == rows.len() * width) by (nonlinear_arith)
            requires
                head.len() + 1 == rows.len(),
        ;
    }
}

/// Every token of a batch has a row that takes its place, and a token without a mark keeps its
/// own, also where no token is marked at all.
pub proof fn unmarked_tokens_keep_their_rows(marks: Seq<bool>, p: int)
    requires
        0 <= p < marks.len(),
    ensures
        sources(marks).len() == marks.len(),
        !marks[p] ==> sources(marks)[p] == p,
        marks[p] ==> sources(marks)[p] >= marks.len(),
{
}

} // verus!
