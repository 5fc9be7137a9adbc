//! Rows of tokens, and of marks beside them.
use candle_core::Tensor;
use vstd::prelude::*;

use crate::error::ModelError;
use crate::tensor::{read_dims, read_matrix};

verus! {

/// A matrix of unsigned numbers: token ids or an attention mask, one row per prompt.
#[derive(Debug)]
pub struct TokenRows {
    pub rows: Vec<Vec<u32>>,
    pub width: usize,
}

impl TokenRows {
    /// The numbers, row by row.
    pub open spec fn cells(self) -> Seq<Seq<u32>> {
        self.rows.deep_view()
    }
}

impl TokenRows {
    /// Every row is as long as the width says.
    pub open spec fn wf(self) -> bool {
        forall|i: int| 0 <= i < self.cells().len() ==> (#[trigger] self.cells()[i]).len() == self.width
    }

    /// The tensor `t` has two dimensions and holds these rows.
    pub open spec fn read_from(self, t: Tensor) -> bool {
        &&& crate::tensor::holds_u32(t, 2)
        &&& self.cells() == crate::tensor::matrix_of(t)
        &&& self.width == crate::tensor::tensor_dims(t)[1]
    }

    /// Reads a two-dimensional tensor of 32-bit unsigned numbers.
    pub fn read(t: &Tensor) -> (r: Result<TokenRows, ModelError>)
        ensures
            match r {
                Ok(m) => m.wf() && m.read_from(*t),
                Err(e) => crate::tensor::refused(*t, 2, e),
            },
    {
        let rows = match read_matrix(t) {
            Ok(rows) => rows,
            Err(e) => return Err(e),
        };
        let dims = read_dims(t);
        Ok(TokenRows { rows, width: dims[1] })
    }
}

/// The sum of a row.
pub open spec fn total(row: Seq<u32>) -> nat
    decreases row.len(),
{
    if row.len() == 0 {
        0
    } else {
        total(row.drop_last()) + row.last() as nat
    }
}

/// The ids whose mark is not zero, in order.
pub open spec fn keep_marked(ids: Seq<u32>, marks: Seq<u32>) -> Seq<u32>
    decreases marks.len(),
{
    if marks.len() == 0 {
        Seq::empty()
    } else if marks.last() != 0 {
        keep_marked(ids, marks.drop_last()).push(ids[marks.len() - 1])
    } else {
        keep_marked(ids, marks.drop_last())
    }
}

proof fn lemma_total_bound(row: Seq<u32>)
    ensures
        total(row) <= row.len() * u32::MAX,
    decreases row.len(),
{
    if row.len() > 0 {
        lemma_total_bound(row.drop_last());
        assert(total(row) <= (row.len() - 1) * u32::MAX + u32::MAX);
        assert((row.len() - 1) * u32::MAX + u32::MAX == row.len() * u32::MAX) by (nonlinear_arith);
    }
}

/// No more tokens are kept than there are, where no mark stands past the last of them.
pub(crate) proof fn lemma_keep_marked_len(ids: Seq<u32>, marks: Seq<u32>)
    requires
        forall|j: int| ids.len() <= j < marks.len() ==> #[trigger] marks[j] == 0,
    ensures
        keep_marked(ids, marks).len() <= marks.len(),
        keep_marked(ids, marks).len() <= ids.len(),
    decreases marks.len(),
{
    if marks.len() > 0 {
        let rest = marks.drop_last();
        assert forall|j: int| ids.len() <= j < rest.len() implies #[trigger] rest[j] == 0 by {
            assert(marks[j] == 0);
        }
        lemma_keep_marked_len(ids, rest);
        if marks.len() > ids.len() {
            assert(marks[marks.len() - 1] == 0);
        }
    }
}

/// A prefix never adds up to more than the whole.
pub(crate) proof fn lemma_total_prefix(row: Seq<u32>, n: int)
    requires
        0 <= n <= row.len(),
    ensures
        total(row.take(n)) <= total(row),
    decreases row.len(),
{
    if n == row.len() {
        assert(row.take(n) =~= row);
    } else {
        lemma_total_prefix(row.drop_last(), n);
        assert(row.drop_last().take(n) =~= row.take(n));
    }
}

/// Adds up a row of at most `u32::MAX` numbers.
pub fn sum_row(row: &Vec<u32>) -> (r: u64)
    requires
        row@.len() <= u32::MAX,
    ensures
        r == total(row@),
{
    let mut sum: u64 = 0;
    let mut i: usize = 0;
    while i < row.len()
        invariant
            row@.len() <= u32::MAX,
            i <= row@.len(),
            sum == total(row@.take(i as int)),
        decreases row@.len() - i,
    {
        assert(row@.take(i + 1).drop_last() =~= row@.take(i as int));
        proof {
            lemma_total_bound(row@.take(i + 1));
            assert((i + 1) * u32::MAX <= u32::MAX * u32::MAX) by (nonlinear_arith)
                requires
                    0 <= i + 1 <= u32::MAX,
            ;
        }
        sum = sum + row[i] as u64;
        i = i + 1;
    }
    assert(row@.take(i as int) =~= row@);
    sum
}

/// Keeps the ids whose mark is not zero.
pub fn select_marked(ids: &Vec<u32>, marks: &Vec<u32>) -> (r: Vec<u32>)
    requires
        forall|j: int| ids@.len() <= j < marks@.len() ==> #[trigger] marks@[j] == 0,
    ensures
        r@ == keep_marked(ids@, marks@),
{
    let mut out: Vec<u32> = Vec::new();
    let mut i: usize = 0;
    while i < marks.len()
        invariant
            forall|j: int| ids@.len() <= j < marks@.len() ==> #[trigger] marks@[j] == 0,
            i <= marks@.len(),
            out@ == keep_marked(ids@, marks@.take(i as int)),
        decreases marks@.len() - i,
    {
        assert(marks@.take(i + 1).drop_last() =~= marks@.take(i as int));
        if marks[i] != 0 {
            out.push(ids[i]);
        }
        i = i + 1;
    }
    assert(marks@.take(i as int) =~= marks@);
    out
}

/// How many of the first `n` marks are not zero.
pub open spec fn kept_before(marks: Seq<u32>, n: nat) -> nat
    decreases n,
{
    if n == 0 {
        0
    } else {
        kept_before(marks, (n - 1) as nat) + if marks[n - 1] != 0 {
            1nat
        } else {
            0nat
        }
    }
}

proof fn lemma_kept_before(marks: Seq<u32>, head: Seq<u32>, n: nat)
    requires
        n <= head.len() <= marks.len(),
        forall|i: int| 0 <= i < head.len() ==> #[trigger] head[i] == marks[i],
    ensures
        kept_before(marks, n) == kept_before(head, n),
    decreases n,
{
    if n > 0 {
        lemma_kept_before(marks, head, (n - 1) as nat);
        assert(head[n - 1] == marks[n - 1]);
    }
}

/// The tokens whose mark is not zero are kept, all of them, in their order.
pub proof fn marked_tokens_are_kept(ids: Seq<u32>, marks: Seq<u32>, j: int)
    requires
        0 <= j < marks.len(),
        marks[j] != 0,
    ensures
        keep_marked(ids, marks).len() == kept_before(marks, marks.len()),
        kept_before(marks, j as nat) < keep_marked(ids, marks).len(),
        keep_marked(ids, marks)[kept_before(marks, j as nat) as int] == ids[j],
    decreases marks.len(),
{
    let head = marks.drop_last();
    lemma_kept_len(ids, marks);
    lemma_kept_len(ids, head);
    lemma_kept_before(marks, head, head.len());
    if j < head.len() {
        marked_tokens_are_kept(ids, head, j);
        lemma_kept_before(marks, head, j as nat);
    }
}

proof fn lemma_kept_len(ids: Seq<u32>, marks: Seq<u32>)
    ensures
        keep_marked(ids, marks).len() == kept_before(marks, marks.len()),
    decreases marks.len(),
{
    if marks.len() > 0 {
        let head = marks.drop_last();
        lemma_kept_len(ids, head);
        lemma_kept_before(marks, head, head.len());
    }
}

/// Sums add up: a number alone is its own sum, and the sum of two rows put together is that
/// of both.
pub proof fn sums_add_up(a: Seq<u32>, b: Seq<u32>, x: u32)
    ensures
        total(Seq::<u32>::empty()) == 0,
        total(seq![x]) == x,
        total(a + b) == total(a) + total(b),
    decreases b.len(),
{
    reveal_with_fuel(total, 2);
    assert(seq![x].drop_last() =~= Seq::<u32>::empty());
    if b.len() == 0 {
        assert(a + b =~= a);
    } else {
        sums_add_up(a, b.drop_last(), x);
        assert((a + b).drop_last() =~= a + b.drop_last());
        assert((a + b).last() == b.last());
    }
}

/// Tokens are read row by row: token `j` of prompt `i` is the element at that place.
pub proof fn tokens_are_read_row_by_row(m: TokenRows, t: Tensor, i: int, j: int)
    requires
        m.read_from(t),
        0 <= i < crate::tensor::tensor_dims(t)[0],
        0 <= j < crate::tensor::tensor_dims(t)[1],
    ensures
        m.cells().len() == crate::tensor::tensor_dims(t)[0],
        m.cells()[i].len() == m.width,
        m.width == crate::tensor::tensor_dims(t)[1],
        m.cells()[i][j] == crate::tensor::tensor_elements(t)[i * m.width + j],
{
    crate::tensor::matrices_read_row_by_row(t, i, j);
}

} // verus!
