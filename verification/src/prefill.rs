//! Feeding a prompt to the language model in bounded passes.
use vstd::prelude::*;

use crate::marks::MarkRows;
use crate::spans::{cut, Span};

verus! {

/// The most tokens that one pass takes.
pub const CHUNK: usize = 256;

/// What a pass gets of the deep visual features.
#[derive(Clone, Copy, Debug, PartialEq, Eq, Structural)]
pub enum PassVisual {
    /// No visual token is in this pass.
    Nothing,
    /// The marks and the features as they are, uncut.
    Whole,
    /// The marks of this pass and the feature rows `from..from + count`.
    Rows { from: usize, count: usize },
}

/// One pass of the language model over consecutive tokens.
#[derive(Clone, Copy, Debug, PartialEq, Eq, Structural)]
pub struct PrefillPass {
    /// The first token of the pass.
    pub start: usize,
    /// How many tokens it takes.
    pub take: usize,
    /// How many tokens the cache holds before it.
    pub offset: usize,
    pub visual: PassVisual,
}

/// What the tokens `start..end` get of the visual features: nothing where none of them is
/// visual, else the rows after those of the tokens before.
pub open spec fn visual_rows(marks: Seq<Seq<bool>>, start: int, end: int) -> PassVisual {
    if crate::marks::count_columns(marks, start, end) == 0 {
        PassVisual::Nothing
    } else {
        PassVisual::Rows {
            from: crate::marks::count_columns(marks, 0, start) as usize,
            count: crate::marks::count_columns(marks, start, end) as usize,
        }
    }
}

/// The pass over one span of a prompt.
pub open spec fn pass_over(span: Span, offset: nat, marks: Option<Seq<Seq<bool>>>) -> PrefillPass {
    PrefillPass {
        start: span.start,
        take: span.take,
        offset: (offset + span.start) as usize,
        visual: match marks {
            None => PassVisual::Nothing,
            Some(m) => visual_rows(m, span.start as int, span.end()),
        },
    }
}

/// The passes over a prompt of `total` tokens. A single token goes through as it is.
pub open spec fn passes(total: nat, offset: nat, marks: Option<Seq<Seq<bool>>>) -> Seq<
    PrefillPass,
> {
    if total > 1 {
        crate::spans::spans(total, CHUNK as nat).map_values(
            |s: Span| pass_over(s, offset, marks),
        )
    } else {
        seq![
            PrefillPass {
                start: 0,
                take: total as usize,
                offset: offset as usize,
                visual: if marks is Some {
                    PassVisual::Whole
                } else {
                    PassVisual::Nothing
                },
            },
        ]
    }
}

/// The marks of an optional mark matrix.
pub open spec fn marks_view(marks: Option<&MarkRows>) -> Option<Seq<Seq<bool>>> {
    match marks {
        None => None,
        Some(m) => Some(m.cells()),
    }
}

/// Plans the passes over a prompt of `total` tokens after `offset` cached ones.
pub fn plan_passes(total: usize, offset: usize, marks: Option<&MarkRows>) -> (r: Vec<PrefillPass>)
    requires
        offset + total <= usize::MAX,
        marks matches Some(m) ==> m.wf() && m.width == total && m.cells().len() * m.width <= usize::MAX,
    ensures
        r@ == passes(total as nat, offset as nat, marks_view(marks)),
{
    let mut out: Vec<PrefillPass> = Vec::new();
    if total <= 1 {
        let visual = if marks.is_some() {
            PassVisual::Whole
        } else {
            PassVisual::Nothing
        };
        out.push(PrefillPass { start: 0, take: total, offset, visual });
        assert(out@ =~= passes(total as nat, offset as nat, marks_view(marks)));
        return out;
    }
    let pieces = cut(total, CHUNK);
    let ghost want = passes(total as nat, offset as nat, marks_view(marks));
    let mut seen: usize = 0;
    let mut i: usize = 0;
    proof {
        if let Some(m) = marks {
            lemma_no_columns(m.cells());
        }
    }
    while i < pieces.len()
        invariant
            total > 1,
            offset + total <= usize::MAX,
            marks matches Some(m) ==> m.wf() && m.width == total && m.cells().len() * m.width
                <= usize::MAX,
            pieces@ == crate::spans::spans(total as nat, CHUNK as nat),
            want == passes(total as nat, offset as nat, marks_view(marks)),
            i <= pieces@.len(),
            out@ == want.take(i as int),
            marks matches Some(m) ==> seen == crate::marks::count_columns(
                m.cells(),
                0,
                if i < pieces@.len() {
                    pieces@[i as int].start as int
                } else {
                    total as int
                },
            ),
        decreases pieces@.len() - i,
    {
        let s = pieces[i];
        proof {
            crate::spans::span_bounds(total as nat, CHUNK as nat, i as int);
            if i + 1 < pieces@.len() {
                crate::spans::span_bounds(total as nat, CHUNK as nat, i + 1);
            }
        }
        let mut visual = PassVisual::Nothing;
        if let Some(m) = marks {
            let n = m.count_columns(s.start, s.start + s.take);
            if n > 0 {
                visual = PassVisual::Rows { from: seen, count: n };
            }
            proof {
                crate::marks::lemma_columns_add(m.cells(), 0, s.start as int, s.end());
                crate::marks::lemma_columns_bound(m.cells(), 0, s.end());
                assert(m.cells().len() * s.end() <= m.cells().len() * m.width) by (nonlinear_arith)
                    requires
                        s.end() <= m.width,
                ;
            }
            seen = seen + n;
        }
        let pass = PrefillPass { start: s.start, take: s.take, offset: offset + s.start, visual };
        assert(pass == want[i as int]);
        out.push(pass);
        assert(out@ =~= want.take(i + 1));
        i = i + 1;
    }
    assert(want.take(i as int) =~= want);
    out
}

proof fn lemma_no_columns(rows: Seq<Seq<bool>>)
    ensures
        crate::marks::count_columns(rows, 0, 0) == 0,
    decreases rows.len(),
{
    if rows.len() > 0 {
        lemma_no_columns(rows.drop_last());
        assert(rows.last().subrange(0, 0).len() == 0);
    }
}

/// The passes over a longer prompt follow each other without gap or overlap from the first
/// token to the last, none takes more than the limit, and the cache grows along.
pub proof fn passes_cover(total: nat, offset: nat, marks: Option<Seq<Seq<bool>>>, i: int)
    requires
        total > 1,
        offset + total <= usize::MAX,
        0 <= i < passes(total, offset, marks).len(),
    ensures
        ({
            let p = passes(total, offset, marks);
            &&& p[0].start == 0
            &&& 0 < p[i].take <= CHUNK
            &&& p[i].offset == offset + p[i].start
            &&& i + 1 < p.len() ==> p[i + 1].start == p[i].start + p[i].take
            &&& i + 1 == p.len() ==> p[i].start + p[i].take == total
        }),
{
    crate::spans::span_bounds(total, CHUNK as nat, 0);
    crate::spans::span_bounds(total, CHUNK as nat, i);
    if i + 1 < passes(total, offset, marks).len() {
        crate::spans::span_bounds(total, CHUNK as nat, i + 1);
    }
}

/// There is a last pass, it takes a token at least, and it ends with the prompt.
pub proof fn last_pass_ends(total: nat, offset: nat, marks: Option<Seq<Seq<bool>>>)
    requires
        0 < total,
        offset + total <= usize::MAX,
    ensures
        ({
            let p = passes(total, offset, marks);
            &&& p.len() > 0
            &&& p.last().take > 0
            &&& p.last().start + p.last().take == total
        }),
{
    if total > 1 {
        let p = passes(total, offset, marks);
        assert(p.len() > 0) by {
            assert((total + CHUNK - 1) / CHUNK as int >= 1);
        }
        passes_cover(total, offset, marks, p.len() - 1);
    }
}

/// Each pass takes the feature rows right after those of the passes before it, and no pass
/// reaches past the number of visual tokens of the prompt.
pub proof fn passes_use_features_in_order(
    total: nat,
    offset: nat,
    marks: Seq<Seq<bool>>,
    i: int,
)
    requires
        total > 1,
        offset + total <= usize::MAX,
        forall|k: int| 0 <= k < marks.len() ==> (#[trigger] marks[k]).len() == total,
        marks.len() * total <= usize::MAX,
        0 <= i < passes(total, offset, Some(marks)).len(),
    ensures
        ({
            let p = passes(total, offset, Some(marks))[i];
            let before = crate::marks::count_columns(marks, 0, p.start as int);
            let after = crate::marks::count_columns(marks, 0, p.start + p.take);
            &&& after <= crate::marks::count_columns(marks, 0, total as int)
            &&& match p.visual {
                PassVisual::Nothing => after == before,
                PassVisual::Rows { from, count } => from == before && from + count == after
                    && count > 0,
                PassVisual::Whole => false,
            }
        }),
{
    crate::spans::span_bounds(total, CHUNK as nat, i);
    let s = crate::spans::spans(total, CHUNK as nat)[i];
    crate::marks::lemma_columns_add(marks, 0, s.start as int, s.end());
    crate::marks::lemma_columns_add(marks, 0, s.end(), total as int);
    crate::marks::lemma_columns_bound(marks, 0, total as int);
}

/// A longer prompt goes through in passes of 256 tokens each, of which only the last may be
/// shorter. A single token goes through alone, with all features where there are any.
pub proof fn passes_are_full(total: nat, offset: nat, marks: Option<Seq<Seq<bool>>>, i: int)
    requires
        0 < total,
        offset + total <= usize::MAX,
        0 <= i < passes(total, offset, marks).len(),
    ensures
        ({
            let p = passes(total, offset, marks);
            &&& p[i].start == 256 * i
            &&& p[i].offset == offset + 256 * i
            &&& i + 1 < p.len() ==> p[i].take == 256
            &&& i + 1 == p.len() ==> 0 < p[i].take <= 256 && 256 * i + p[i].take == total
            &&& total == 1 ==> p.len() == 1 && p[i].visual == if marks is Some {
                PassVisual::Whole
            } else {
                PassVisual::Nothing
            }
            &&& marks is None ==> p[i].visual == PassVisual::Nothing
        }),
{
    if total > 1 {
        crate::spans::span_bounds(total, CHUNK as nat, i);
    }
}

} // verus!
