//! Positions of tokens that follow a prompt already in the cache.
use vstd::prelude::*;

use crate::error::ModelError;
use crate::grid::Thw;
use crate::positions::{PositionIds, RopeDeltas};
use crate::rope::{Position, PromptLayout};
use crate::tensor::Element;

verus! {

/// The value that prompt `i` and token `j` read from a matrix whose single row or column
/// serves all.
pub open spec fn cell(values: Seq<int>, height: nat, width: nat, i: int, j: int) -> int {
    let row = if height == 1 {
        0
    } else {
        i
    };
    let column = if width == 1 {
        0
    } else {
        j
    };
    values[row * width + column]
}

/// How many positions the type of the differences tells apart.
pub open spec fn span(element: Element) -> int {
    if element == Element::U8 {
        0x100
    } else {
        0x1_0000_0000
    }
}

/// A cache position moved by a difference, as an unsigned number of the type's size, and of
/// 32 bits at most.
pub open spec fn moved(element: Element, cache: nat, delta: int) -> nat {
    ((cache + delta) % span(element)) as nat
}

/// The position of token `j` of prompt `i`.
pub open spec fn continued_at(
    element: Element,
    cache: nat,
    values: Seq<int>,
    height: nat,
    width: nat,
    i: int,
    j: int,
) -> nat {
    (j + moved(element, cache, cell(values, height, width, i, j))) as nat
}

/// Whether every position is an unsigned 32-bit number.
pub open spec fn continued_fits(
    element: Element,
    cache: nat,
    values: Seq<int>,
    height: nat,
    width: nat,
    prompts: nat,
    tokens: nat,
) -> bool {
    forall|i: int, j: int|
        0 <= i < prompts && 0 <= j < tokens ==> #[trigger] continued_at(
            element,
            cache,
            values,
            height,
            width,
            i,
            j,
        ) <= u32::MAX
}

/// The positions of `tokens` further tokens of each prompt, the first of them at `cache`.
pub open spec fn continued(
    element: Element,
    cache: nat,
    values: Seq<int>,
    height: nat,
    width: nat,
    prompts: nat,
    tokens: nat,
) -> Result<Seq<Seq<(nat, nat, nat)>>, ModelError> {
    if (height != 1 && height != prompts) || (width != 1 && width != tokens) {
        Err(ModelError::ShapeMismatch)
    } else if !continued_fits(element, cache, values, height, width, prompts, tokens) {
        Err(ModelError::Overflow)
    } else {
        Ok(
            Seq::new(
                prompts,
                |i: int|
                    Seq::new(
                        tokens,
                        |j: int|
                            {
                                let p = continued_at(element, cache, values, height, width, i, j);
                                (p, p, p)
                            },
                    ),
            ),
        )
    }
}

/// The differences as numbers.
pub open spec fn delta_values(d: RopeDeltas) -> Seq<int> {
    d.values@.map_values(|x: i64| x as int)
}

proof fn lemma_cell_index(height: nat, width: nat, row: int, column: int)
    requires
        0 <= row < height,
        0 <= column < width,
    ensures
        0 <= row * width + column < height * width,
        0 <= row * width <= height * width,
{
    assert(0 <= row * width + column < height * width && 0 <= row * width <= height * width)
        by (nonlinear_arith)
        requires
            0 <= row < height,
            0 <= column < width,
    ;
}

proof fn lemma_moved(element: Element, cache: u32, d: i64, base: i64)
    requires
        element.is_index(),
        crate::positions::can_hold(element, d as int),
        base == if element == Element::U8 {
            (cache + d) % 0x100
        } else if cache + d < 0 {
            cache + d + 0x1_0000_0000
        } else if cache + d >= 0x1_0000_0000 {
            cache + d - 0x1_0000_0000
        } else {
            cache + d
        },
    ensures
        base == moved(element, cache as nat, d as int),
{
}

/// The positions of `tokens` further tokens of each prompt after the differences were taken.
#[verifier::rlimit(40)]
pub fn continue_positions(cache: u32, deltas: &RopeDeltas, prompts: usize, tokens: usize) -> (r:
    Result<PositionIds, ModelError>)
    requires
        deltas.wf(),
        deltas.element.is_index(),
    ensures
        ({
            let want = continued(
                deltas.element,
                cache as nat,
                delta_values(*deltas),
                deltas.height as nat,
                deltas.width as nat,
                prompts as nat,
                tokens as nat,
            );
            match r {
                Ok(p) => p.wf() && p.width == tokens && want == Ok::<
                    Seq<Seq<(nat, nat, nat)>>,
                    ModelError,
                >(p.cells()),
                Err(e) => want == Err::<Seq<Seq<(nat, nat, nat)>>, ModelError>(e),
            }
        }),
{
    let height: usize = deltas.height;
    let width: usize = deltas.width;
    if (height != 1 && height != prompts) || (width != 1 && width != tokens) {
        return Err(ModelError::ShapeMismatch);
    }
    let ghost values = delta_values(*deltas);
    let element = deltas.element;
    let ghost rows = Seq::new(
        prompts as nat,
        |i: int|
            Seq::new(
                tokens as nat,
                |j: int|
                    {
                        let p = continued_at(
                            element,
                            cache as nat,
                            values,
                            height as nat,
                            width as nat,
                            i,
                            j,
                        );
                        (p, p, p)
                    },
            ),
    );
    let mut out = PositionIds { rows: Vec::new(), width: tokens };
    assert(out.cells() =~= rows.take(0));
    let mut i: usize = 0;
    while i < prompts
        invariant
            deltas.wf(),
            element == deltas.element,
            element.is_index(),
            height == deltas.height,
            width == deltas.width,
            height == 1 || height == prompts,
            width == 1 || width == tokens,
            values == delta_values(*deltas),
            rows.len() == prompts,
            forall|i: int|
                0 <= i < prompts ==> #[trigger] rows[i] == Seq::new(
                    tokens as nat,
                    |j: int|
                        {
                            let p = continued_at(
                                element,
                                cache as nat,
                                values,
                                height as nat,
                                width as nat,
                                i,
                                j,
                            );
                            (p, p, p)
                        },
                ),
            i <= prompts,
            out.width == tokens,
            out.wf(),
            out.cells() == rows.take(i as int),
            forall|a: int, b: int|
                0 <= a < i && 0 <= b < tokens ==> #[trigger] continued_at(
                    element,
                    cache as nat,
                    values,
                    height as nat,
                    width as nat,
                    a,
                    b,
                ) <= u32::MAX,
        decreases prompts - i,
    {
        let ghost line = rows[i as int];
        let mut columns: Vec<Position> = Vec::new();
        assert(crate::rope::coords(columns@) =~= line.take(0));
        let row: usize = if height == 1 {
            0
        } else {
            i
        };
        let mut j: usize = 0;
        while j < tokens
            invariant
                deltas.wf(),
                element == deltas.element,
                element.is_index(),
                height == deltas.height,
                width == deltas.width,
                height == 1 || height == prompts,
                width == 1 || width == tokens,
                values == delta_values(*deltas),
                i < prompts,
                row == if height == 1 {
                    0
                } else {
                    i
                },
                line == Seq::new(
                    tokens as nat,
                    |j: int|
                        {
                            let p = continued_at(
                                element,
                                cache as nat,
                                values,
                                height as nat,
                                width as nat,
                                i as int,
                                j,
                            );
                            (p, p, p)
                        },
                ),
                j <= tokens,
                crate::rope::coords(columns@) == line.take(j as int),
                forall|b: int|
                    0 <= b < j ==> #[trigger] continued_at(
                        element,
                        cache as nat,
                        values,
                        height as nat,
                        width as nat,
                        i as int,
                        b,
                    ) <= u32::MAX,
            decreases tokens - j,
        {
            let column: usize = if width == 1 {
                0
            } else {
                j
            };
            let cells: usize = deltas.values.len();
            proof {
                lemma_cell_index(height as nat, width as nat, row as int, column as int);
                assert(row * width + column < cells);
            }
            let d: i64 = deltas.values[row * width + column];
            let sum: i64 = cache as i64 + d;
            assert(crate::positions::can_hold(element, d as int));
            let base: i64 = if element == Element::U8 {
                sum % 0x100
            } else if sum < 0 {
                sum + 0x1_0000_0000
            } else if sum >= 0x1_0000_0000 {
                sum - 0x1_0000_0000
            } else {
                sum
            };
            let ghost want = continued_at(
                element,
                cache as nat,
                values,
                height as nat,
                width as nat,
                i as int,
                j as int,
            );
            assert(d as int == cell(values, height as nat, width as nat, i as int, j as int));
            proof {
                lemma_moved(element, cache, d, base);
            }
            assert(want == j + base);
            if j > u32::MAX as usize || base > u32::MAX as i64 - j as i64 {
                return Err(ModelError::Overflow);
            }
            let p: u32 = base as u32 + j as u32;
            let at = Position { t: p, h: p, w: p };
            let ghost was = columns@;
            columns.push(at);
            assert(crate::rope::coords(columns@) =~= crate::rope::coords(was).push(at@));
            assert(crate::rope::coords(columns@) =~= line.take(j + 1));
            j = j + 1;
        }
        assert(line.take(j as int) =~= line);
        let ghost was = out.cells();
        out.rows.push(columns);
        assert(out.cells() =~= was.push(line));
        assert(out.cells() =~= rows.take(i + 1));
        i = i + 1;
    }
    assert(rows.take(i as int) =~= rows);
    Ok(out)
}

/// Decoding goes on right after the prompt: the `k`-th new token of a prompt of `n` tokens
/// gets the `k`-th position above the largest one in the prompt, on all three axes.
pub proof fn decoding_continues_the_prompt(
    element: Element,
    layout: PromptLayout,
    images: Seq<Thw>,
    videos: Seq<Thw>,
    ids: Seq<u32>,
    from: (nat, nat),
    k: nat,
)
    requires
        element == Element::U32 || element == Element::I64,
        crate::rope::place_row(layout, images, videos, ids, ids.len(), from) is Ok,
        ids.len() + k <= u32::MAX,
    ensures
        ({
            let placed = crate::rope::place_row(layout, images, videos, ids, ids.len(), from)->Ok_0;
            let p = (placed.next + k) as nat;
            &&& continued(
                element,
                ids.len() + k,
                seq![placed.next - ids.len()],
                1,
                1,
                1,
                1,
            ) == Ok::<Seq<Seq<(nat, nat, nat)>>, ModelError>(seq![seq![(p, p, p)]])
            &&& crate::rope::walk_inv(placed, ids.len())
        }),
{
    crate::rope::place_row_inv(layout, images, videos, ids, ids.len(), from);
    let placed = crate::rope::place_row(layout, images, videos, ids, ids.len(), from)->Ok_0;
    let values = seq![placed.next - ids.len()];
    let cache = ids.len() + k;
    let p = (placed.next + k) as nat;
    assert(cell(values, 1, 1, 0, 0) == placed.next - ids.len()) by {
        assert(0 * 1 + 0 == 0);
    }
    assert(continued_at(element, cache, values, 1, 1, 0, 0) == p);
    assert forall|i: int, j: int| 0 <= i < 1 && 0 <= j < 1 implies #[trigger] continued_at(
        element,
        cache,
        values,
        1,
        1,
        i,
        j,
    ) <= u32::MAX by {
        assert(i == 0 && j == 0);
    }
    let got = continued(element, cache, values, 1, 1, 1, 1)->Ok_0;
    assert(got[0] =~= seq![(p, p, p)]);
    assert(got =~= seq![seq![(p, p, p)]]);
}

/// Batches of plain text go on where the cache ends: every prompt gets the positions from
/// `cache` on.
pub proof fn text_continues_at_the_cache(
    prompts: nat,
    width: nat,
    element: Element,
    cache: nat,
    tokens: nat,
)
    requires
        element == Element::U32 || element == Element::I64,
        cache + tokens <= u32::MAX,
    ensures
        ({
            let text = crate::positions::text_index(prompts, width, element);
            continued(element, cache, text.deltas, text.height, text.width, prompts, tokens) == Ok::<
                Seq<Seq<(nat, nat, nat)>>,
                ModelError,
            >(Seq::new(prompts, |i: int| crate::rope::text_run(cache, tokens)))
        }),
{
    let text = crate::positions::text_index(prompts, width, element);
    assert forall|i: int, j: int| 0 <= i < prompts && 0 <= j < tokens implies #[trigger] continued_at(
        element,
        cache,
        text.deltas,
        text.height,
        text.width,
        i,
        j,
    ) == cache + j by {
        let row = if prompts == 1 {
            0
        } else {
            i
        };
        assert(row * 1 + 0 == row);
        assert(cell(text.deltas, text.height, text.width, i, j) == text.deltas[row]);
    }
    let got = continued(element, cache, text.deltas, text.height, text.width, prompts, tokens)->Ok_0;
    assert forall|i: int| 0 <= i < prompts implies #[trigger] got[i] == crate::rope::text_run(
        cache,
        tokens,
    ) by {
        assert forall|j: int| 0 <= j < tokens implies #[trigger] got[i][j] == crate::rope::text_run(
            cache,
            tokens,
        )[j] by {
            assert(continued_at(element, cache, text.deltas, text.height, text.width, i, j) == cache + j);
        }
        assert(got[i] =~= crate::rope::text_run(cache, tokens));
    }
    assert(got =~= Seq::new(prompts, |i: int| crate::rope::text_run(cache, tokens)));
}

/// Later tokens are counted on from the cache: token `j` of a prompt sits `j` places above the
/// cache position moved by the prompt's difference, on all three axes alike. The moved position
/// wraps at 32 bits, and at 8 where the differences are bytes. A single row of differences
/// serves all prompts, a single column all tokens.
pub proof fn tokens_are_counted_on(
    element: Element,
    cache: nat,
    values: Seq<int>,
    height: nat,
    width: nat,
    prompts: nat,
    tokens: nat,
    i: int,
    j: int,
)
    requires
        continued(element, cache, values, height, width, prompts, tokens) is Ok,
        0 <= i < prompts,
        0 <= j < tokens,
    ensures
        ({
            let rows = continued(element, cache, values, height, width, prompts, tokens)->Ok_0;
            let p = rows[i][j];
            let row = if height == 1 {
                0
            } else {
                i
            };
            let column = if width == 1 {
                0
            } else {
                j
            };
            let d = values[row * width + column];
            &&& rows.len() == prompts
            &&& rows[i].len() == tokens
            &&& p.0 == p.1 == p.2
            &&& p.0 <= 0xffff_ffff
            &&& element == Element::U8 ==> 0 <= p.0 - j < 0x100 && (p.0 - j - cache - d) % 0x100 == 0
            &&& element != Element::U8 ==> 0 <= p.0 - j < 0x1_0000_0000 && (p.0 - j - cache - d)
                % 0x1_0000_0000 == 0
            &&& height == 1 || height == prompts
            &&& width == 1 || width == tokens
        }),
{
    let at = continued_at(element, cache, values, height, width, i, j);
    assert(at <= u32::MAX);
    let d = cell(values, height, width, i, j);
    let s = span(element);
    assert((cache + d) % s >= 0);
    if element == Element::U8 {
        assert(((cache + d) % 0x100 - cache - d) % 0x100 == 0);
    } else {
        assert(((cache + d) % 0x1_0000_0000 - cache - d) % 0x1_0000_0000 == 0);
    }
}

/// Later tokens are refused only for a reason: differences of another shape, or a position
/// past 32 bits.
pub proof fn later_tokens_are_accepted(
    element: Element,
    cache: nat,
    values: Seq<int>,
    height: nat,
    width: nat,
    prompts: nat,
    tokens: nat,
)
    requires
        values.len() == height * width,
        element == Element::U8 ==> 0x100 + tokens <= 0x1_0000_0000,
        element != Element::U8 ==> forall|k: int|
            0 <= k < values.len() ==> (cache + #[trigger] values[k]) % 0x1_0000_0000 + tokens
                <= 0x1_0000_0000,
    ensures
        continued(element, cache, values, height, width, prompts, tokens) is Ok <==> (height == 1
            || height == prompts) && (width == 1 || width == tokens),
        continued(element, cache, values, height, width, prompts, tokens) is Err ==> continued(
            element,
            cache,
            values,
            height,
            width,
            prompts,
            tokens,
        )->Err_0 == ModelError::ShapeMismatch,
{
    if (height == 1 || height == prompts) && (width == 1 || width == tokens) {
        assert forall|i: int, j: int| 0 <= i < prompts && 0 <= j < tokens implies #[trigger] continued_at(
            element,
            cache,
            values,
            height,
            width,
            i,
            j,
        ) <= u32::MAX by {
            let row = if height == 1 {
                0
            } else {
                i
            };
            let column = if width == 1 {
                0
            } else {
                j
            };
            lemma_cell_index(height, width, row, column);
            let d = values[row * width + column];
            if element != Element::U8 {
                assert((cache + d) % 0x1_0000_0000 + tokens <= 0x1_0000_0000);
            }
        }
    }
}

/// Decoding goes on right after a masked prompt, too: the `k`-th new token gets the `k`-th
/// position above the largest one that its mask gave, though the difference is kept unsigned.
pub proof fn decoding_continues_a_masked_prompt(mask: Seq<u32>, top: nat, k: nat)
    requires
        forall|j: int|
            0 <= j < mask.len() ==> (#[trigger] crate::positions::mask_columns(
                mask,
                mask.len(),
            )[j]).0 <= top,
        exists|j: int|
            0 <= j < mask.len() && (#[trigger] crate::positions::mask_columns(
                mask,
                mask.len(),
            )[j]).0 == top,
        top + 1 + k <= u32::MAX,
    ensures
        ({
            let p = (top + 1 + k) as nat;
            continued(
                Element::U32,
                mask.len() + k,
                seq![crate::positions::mask_delta(mask)],
                1,
                1,
                1,
                1,
            ) == Ok::<Seq<Seq<(nat, nat, nat)>>, ModelError>(seq![seq![(p, p, p)]])
        }),
{
    crate::positions::masked_prompts_go_on_above(mask, top);
    let d = crate::positions::mask_delta(mask);
    let values = seq![d];
    let cache = mask.len() + k;
    let p = (top + 1 + k) as nat;
    assert(cell(values, 1, 1, 0, 0) == d) by {
        assert(0 * 1 + 0 == 0);
    }
    assert((cache + d) % 0x1_0000_0000 == p);
    assert(continued_at(Element::U32, cache, values, 1, 1, 0, 0) == p);
    assert forall|i: int, j: int| 0 <= i < 1 && 0 <= j < 1 implies #[trigger] continued_at(
        Element::U32,
        cache,
        values,
        1,
        1,
        i,
        j,
    ) <= u32::MAX by {
        assert(i == 0 && j == 0);
    }
    let got = continued(Element::U32, cache, values, 1, 1, 1, 1)->Ok_0;
    assert(got[0] =~= seq![(p, p, p)]);
    assert(got =~= seq![seq![(p, p, p)]]);
}

/// Stored differences are taken as they are.
pub proof fn differences_are_taken_as_they_are(d: RopeDeltas, i: int)
    requires
        0 <= i < d.values@.len(),
    ensures
        delta_values(d).len() == d.values@.len(),
        delta_values(d)[i] == d.values@[i],
{
}

} // verus!
