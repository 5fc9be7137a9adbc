//! Cutting a range into consecutive pieces of bounded length.
use vstd::prelude::*;

verus! {

/// A piece of a range: where it starts and how much it takes.
#[derive(Clone, Copy, Debug, PartialEq, Eq, Structural)]
pub struct Span {
    pub start: usize,
    pub take: usize,
}

impl Span {
    /// The first place after the span.
    pub open spec fn end(self) -> int {
        self.start + self.take
    }
}

/// How many pieces of at most `step` it takes to cover `total`.
pub open spec fn span_count(total: nat, step: nat) -> nat {
    ((total + step - 1) / step as int) as nat
}

/// Piece `i`: every piece but the last is full.
pub open spec fn span_at(total: nat, step: nat, i: int) -> Span {
    Span {
        start: (i * step) as usize,
        take: if (i + 1) * step <= total {
            step as usize
        } else {
            (total - i * step) as usize
        },
    }
}

/// The pieces of a range, in order.
pub open spec fn spans(total: nat, step: nat) -> Seq<Span> {
    Seq::new(span_count(total, step), |i: int| span_at(total, step, i))
}

/// Cuts `total` into pieces of at most `step`.
pub fn cut(total: usize, step: usize) -> (r: Vec<Span>)
    requires
        step > 0,
    ensures
        r@ == spans(total as nat, step as nat),
{
    let mut out: Vec<Span> = Vec::new();
    let mut off: usize = 0;
    let ghost mut i: int = 0;
    proof {
        lemma_span_count(total as nat, step as nat, 0);
        assert(0 * step == 0) by (nonlinear_arith);
    }
    while off < total
        invariant
            step > 0,
            off <= total,
            i == out@.len(),
            off < total ==> off == i * step,
            off == total ==> i == span_count(total as nat, step as nat),
            off < total ==> i < span_count(total as nat, step as nat),
            forall|k: int|
                0 <= k < i ==> #[trigger] out@[k] == span_at(total as nat, step as nat, k),
        decreases total - off,
    {
        let left: usize = total - off;
        let take: usize = if left < step {
            left
        } else {
            step
        };
        proof {
            lemma_next_span(total as nat, step as nat, i);
        }
        out.push(Span { start: off, take });
        off = off + take;
        proof {
            i = i + 1;
        }
    }
    assert(out@ =~= spans(total as nat, step as nat));
    out
}

proof fn lemma_span_count(total: nat, step: nat, i: int)
    requires
        step > 0,
        i >= 0,
    ensures
        i < span_count(total, step) <==> i * step < total,
        total == 0 ==> span_count(total, step) == 0,
{
    let s = step as int;
    let q = (total + s - 1) / s;
    assert(q >= 0 && q * s <= total + s - 1 < (q + 1) * s) by (nonlinear_arith)
        requires
            s > 0,
            total >= 0,
            q == (total + s - 1) / s,
    ;
    if i < q {
        assert(i * s < total) by (nonlinear_arith)
            requires
                i + 1 <= q,
                q * s <= total + s - 1,
                s > 0,
        ;
    } else {
        assert(i * s >= total) by (nonlinear_arith)
            requires
                i >= q,
                total + s - 1 < (q + 1) * s,
                s > 0,
        ;
    }
    if total == 0 {
        assert(q == 0) by (nonlinear_arith)
            requires
                s > 0,
                q >= 0,
                q * s <= s - 1,
        ;
    }
}

proof fn lemma_next_span(total: nat, step: nat, i: int)
    requires
        step > 0,
        i >= 0,
        i * step < total,
    ensures
        (i + 1) * step == i * step + step,
        (i + 1) * step < total ==> i + 1 < span_count(total, step),
        (i + 1) * step >= total ==> i + 1 == span_count(total, step),
{
    assert((i + 1) * step == i * step + step) by (nonlinear_arith);
    lemma_span_count(total, step, i);
    lemma_span_count(total, step, i + 1);
}

/// Piece `i` starts where piece `i - 1` ends, lies inside the range, and is not empty.
pub proof fn span_bounds(total: nat, step: nat, i: int)
    requires
        step > 0,
        total <= usize::MAX,
        0 <= i < span_count(total, step),
    ensures
        spans(total, step)[i].start == i * step,
        0 < spans(total, step)[i].take <= step,
        spans(total, step)[i].end() <= total,
        spans(total, step)[i].end() == if i + 1 < span_count(total, step) {
            (i + 1) * step
        } else {
            total as int
        },
{
    lemma_span_count(total, step, i);
    lemma_next_span(total, step, i);
    assert(0 <= i * step) by (nonlinear_arith)
        requires
            i >= 0,
            step > 0,
    ;
}

/// The pieces of a sequence, put back together.
pub open spec fn joined<A>(s: Seq<A>, pieces: Seq<Span>) -> Seq<A>
    decreases pieces.len(),
{
    if pieces.len() == 0 {
        Seq::empty()
    } else {
        joined(s, pieces.drop_last()) + s.subrange(pieces.last().start as int, pieces.last().end())
    }
}

proof fn lemma_joined_prefix<A>(s: Seq<A>, step: nat, n: nat)
    requires
        step > 0,
        s.len() <= usize::MAX,
        n <= span_count(s.len(), step),
    ensures
        n == 0 ==> joined(s, spans(s.len(), step).take(0)) == s.take(0),
        n > 0 ==> joined(s, spans(s.len(), step).take(n as int)) == s.take(
            spans(s.len(), step)[n - 1].end(),
        ),
    decreases n,
{
    let all = spans(s.len(), step);
    if n == 0 {
        assert(all.take(0) =~= Seq::<Span>::empty());
        assert(s.take(0) =~= Seq::<A>::empty());
    } else {
        lemma_joined_prefix(s, step, (n - 1) as nat);
        span_bounds(s.len(), step, n - 1);
        if n > 1 {
            span_bounds(s.len(), step, n - 2);
        } else {
            assert(0 * step == 0) by (nonlinear_arith);
        }
        let head = all.take(n as int);
        assert(head.drop_last() =~= all.take(n - 1));
        assert(head.last() == all[n - 1]);
        let a = all[n - 1];
        assert(s.take(a.start as int) + s.subrange(a.start as int, a.end()) =~= s.take(a.end()));
    }
}

/// Cutting a sequence and putting the pieces back together in order gives the sequence.
pub proof fn cut_then_join<A>(s: Seq<A>, step: nat)
    requires
        step > 0,
        s.len() <= usize::MAX,
    ensures
        joined(s, spans(s.len(), step)) == s,
{
    let n = span_count(s.len(), step);
    lemma_joined_prefix(s, step, n);
    assert(spans(s.len(), step).take(n as int) =~= spans(s.len(), step));
    lemma_span_count(s.len(), step, 0);
    if n > 0 {
        span_bounds(s.len(), step, n - 1);
        assert(s.take(s.len() as int) =~= s);
    } else {
        assert(0 * step == 0) by (nonlinear_arith);
        assert(s.take(0) =~= s);
    }
}

} // verus!
