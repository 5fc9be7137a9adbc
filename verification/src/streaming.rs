//! Running the blocks of the vision model, with their weights resident or streamed.
use vstd::prelude::*;

verus! {

/// One step of a pass through the blocks.
#[derive(Clone, Copy, Debug, PartialEq, Eq, Structural)]
pub enum BlockAction {
    /// Read the weights of a block.
    Load(usize),
    /// Run a block.
    Run(usize),
    /// Hand the hidden states to a deepstack merger.
    Deepstack(usize),
    /// Drop the weights of a block.
    Clear(usize),
}

/// The first place at or after `from` where `x` occurs.
pub open spec fn first_place(list: Seq<usize>, x: usize, from: nat) -> Option<nat>
    decreases list.len() - from,
{
    if from >= list.len() {
        None
    } else if list[from as int] == x {
        Some(from)
    } else {
        first_place(list, x, from + 1)
    }
}

/// The steps of one block: its weights are read first and dropped last when streaming, and
/// its output goes to the deepstack merger that stands after it, if there is one.
pub open spec fn block_actions(i: usize, streaming: bool, deepstack: Seq<usize>) -> Seq<
    BlockAction,
> {
    (if streaming {
        seq![BlockAction::Load(i)]
    } else {
        Seq::empty()
    }) + seq![BlockAction::Run(i)] + (match first_place(deepstack, i, 0) {
        Some(k) => seq![BlockAction::Deepstack(k as usize)],
        None => Seq::empty(),
    }) + (if streaming {
        seq![BlockAction::Clear(i)]
    } else {
        Seq::empty()
    })
}

/// The steps of the first `n` blocks.
pub open spec fn all_actions(n: nat, streaming: bool, deepstack: Seq<usize>) -> Seq<BlockAction>
    decreases n,
{
    if n == 0 {
        Seq::empty()
    } else {
        all_actions((n - 1) as nat, streaming, deepstack) + block_actions(
            (n - 1) as usize,
            streaming,
            deepstack,
        )
    }
}

fn find_place(list: &Vec<usize>, x: usize) -> (r: Option<usize>)
    ensures
        match r {
            Some(k) => first_place(list@, x, 0) == Some(k as nat),
            None => first_place(list@, x, 0) is None,
        },
{
    let mut k: usize = 0;
    while k < list.len()
        invariant
            k <= list@.len(),
            first_place(list@, x, 0) == first_place(list@, x, k as nat),
        decreases list@.len() - k,
    {
        if list[k] == x {
            return Some(k);
        }
        k = k + 1;
    }
    None
}

/// Plans a pass through `blocks` blocks.
pub fn plan_actions(blocks: usize, streaming: bool, deepstack: &Vec<usize>) -> (r: Vec<BlockAction>)
    ensures
        r@ == all_actions(blocks as nat, streaming, deepstack@),
{
    let mut out: Vec<BlockAction> = Vec::new();
    let mut i: usize = 0;
    while i < blocks
        invariant
            i <= blocks,
            out@ == all_actions(i as nat, streaming, deepstack@),
        decreases blocks - i,
    {
        let ghost before = out@;
        if streaming {
            out.push(BlockAction::Load(i));
        }
        out.push(BlockAction::Run(i));
        if let Some(k) = find_place(deepstack, i) {
            out.push(BlockAction::Deepstack(k));
        }
        if streaming {
            out.push(BlockAction::Clear(i));
        }
        assert(out@ =~= before + block_actions(i, streaming, deepstack@));
        i = i + 1;
    }
    out
}

/// The blocks whose weights are resident after some steps.
pub open spec fn resident_after(actions: Seq<BlockAction>, start: Set<usize>) -> Set<usize>
    decreases actions.len(),
{
    if actions.len() == 0 {
        start
    } else {
        let before = resident_after(actions.drop_last(), start);
        match actions.last() {
            BlockAction::Load(i) => before.insert(i),
            BlockAction::Clear(i) => before.remove(i),
            _ => before,
        }
    }
}

/// Every block that runs has its weights resident by then.
pub open spec fn runs_are_covered(actions: Seq<BlockAction>, start: Set<usize>) -> bool {
    forall|p: int|
        0 <= p < actions.len() ==> (#[trigger] actions[p] matches BlockAction::Run(i)
            ==> resident_after(actions.take(p), start).contains(i))
}

/// At no time are two blocks resident.
pub open spec fn one_at_a_time(actions: Seq<BlockAction>, start: Set<usize>) -> bool {
    forall|p: int, i: usize, j: usize|
        0 <= p <= actions.len() && #[trigger] resident_after(actions.take(p), start).contains(i)
            && #[trigger] resident_after(actions.take(p), start).contains(j) ==> i == j
}

/// Only the blocks below `n` appear in the steps of `n` blocks.
proof fn lemma_prefix(n: nat, deepstack: Seq<usize>, start: Set<usize>, p: int)
    requires
        n <= usize::MAX,
        0 <= p <= all_actions(n, true, deepstack).len(),
    ensures
        ({
            let all = all_actions(n, true, deepstack);
            let now = resident_after(all.take(p), start);
            &&& p < all.len() ==> (all[p] matches BlockAction::Run(i) ==> now.contains(i))
            &&& start.is_empty() ==> forall|i: usize, j: usize| #[trigger]
                now.contains(i) && #[trigger] now.contains(j) ==> i == j
            &&& p == all.len() ==> forall|i: usize| #[trigger]
                now.contains(i) <==> start.contains(i) && i >= n
        }),
    decreases n,
{
    let all = all_actions(n, true, deepstack);
    if n == 0 {
        assert(all.take(p) =~= Seq::<BlockAction>::empty());
    } else {
        let m = (n - 1) as nat;
        let b = m as usize;
        let head = all_actions(m, true, deepstack);
        let tail = block_actions(b, true, deepstack);
        assert(all == head + tail);
        if p < head.len() {
            lemma_prefix(m, deepstack, start, p);
            assert(all.take(p) =~= head.take(p));
            assert(all[p] == head[p]);
        } else {
            lemma_prefix(m, deepstack, start, head.len() as int);
            assert(head.take(head.len() as int) =~= head);
            let base = resident_after(head, start);
            let h = head.len() as int;
            let q = p - h;
            assert(tail[0] == BlockAction::Load(b));
            assert(tail[1] == BlockAction::Run(b));
            assert(tail.last() == BlockAction::Clear(b));
            assert(3 <= tail.len() <= 4);
            // the residents after q steps of this block
            if q == 0 {
                assert(all.take(p) =~= head);
            } else {
                let s1 = all.take(h + 1);
                assert(s1.drop_last() =~= head);
                assert(resident_after(s1, start) == base.insert(b));
                if q >= 2 {
                    let s2 = all.take(h + 2);
                    assert(s2.drop_last() =~= s1);
                    assert(resident_after(s2, start) == base.insert(b));
                    if q >= 3 {
                        let s3 = all.take(h + 3);
                        assert(s3.drop_last() =~= s2);
                        if tail.len() == 4 {
                            assert(tail[2] is Deepstack);
                            assert(resident_after(s3, start) == base.insert(b));
                            if q == 4 {
                                let s4 = all.take(h + 4);
                                assert(s4.drop_last() =~= s3);
                                assert(resident_after(s4, start) == base.insert(b).remove(b));
                            }
                        } else {
                            assert(resident_after(s3, start) == base.insert(b).remove(b));
                        }
                    }
                }
            }
        }
    }
}

/// A streamed pass reads the weights of every block before the block runs.
pub proof fn streamed_blocks_are_loaded(n: nat, deepstack: Seq<usize>, start: Set<usize>)
    requires
        n <= usize::MAX,
    ensures
        runs_are_covered(all_actions(n, true, deepstack), start),
{
    let all = all_actions(n, true, deepstack);
    assert forall|p: int| 0 <= p < all.len() implies (#[trigger] all[p] matches BlockAction::Run(
        i,
    ) ==> resident_after(all.take(p), start).contains(i)) by {
        lemma_prefix(n, deepstack, start, p);
    }
}

/// A streamed pass that starts with no block resident never holds more than one.
pub proof fn streaming_holds_one_block(n: nat, deepstack: Seq<usize>)
    requires
        n <= usize::MAX,
    ensures
        one_at_a_time(all_actions(n, true, deepstack), Set::empty()),
{
    let all = all_actions(n, true, deepstack);
    assert forall|p: int, i: usize, j: usize|
        0 <= p <= all.len() && #[trigger] resident_after(all.take(p), Set::empty()).contains(i)
            && #[trigger] resident_after(all.take(p), Set::empty()).contains(j) implies i == j by {
        lemma_prefix(n, deepstack, Set::empty(), p);
    }
}

/// A streamed pass leaves none of its blocks resident.
pub proof fn streaming_leaves_nothing(n: nat, deepstack: Seq<usize>, start: Set<usize>, i: usize)
    requires
        n <= usize::MAX,
        i < n,
    ensures
        !resident_after(all_actions(n, true, deepstack), start).contains(i),
{
    let all = all_actions(n, true, deepstack);
    lemma_prefix(n, deepstack, start, all.len() as int);
    assert(all.take(all.len() as int) =~= all);
}

/// A pass without streaming neither reads nor drops weights: what was resident stays so.
pub proof fn resident_blocks_stay(n: nat, deepstack: Seq<usize>, start: Set<usize>)
    ensures
        resident_after(all_actions(n, false, deepstack), start) == start,
    decreases n,
{
    if n > 0 {
        let head = all_actions((n - 1) as nat, false, deepstack);
        let tail = block_actions((n - 1) as usize, false, deepstack);
        resident_blocks_stay((n - 1) as nat, deepstack, start);
        assert(1 <= tail.len() <= 2);
        let all = head + tail;
        assert(all == all_actions(n, false, deepstack));
        assert(tail[0] is Run);
        if tail.len() == 1 {
            assert(all.last() == tail[0]);
            assert(all.drop_last() =~= head);
        } else {
            assert(tail[1] is Deepstack);
            assert(all.last() == tail[1]);
            let less = all.drop_last();
            assert(less.last() == tail[0]);
            assert(less.drop_last() =~= head);
            assert(resident_after(less, start) == start);
        }
    }
}

/// The runs among the steps.
pub open spec fn runs(actions: Seq<BlockAction>) -> Seq<usize>
    decreases actions.len(),
{
    if actions.len() == 0 {
        Seq::empty()
    } else {
        match actions.last() {
            BlockAction::Run(i) => runs(actions.drop_last()).push(i),
            _ => runs(actions.drop_last()),
        }
    }
}

/// Streamed or not, every block runs once, in order.
pub proof fn every_block_runs_once(n: nat, streaming: bool, deepstack: Seq<usize>)
    requires
        n <= usize::MAX,
    ensures
        runs(all_actions(n, streaming, deepstack)) == Seq::new(n, |i: int| i as usize),
    decreases n,
{
    if n > 0 {
        let m = (n - 1) as nat;
        every_block_runs_once(m, streaming, deepstack);
        let head = all_actions(m, streaming, deepstack);
        let tail = block_actions(m as usize, streaming, deepstack);
        lemma_runs_add(head, tail);
        lemma_block_runs(m as usize, streaming, deepstack);
        assert(runs(all_actions(n, streaming, deepstack)) =~= Seq::new(n, |i: int| i as usize));
    } else {
        assert(runs(all_actions(n, streaming, deepstack)) =~= Seq::new(n, |i: int| i as usize));
    }
}

proof fn lemma_runs_add(a: Seq<BlockAction>, b: Seq<BlockAction>)
    ensures
        runs(a + b) == runs(a) + runs(b),
    decreases b.len(),
{
    if b.len() == 0 {
        assert(a + b =~= a);
        assert(runs(a) + runs(b) =~= runs(a));
    } else {
        lemma_runs_add(a, b.drop_last());
        assert((a + b).drop_last() =~= a + b.drop_last());
        assert((a + b).last() == b.last());
        assert(runs(a + b) =~= runs(a) + runs(b));
    }
}

proof fn lemma_block_runs(i: usize, streaming: bool, deepstack: Seq<usize>)
    ensures
        runs(block_actions(i, streaming, deepstack)) == seq![i],
{
    reveal_with_fuel(runs, 6);
    let all = block_actions(i, streaming, deepstack);
    let load: Seq<BlockAction> = if streaming {
        seq![BlockAction::Load(i)]
    } else {
        Seq::empty()
    };
    let run = seq![BlockAction::Run(i)];
    let deep: Seq<BlockAction> = match first_place(deepstack, i, 0) {
        Some(k) => seq![BlockAction::Deepstack(k as usize)],
        None => Seq::empty(),
    };
    let clear: Seq<BlockAction> = if streaming {
        seq![BlockAction::Clear(i)]
    } else {
        Seq::empty()
    };
    lemma_runs_add(load + run + deep, clear);
    lemma_runs_add(load + run, deep);
    lemma_runs_add(load, run);
    assert(all =~= load + run + deep + clear);
    assert(runs(all) =~= seq![i]);
}

/// The steps that compute, without those that read or drop weights.
pub open spec fn computing(actions: Seq<BlockAction>) -> Seq<BlockAction>
    decreases actions.len(),
{
    if actions.len() == 0 {
        Seq::empty()
    } else {
        let rest = computing(actions.drop_last());
        match actions.last() {
            BlockAction::Run(_) | BlockAction::Deepstack(_) => rest.push(actions.last()),
            _ => rest,
        }
    }
}

proof fn lemma_computing_add(a: Seq<BlockAction>, b: Seq<BlockAction>)
    ensures
        computing(a + b) == computing(a) + computing(b),
    decreases b.len(),
{
    if b.len() == 0 {
        assert(a + b =~= a);
        assert(computing(a) + computing(b) =~= computing(a));
    } else {
        lemma_computing_add(a, b.drop_last());
        assert((a + b).drop_last() =~= a + b.drop_last());
        assert(computing(a + b) =~= computing(a) + computing(b));
    }
}

proof fn lemma_block_computing(i: usize, deepstack: Seq<usize>)
    ensures
        computing(block_actions(i, true, deepstack)) == block_actions(i, false, deepstack),
        computing(block_actions(i, false, deepstack)) == block_actions(i, false, deepstack),
{
    reveal_with_fuel(computing, 2);
    let load = seq![BlockAction::Load(i)];
    let run = seq![BlockAction::Run(i)];
    let clear = seq![BlockAction::Clear(i)];
    let none = Seq::<BlockAction>::empty();
    let deep = match first_place(deepstack, i, 0) {
        Some(k) => seq![BlockAction::Deepstack(k as usize)],
        None => none,
    };
    assert(load.drop_last() =~= none && run.drop_last() =~= none && clear.drop_last() =~= none);
    assert(deep.len() > 0 ==> deep.drop_last() =~= none);
    assert(computing(deep) =~= deep);
    assert(computing(run) =~= run);
    lemma_computing_add(load, run);
    lemma_computing_add(load + run, deep);
    lemma_computing_add(load + run + deep, clear);
    lemma_computing_add(none, run);
    lemma_computing_add(none + run, deep);
    lemma_computing_add(none + run + deep, none);
    assert(computing(block_actions(i, true, deepstack)) =~= block_actions(i, false, deepstack));
    assert(computing(block_actions(i, false, deepstack)) =~= block_actions(i, false, deepstack));
}

/// Streaming changes when weights are there, not what is computed: the blocks and the
/// deepstack mergers run in the same order as with resident weights.
pub proof fn streaming_computes_the_same(n: nat, deepstack: Seq<usize>)
    ensures
        computing(all_actions(n, true, deepstack)) == all_actions(n, false, deepstack),
    decreases n,
{
    if n > 0 {
        let i = (n - 1) as usize;
        streaming_computes_the_same((n - 1) as nat, deepstack);
        lemma_block_computing(i, deepstack);
        lemma_computing_add(
            all_actions((n - 1) as nat, true, deepstack),
            block_actions(i, true, deepstack),
        );
    }
}

/// Nothing before place `k` of a list is equal to what stands there.
pub open spec fn is_first(list: Seq<usize>, k: int) -> bool {
    0 <= k < list.len() && forall|j: int| 0 <= j < k ==> #[trigger] list[j] != list[k]
}

proof fn lemma_first_place(list: Seq<usize>, x: usize, from: nat)
    requires
        from <= list.len(),
    ensures
        match first_place(list, x, from) {
            Some(k) => from <= k < list.len() && list[k as int] == x && forall|j: int|
                from <= j < k ==> #[trigger] list[j] != x,
            None => forall|j: int| from <= j < list.len() ==> #[trigger] list[j] != x,
        },
    decreases list.len() - from,
{
    if from < list.len() && list[from as int] != x {
        lemma_first_place(list, x, from + 1);
    }
}

/// What stands where among the steps: `p` is the place of a step.
proof fn lemma_step(n: nat, streaming: bool, deepstack: Seq<usize>, p: int)
    requires
        n <= usize::MAX,
        deepstack.len() <= usize::MAX,
        0 <= p < all_actions(n, streaming, deepstack).len(),
    ensures
        ({
            let all = all_actions(n, streaming, deepstack);
            match all[p] {
                BlockAction::Load(i) => {
                    &&& streaming
                    &&& i < n
                    &&& p + 1 < all.len() && all[p + 1] == BlockAction::Run(i)
                },
                BlockAction::Run(i) => {
                    &&& i < n
                    &&& streaming ==> p > 0 && all[p - 1] == BlockAction::Load(i)
                    &&& !deepstack.contains(i) && streaming ==> p + 1 < all.len() && all[p + 1]
                        == BlockAction::Clear(i)
                    &&& deepstack.contains(i) ==> {
                        &&& p + 1 < all.len()
                        &&& all[p + 1] matches BlockAction::Deepstack(k) && is_first(
                            deepstack,
                            k as int,
                        ) && deepstack[k as int] == i
                        &&& streaming ==> p + 2 < all.len() && all[p + 2] == BlockAction::Clear(i)
                    }
                },
                BlockAction::Deepstack(k) => {
                    &&& is_first(deepstack, k as int)
                    &&& p > 0
                    &&& all[p - 1] == BlockAction::Run(deepstack[k as int])
                    &&& deepstack[k as int] < n
                },
                BlockAction::Clear(i) => streaming && i < n,
            }
        }),
    decreases n,
{
    if n > 0 {
        let m = (n - 1) as nat;
        let b = m as usize;
        let head = all_actions(m, streaming, deepstack);
        let tail = block_actions(b, streaming, deepstack);
        let all = all_actions(n, streaming, deepstack);
        assert(all == head + tail);
        let h = head.len() as int;
        if p < h {
            lemma_step(m, streaming, deepstack, p);
            assert(all[p] == head[p]);
            if p + 1 < h {
                assert(all[p + 1] == head[p + 1]);
            }
            if p + 2 < h {
                assert(all[p + 2] == head[p + 2]);
            }
            if p > 0 {
                assert(all[p - 1] == head[p - 1]);
            }
        } else {
            lemma_first_place(deepstack, b, 0);
            let q = p - h;
            assert(all[p] == tail[q]);
            if let Some(k) = first_place(deepstack, b, 0) {
                assert(deepstack[k as int] == b);
                assert(deepstack.contains(b));
            }
        }
    }
}

proof fn lemma_run_once(n: nat, streaming: bool, deepstack: Seq<usize>, i: usize)
    requires
        n <= usize::MAX,
        deepstack.len() <= usize::MAX,
        i < n,
    ensures
        ({
            let all = all_actions(n, streaming, deepstack);
            &&& all.contains(BlockAction::Run(i))
            &&& forall|p: int, q: int|
                0 <= p < all.len() && 0 <= q < all.len() && #[trigger] all[p] == BlockAction::Run(i)
                    && #[trigger] all[q] == BlockAction::Run(i) ==> p == q
        }),
    decreases n,
{
    let m = (n - 1) as nat;
    let b = m as usize;
    let head = all_actions(m, streaming, deepstack);
    let tail = block_actions(b, streaming, deepstack);
    let all = all_actions(n, streaming, deepstack);
    assert(all == head + tail);
    let h = head.len() as int;
    let at = if streaming {
        1int
    } else {
        0
    };
    assert(tail[at] == BlockAction::Run(b));
    assert(forall|q: int|
        0 <= q < tail.len() && q != at ==> !(#[trigger] tail[q] is Run));
    if i < m {
        lemma_run_once(m, streaming, deepstack, i);
        let p = choose|p: int| 0 <= p < head.len() && head[p] == BlockAction::Run(i);
        assert(all[p] == BlockAction::Run(i));
        assert forall|p: int, q: int|
            0 <= p < all.len() && 0 <= q < all.len() && #[trigger] all[p] == BlockAction::Run(i)
                && #[trigger] all[q] == BlockAction::Run(i) implies p == q by {
            if p >= h {
                assert(all[p] == tail[p - h]);
            } else {
                assert(all[p] == head[p]);
            }
            if q >= h {
                assert(all[q] == tail[q - h]);
            } else {
                assert(all[q] == head[q]);
            }
        }
    } else {
        assert(all[h + at] == BlockAction::Run(i));
        assert forall|p: int, q: int|
            0 <= p < all.len() && 0 <= q < all.len() && #[trigger] all[p] == BlockAction::Run(i)
                && #[trigger] all[q] == BlockAction::Run(i) implies p == q by {
            if p >= h {
                assert(all[p] == tail[p - h]);
            } else {
                assert(all[p] == head[p]);
                lemma_step(m, streaming, deepstack, p);
            }
            if q >= h {
                assert(all[q] == tail[q - h]);
            } else {
                assert(all[q] == head[q]);
                lemma_step(m, streaming, deepstack, q);
            }
        }
    }
}

/// Every deepstack merger that has a block gets its output, once and right behind it: place
/// `k` of the list is handed the output of block `deepstack[k]`, however long the list is.
pub proof fn every_merger_follows_its_block(
    n: nat,
    streaming: bool,
    deepstack: Seq<usize>,
    k: usize,
)
    requires
        n <= usize::MAX,
        deepstack.len() <= usize::MAX,
        k < deepstack.len(),
        deepstack[k as int] < n,
        forall|j: int| 0 <= j < k ==> #[trigger] deepstack[j] != deepstack[k as int],
    ensures
        ({
            let all = all_actions(n, streaming, deepstack);
            &&& exists|p: int|
                0 < p < all.len() && #[trigger] all[p] == BlockAction::Deepstack(k) && all[p - 1]
                    == BlockAction::Run(deepstack[k as int])
            &&& forall|p: int, q: int|
                0 <= p < all.len() && 0 <= q < all.len() && #[trigger] all[p]
                    == BlockAction::Deepstack(k) && #[trigger] all[q] == BlockAction::Deepstack(k)
                    ==> p == q
        }),
{
    let all = all_actions(n, streaming, deepstack);
    let i = deepstack[k as int];
    lemma_run_once(n, streaming, deepstack, i);
    let p = choose|p: int| 0 <= p < all.len() && all[p] == BlockAction::Run(i);
    lemma_step(n, streaming, deepstack, p);
    assert(deepstack.contains(i));
    let next = all[p + 1];
    assert(next matches BlockAction::Deepstack(j) && is_first(deepstack, j as int)
        && deepstack[j as int] == i);
    let j = next->Deepstack_0;
    assert(j == k) by {
        if j < k {
            assert(deepstack[j as int] != i);
        }
        if k < j {
            assert(deepstack[k as int] != deepstack[j as int]);
        }
    }
    assert(all[p + 1] == BlockAction::Deepstack(k) && all[p + 1 - 1] == BlockAction::Run(i));
    assert forall|p: int, q: int|
        0 <= p < all.len() && 0 <= q < all.len() && #[trigger] all[p] == BlockAction::Deepstack(k)
            && #[trigger] all[q] == BlockAction::Deepstack(k) implies p == q by {
        lemma_step(n, streaming, deepstack, p);
        lemma_step(n, streaming, deepstack, q);
        assert(all[p - 1] == BlockAction::Run(i) && all[q - 1] == BlockAction::Run(i));
    }
}

/// Each step stands beside those that it belongs to: weights are read right before their
/// block runs, a block that feeds a merger hands its output on at once, and no merger gets
/// anything but the output of the block that stands at its place in the list. Without
/// streaming no weights are read or dropped.
pub proof fn steps_belong_together(n: nat, streaming: bool, deepstack: Seq<usize>, p: int)
    requires
        n <= usize::MAX,
        deepstack.len() <= usize::MAX,
        0 <= p < all_actions(n, streaming, deepstack).len(),
    ensures
        ({
            let all = all_actions(n, streaming, deepstack);
            match all[p] {
                BlockAction::Load(i) => streaming && p + 1 < all.len() && all[p + 1]
                    == BlockAction::Run(i),
                BlockAction::Run(i) => {
                    &&& i < n
                    &&& streaming ==> p > 0 && all[p - 1] == BlockAction::Load(i)
                    &&& deepstack.contains(i) ==> p + 1 < all.len() && (all[p + 1] matches
                        BlockAction::Deepstack(k) && k < deepstack.len() && deepstack[k as int]
                        == i)
                },
                BlockAction::Deepstack(k) => {
                    &&& k < deepstack.len()
                    &&& p > 0
                    &&& all[p - 1] == BlockAction::Run(deepstack[k as int])
                },
                BlockAction::Clear(i) => streaming && i < n,
            }
        }),
{
    lemma_step(n, streaming, deepstack, p);
}

} // verus!
