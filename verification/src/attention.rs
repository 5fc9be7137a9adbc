//! Cutting the queries of an attention layer into tiles.
use vstd::prelude::*;

use crate::error::ModelError;
use crate::spans::{cut, Span};

verus! {

/// Some consecutive query rows and the keys that all of them attend to.
#[derive(Clone, Copy, Debug, PartialEq, Eq, Structural)]
pub struct AttentionTile {
    pub queries: Span,
    pub keys: Span,
}

/// The sum of chunk lengths.
pub open spec fn chunk_sum(chunks: Seq<usize>) -> nat
    decreases chunks.len(),
{
    if chunks.len() == 0 {
        0
    } else {
        chunk_sum(chunks.drop_last()) + chunks.last() as nat
    }
}

/// The pieces of a chunk's queries: one piece if tiling is off or the chunk is small enough.
pub open spec fn query_pieces(len: nat, tile: nat) -> Seq<Span> {
    if tile == 0 || len <= tile {
        seq![Span { start: 0, take: len as usize }]
    } else {
        crate::spans::spans(len, tile)
    }
}

/// A piece of the chunk that starts at row `start`, with the whole chunk as its keys.
pub open spec fn tile_of(start: nat, len: nat, piece: Span) -> AttentionTile {
    AttentionTile {
        queries: Span { start: (start + piece.start) as usize, take: piece.take },
        keys: Span { start: start as usize, take: len as usize },
    }
}

/// The tiles of the chunk that starts at row `start`.
pub open spec fn chunk_tiles(start: nat, len: nat, tile: nat) -> Seq<AttentionTile> {
    query_pieces(len, tile).map_values(|p: Span| tile_of(start, len, p))
}

/// The tiles of all chunks, in order.
pub open spec fn tiles(chunks: Seq<usize>, tile: nat) -> Seq<AttentionTile>
    decreases chunks.len(),
{
    if chunks.len() == 0 {
        Seq::empty()
    } else {
        tiles(chunks.drop_last(), tile) + chunk_tiles(
            chunk_sum(chunks.drop_last()),
            chunks.last() as nat,
            tile,
        )
    }
}

/// The longest chunk, or the whole sequence where there is no chunk.
pub open spec fn longest(chunks: Seq<usize>, seq_length: usize) -> usize
    decreases chunks.len(),
{
    if chunks.len() == 0 {
        seq_length
    } else if chunks.len() == 1 || chunks.last() > longest(chunks.drop_last(), seq_length) {
        chunks.last()
    } else {
        longest(chunks.drop_last(), seq_length)
    }
}

/// How many keys the largest chunk has.
pub fn longest_chunk(chunks: &Vec<usize>, seq_length: usize) -> (r: usize)
    ensures
        r == longest(chunks@, seq_length),
{
    if chunks.len() == 0 {
        return seq_length;
    }
    let mut best: usize = chunks[0];
    let mut i: usize = 1;
    assert(chunks@.take(1).last() == chunks@[0]);
    while i < chunks.len()
        invariant
            1 <= i <= chunks@.len(),
            best == longest(chunks@.take(i as int), seq_length),
        decreases chunks@.len() - i,
    {
        assert(chunks@.take(i + 1).drop_last() =~= chunks@.take(i as int));
        if chunks[i] > best {
            best = chunks[i];
        }
        i = i + 1;
    }
    assert(chunks@.take(i as int) =~= chunks@);
    best
}

/// The chunks make up the whole sequence, and it is not empty.
pub open spec fn chunks_fill(chunks: Seq<usize>, seq_length: usize) -> bool {
    chunk_sum(chunks) == seq_length && seq_length > 0
}

/// Cuts the queries of every chunk into tiles of at most `tile` rows. Refuses chunks that do
/// not make up the sequence.
pub fn plan_tiles(chunks: &Vec<usize>, seq_length: usize, tile: usize) -> (r: Result<
    Vec<AttentionTile>,
    ModelError,
>)
    ensures
        match r {
            Ok(v) => chunks_fill(chunks@, seq_length) && v@ == tiles(chunks@, tile as nat),
            Err(e) => !chunks_fill(chunks@, seq_length) && e == ModelError::ShapeMismatch,
        },
{
    let mut out: Vec<AttentionTile> = Vec::new();
    let mut start: usize = 0;
    let mut i: usize = 0;
    assert(out@ =~= tiles(chunks@.take(0), tile as nat));
    while i < chunks.len()
        invariant
            i <= chunks@.len(),
            start == chunk_sum(chunks@.take(i as int)),
            start <= seq_length,
            out@ == tiles(chunks@.take(i as int), tile as nat),
        decreases chunks@.len() - i,
    {
        let len: usize = chunks[i];
        proof {
            assert(chunks@.take(i + 1).drop_last() =~= chunks@.take(i as int));
            lemma_sum_grows(chunks@, i + 1);
        }
        if len > seq_length - start {
            return Err(ModelError::ShapeMismatch);
        }
        let pieces: Vec<Span> = if tile == 0 || len <= tile {
            let mut one: Vec<Span> = Vec::new();
            one.push(Span { start: 0, take: len });
            assert(one@ =~= query_pieces(len as nat, tile as nat));
            one
        } else {
            cut(len, tile)
        };
        let ghost before = out@;
        let ghost want = chunk_tiles(start as nat, len as nat, tile as nat);
        assert(before =~= before + want.take(0));
        let mut k: usize = 0;
        while k < pieces.len()
            invariant
                pieces@ == query_pieces(len as nat, tile as nat),
                start + len <= seq_length,
                want == chunk_tiles(start as nat, len as nat, tile as nat),
                k <= pieces@.len(),
                out@ == before + want.take(k as int),
            decreases pieces@.len() - k,
        {
            let p = pieces[k];
            proof {
                if tile != 0 && len > tile {
                    crate::spans::span_bounds(len as nat, tile as nat, k as int);
                }
            }
            out.push(
                AttentionTile {
                    queries: Span { start: start + p.start, take: p.take },
                    keys: Span { start, take: len },
                },
            );
            assert(out@ =~= before + want.take(k + 1));
            k = k + 1;
        }
        assert(want.take(k as int) =~= want);
        start = start + len;
        i = i + 1;
    }
    assert(chunks@.take(i as int) =~= chunks@);
    if start != seq_length || seq_length == 0 {
        return Err(ModelError::ShapeMismatch);
    }
    Ok(out)
}

proof fn lemma_sum_grows(chunks: Seq<usize>, n: int)
    requires
        0 <= n <= chunks.len(),
    ensures
        chunk_sum(chunks.take(n)) <= chunk_sum(chunks),
    decreases chunks.len(),
{
    if n == chunks.len() {
        assert(chunks.take(n) =~= chunks);
    } else {
        lemma_sum_grows(chunks.drop_last(), n);
        assert(chunks.drop_last().take(n) =~= chunks.take(n));
    }
}

/// The result rows of a list of tiles, where `row(q, keys)` is the result of query row `q`
/// over `keys`.
pub open spec fn results<A>(list: Seq<AttentionTile>, row: spec_fn(int, Span) -> A) -> Seq<A>
    decreases list.len(),
{
    if list.len() == 0 {
        Seq::empty()
    } else {
        results(list.drop_last(), row) + tile_results(list.last(), row)
    }
}

/// The result rows of one tile.
pub open spec fn tile_results<A>(t: AttentionTile, row: spec_fn(int, Span) -> A) -> Seq<A> {
    Seq::new(t.queries.take as nat, |i: int| row(t.queries.start + i, t.keys))
}

proof fn lemma_results_add<A>(
    a: Seq<AttentionTile>,
    b: Seq<AttentionTile>,
    row: spec_fn(int, Span) -> A,
)
    ensures
        results(a + b, row) == results(a, row) + results(b, row),
    decreases b.len(),
{
    if b.len() == 0 {
        assert(a + b =~= a);
        assert(results(a, row) + results(b, row) =~= results(a, row));
    } else {
        lemma_results_add(a, b.drop_last(), row);
        assert((a + b).drop_last() =~= a + b.drop_last());
        assert((a + b).last() == b.last());
        assert(results(a + b, row) =~= results(a, row) + results(b, row));
    }
}

/// The tiles of one chunk give its rows in order, each over the whole chunk.
proof fn lemma_chunk_results<A>(
    start: nat,
    len: nat,
    tile: nat,
    n: nat,
    row: spec_fn(int, Span) -> A,
)
    requires
        start + len <= usize::MAX,
        n <= query_pieces(len, tile).len(),
    ensures
        ({
            let whole = Seq::new(
                len,
                |i: int| row(start + i, Span { start: start as usize, take: len as usize }),
            );
            results(chunk_tiles(start, len, tile).take(n as int), row) == crate::spans::joined(
                whole,
                query_pieces(len, tile).take(n as int),
            )
        }),
    decreases n,
{
    let keys = Span { start: start as usize, take: len as usize };
    let whole = Seq::new(len, |i: int| row(start + i, keys));
    let pieces = query_pieces(len, tile);
    let all = chunk_tiles(start, len, tile);
    if n > 0 {
        lemma_chunk_results(start, len, tile, (n - 1) as nat, row);
        assert(all.take(n as int).drop_last() =~= all.take(n - 1));
        assert(pieces.take(n as int).drop_last() =~= pieces.take(n - 1));
        let p = pieces[n - 1];
        if tile != 0 && len > tile {
            crate::spans::span_bounds(len, tile, n - 1);
        }
        assert(all.take(n as int).last() == tile_of(start, len, p));
        assert(tile_results(tile_of(start, len, p), row) =~= whole.subrange(
            p.start as int,
            p.end(),
        ));
    }
}

/// Tiling changes nothing: whatever the tile size, the rows of the tiles put together are
/// the rows of the untiled chunks.
pub proof fn tiling_changes_nothing<A>(
    chunks: Seq<usize>,
    tile: nat,
    row: spec_fn(int, Span) -> A,
)
    requires
        chunk_sum(chunks) <= usize::MAX,
    ensures
        results(tiles(chunks, tile), row) == results(tiles(chunks, 0), row),
    decreases chunks.len(),
{
    if chunks.len() > 0 {
        let head = chunks.drop_last();
        let start = chunk_sum(head);
        let len = chunks.last() as nat;
        tiling_changes_nothing(head, tile, row);
        let cut_up = chunk_tiles(start, len, tile);
        let one = chunk_tiles(start, len, 0);
        lemma_results_add(tiles(head, tile), cut_up, row);
        lemma_results_add(tiles(head, 0), one, row);
        let whole = Seq::new(
            len,
            |i: int| row(start + i, Span { start: start as usize, take: len as usize }),
        );
        let whole_piece = seq![Span { start: 0, take: len as usize }];
        lemma_chunk_results(start, len, tile, cut_up.len(), row);
        lemma_chunk_results(start, len, 0, one.len(), row);
        assert(cut_up.take(cut_up.len() as int) =~= cut_up);
        assert(one.take(one.len() as int) =~= one);
        assert(query_pieces(len, 0).take(1) =~= whole_piece);
        assert(query_pieces(len, tile).take(cut_up.len() as int) =~= query_pieces(len, tile));
        assert(crate::spans::joined(whole, whole_piece) =~= whole) by {
            assert(whole_piece.drop_last() =~= Seq::<Span>::empty());
            assert(crate::spans::joined(whole, whole_piece.drop_last()) =~= Seq::<A>::empty());
            assert(whole.subrange(0, len as int) =~= whole);
        }
        if tile != 0 && len > tile {
            crate::spans::cut_then_join(whole, tile);
        }
    }
}

/// The chunk that row `r` lies in.
pub open spec fn keys_of(chunks: Seq<usize>, r: int) -> Span
    decreases chunks.len(),
{
    if chunks.len() <= 1 || r >= chunk_sum(chunks.drop_last()) {
        Span { start: chunk_sum(chunks.drop_last()) as usize, take: chunks.last() }
    } else {
        keys_of(chunks.drop_last(), r)
    }
}

/// The untiled chunks give one result for each row that they cover, in order, and each row
/// attends to the chunk that it lies in.
pub proof fn one_result_per_row<A>(chunks: Seq<usize>, row: spec_fn(int, Span) -> A)
    requires
        chunk_sum(chunks) <= usize::MAX,
    ensures
        results(tiles(chunks, 0), row).len() == chunk_sum(chunks),
        forall|r: int|
            0 <= r < chunk_sum(chunks) ==> #[trigger] results(tiles(chunks, 0), row)[r] == row(
                r,
                keys_of(chunks, r),
            ),
    decreases chunks.len(),
{
    if chunks.len() > 0 {
        let head = chunks.drop_last();
        one_result_per_row(head, row);
        let start = chunk_sum(head);
        let one = chunk_tiles(start, chunks.last() as nat, 0);
        lemma_results_add(tiles(head, 0), one, row);
        assert(one.drop_last() =~= Seq::<AttentionTile>::empty());
        assert(results(one.drop_last(), row) =~= Seq::<A>::empty());
        assert(results(one, row) =~= tile_results(one[0], row));
        let all = results(tiles(chunks, 0), row);
        assert forall|r: int| 0 <= r < chunk_sum(chunks) implies #[trigger] all[r] == row(
            r,
            keys_of(chunks, r),
        ) by {
            if r < start {
                assert(all[r] == results(tiles(head, 0), row)[r]);
                assert(head.len() > 0);
            } else {
                assert(all[r] == tile_results(one[0], row)[r - start]);
            }
        }
    }
}

/// A tile whose rows lie `by` places further on.
pub open spec fn moved_tile(t: AttentionTile, by: nat) -> AttentionTile {
    AttentionTile {
        queries: Span { start: (t.queries.start + by) as usize, take: t.queries.take },
        keys: Span { start: (t.keys.start + by) as usize, take: t.keys.take },
    }
}

/// Chunks do not see one another: the tiles of two lists of chunks joined are those of the
/// first, and those of the second moved behind it.
pub proof fn chunks_stand_alone(chunks: Seq<usize>, more: Seq<usize>, tile: nat)
    requires
        chunk_sum(chunks) + chunk_sum(more) <= usize::MAX,
    ensures
        chunk_sum(chunks + more) == chunk_sum(chunks) + chunk_sum(more),
        tiles(chunks + more, tile) == tiles(chunks, tile) + tiles(more, tile).map_values(
            |t: AttentionTile| moved_tile(t, chunk_sum(chunks)),
        ),
    decreases more.len(),
{
    let by = chunk_sum(chunks);
    let moved = |t: AttentionTile| moved_tile(t, by);
    if more.len() == 0 {
        assert(chunks + more =~= chunks);
        assert(tiles(chunks, tile) + tiles(more, tile).map_values(moved) =~= tiles(chunks, tile));
    } else {
        let head = more.drop_last();
        let len = more.last() as nat;
        let start = chunk_sum(head);
        chunks_stand_alone(chunks, head, tile);
        assert((chunks + more).drop_last() =~= chunks + head);
        assert((chunks + more).last() == more.last());
        let there = chunk_tiles((by + start) as nat, len, tile);
        let here = chunk_tiles(start, len, tile);
        assert forall|i: int| 0 <= i < here.len() implies #[trigger] there[i] == moved_tile(
            here[i],
            by,
        ) by {
            if tile != 0 && len > tile {
                crate::spans::span_bounds(len, tile, i);
            }
        }
        assert(there =~= here.map_values(moved));
        assert(tiles(more, tile).map_values(moved) =~= tiles(head, tile).map_values(moved)
            + here.map_values(moved));
        assert(tiles(chunks + more, tile) =~= tiles(chunks, tile) + tiles(more, tile).map_values(
            moved,
        ));
    }
}

proof fn lemma_prefix_sum(chunks: Seq<usize>, a: int, b: int)
    requires
        0 <= a <= b <= chunks.len(),
    ensures
        chunk_sum(chunks.take(a)) <= chunk_sum(chunks.take(b)),
    decreases b,
{
    if a < b {
        lemma_prefix_sum(chunks, a, b - 1);
        assert(chunks.take(b).drop_last() =~= chunks.take(b - 1));
    }
}

/// A row attends to the rows of its own chunk and to no other: row `r`, which lies behind the
/// chunks before chunk `c` but not behind that chunk, gets the keys of that chunk.
pub proof fn rows_attend_to_their_chunk(chunks: Seq<usize>, c: int, r: int)
    requires
        0 <= c < chunks.len(),
        chunk_sum(chunks) <= usize::MAX,
        chunk_sum(chunks.take(c)) <= r < chunk_sum(chunks.take(c)) + chunks[c],
    ensures
        keys_of(chunks, r).start == chunk_sum(chunks.take(c)),
        keys_of(chunks, r).take == chunks[c],
    decreases chunks.len(),
{
    let head = chunks.drop_last();
    let n = chunks.len() as int;
    lemma_prefix_sum(chunks, c + 1, n);
    assert(chunks.take(n) =~= chunks);
    assert(chunks.take(c + 1).drop_last() =~= chunks.take(c));
    assert(chunks.take(n - 1) =~= head);
    if c < n - 1 {
        lemma_prefix_sum(chunks, c + 1, n - 1);
        assert(head.take(c) =~= chunks.take(c));
        rows_attend_to_their_chunk(head, c, r);
    }
}

/// Chunk lengths add up: no chunk sums to nothing, one to its own length, and two lists to the
/// sums of both.
pub proof fn chunk_lengths_add_up(a: Seq<usize>, b: Seq<usize>, n: usize)
    ensures
        chunk_sum(Seq::<usize>::empty()) == 0,
        chunk_sum(seq![n]) == n,
        chunk_sum(a + b) == chunk_sum(a) + chunk_sum(b),
    decreases b.len(),
{
    reveal_with_fuel(chunk_sum, 2);
    assert(seq![n].drop_last() =~= Seq::<usize>::empty());
    if b.len() == 0 {
        assert(a + b =~= a);
    } else {
        chunk_lengths_add_up(a, b.drop_last(), n);
        assert((a + b).drop_last() =~= a + b.drop_last());
    }
}

/// No tile takes more rows than it may, its rows lie among its keys, and it stops short of the
/// limit only at the end of its chunk. Without a limit every chunk is one tile.
pub proof fn tiles_are_full(chunks: Seq<usize>, tile: nat, i: int)
    requires
        chunk_sum(chunks) <= usize::MAX,
        0 <= i < tiles(chunks, tile).len(),
    ensures
        ({
            let t = tiles(chunks, tile)[i];
            &&& t.keys.start <= t.queries.start
            &&& t.queries.end() <= t.keys.end()
            &&& tile > 0 ==> t.queries.take <= tile
            &&& t.queries.take == tile || t.queries.end() == t.keys.end()
            &&& tile == 0 ==> t.queries == t.keys
        }),
    decreases chunks.len(),
{
    let head = chunks.drop_last();
    let start = chunk_sum(head);
    let len = chunks.last() as nat;
    if i < tiles(head, tile).len() {
        tiles_are_full(head, tile, i);
    } else {
        let k = i - tiles(head, tile).len();
        let p = query_pieces(len, tile)[k];
        assert(tiles(chunks, tile)[i] == tile_of(start, len, p));
        if tile != 0 && len > tile {
            crate::spans::span_bounds(len, tile, k);
            assert((k + 1) * tile == k * tile + tile) by (nonlinear_arith);
        }
    }
}

/// The largest number of keys is that of some chunk, and no chunk has more; without chunks it
/// is that of the whole sequence.
pub proof fn longest_is_a_chunk(chunks: Seq<usize>, seq_length: usize)
    ensures
        chunks.len() == 0 ==> longest(chunks, seq_length) == seq_length,
        chunks.len() > 0 ==> chunks.contains(longest(chunks, seq_length)),
        forall|i: int| 0 <= i < chunks.len() ==> #[trigger] chunks[i] <= longest(chunks, seq_length),
    decreases chunks.len(),
{
    if chunks.len() > 0 {
        let head = chunks.drop_last();
        longest_is_a_chunk(head, seq_length);
        let n = head.len() as int;
        assert(chunks[n] == chunks.last());
        if longest(chunks, seq_length) != chunks.last() {
            let i = head.index_of(longest(head, seq_length));
            assert(head[i] == longest(head, seq_length));
            assert(chunks[i] == head[i]);
        }
        assert forall|i: int| 0 <= i < chunks.len() implies #[trigger] chunks[i] <= longest(
            chunks,
            seq_length,
        ) by {
            if i < n {
                assert(head[i] == chunks[i]);
            }
        }
    }
}

/// Chunks are accepted just where they make up a sequence that has a row: cut out of it one
/// behind the other, they leave nothing over.
pub proof fn filling_chunks_are_accepted(chunks: Seq<usize>, last: usize, seq_length: usize)
    requires
        last <= seq_length,
        chunk_sum(chunks) == seq_length - last,
    ensures
        chunks_fill(chunks.push(last), seq_length) <==> seq_length > 0,
        last > 0 ==> !chunks_fill(chunks, seq_length),
{
    assert(chunks.push(last).drop_last() =~= chunks);
}

} // verus!
