//! How pictures go through the vision model.
use candle_core::Tensor;
use vstd::prelude::*;

use crate::error::ModelError;
use crate::grid::{chunk_frames, find_longest_side, read_grid, Thw};
use crate::interpolate::{check_floors, corner_indices, Floors};
use crate::patches::{order_rows, push_coordinates};
use crate::streaming::{plan_actions, BlockAction};
use crate::tensor::{bring_beside, make_u32, Element, Place};
use crate::vision::Qwen3VLVisionModel;

verus! {

/// Where the rotary embedding of every patch is read.
pub struct RotaryPlan {
    /// How many positions the table of angles needs.
    pub table_len: u32,
    /// The row of every patch.
    pub rows: Tensor,
    /// The column of every patch.
    pub columns: Tensor,
}

/// Where the position embedding of every patch is read.
pub struct InterpolationPlan {
    /// For each of the four corners around a patch, the table entries of all patches of one
    /// frame of each picture.
    pub entries: Tensor,
    /// How many patches a frame of each picture has.
    pub lengths: Vec<usize>,
    /// For each picture, the order in which the patches of its frames are taken.
    pub orders: Vec<Vec<u32>>,
}

/// A pass through the vision model.
pub struct VisionPlan {
    pub positions: InterpolationPlan,
    pub rotary: RotaryPlan,
    /// The lengths of the frames; attention stays inside a frame.
    pub chunks: Vec<usize>,
    pub actions: Vec<BlockAction>,
    /// Whether the blocks are streamed.
    pub streaming: bool,
}

/// `t` has one dimension and holds the given indices.
pub open spec fn holds_indices(t: Tensor, indices: Seq<nat>) -> bool {
    &&& indices.len() <= usize::MAX
    &&& crate::tensor::tensor_dims(t) == seq![indices.len() as usize]
    &&& crate::tensor::tensor_elements(t) == indices.map_values(|n: nat| n as int)
    &&& crate::tensor::tensor_element(t) == Element::U32
}

/// The patches of every picture can be counted.
pub open spec fn coordinates_fit(grids: Seq<Thw>, merge: u32) -> bool {
    forall|i: int|
        0 <= i < grids.len() ==> crate::patches::coordinates(#[trigger] grids[i], merge).len()
            <= usize::MAX
}

/// What pictures are refused for when their rotary embeddings are looked up, if anything.
pub open spec fn rotary_fault(grids: Seq<Thw>, merge: u32) -> Option<ModelError> {
    if grids.len() == 0 {
        Some(ModelError::NoPictures)
    } else if !coordinates_fit(grids, merge) {
        Some(ModelError::Overflow)
    } else {
        None
    }
}

impl RotaryPlan {
    /// The table reaches as far as the longest side, and each patch is looked up by its row
    /// and by its column.
    pub open spec fn serves(self, grids: Seq<Thw>, merge: u32) -> bool {
        let all = crate::patches::all_coordinates(grids, merge);
        &&& self.table_len == crate::grid::longest_side(grids)
        &&& holds_indices(self.rows, all.map_values(|c: (nat, nat)| c.0))
        &&& holds_indices(self.columns, all.map_values(|c: (nat, nat)| c.1))
    }
}

fn index_tensor(v: Vec<u32>) -> (r: Result<Tensor, ModelError>)
    ensures
        r is Ok,
        holds_indices(r->Ok_0, crate::visual::nats(v@)),
        crate::tensor::tensor_place(r->Ok_0) == Place::Host,
{
    let n: usize = v.len();
    let ghost s = v@;
    let dims = vec![n];
    proof {
        crate::tensor::lemma_volume1(n);
        assert(dims@ =~= seq![n]);
    }
    match make_u32(v, dims) {
        Ok(t) => {
            assert(crate::tensor::tensor_elements(t) =~= crate::visual::nats(s).map_values(
                |n: nat| n as int,
            ));
            Ok(t)
        },
        Err(e) => Err(ModelError::Tensor(e)),
    }
}

impl RotaryPlan {
    /// Both tensors are kept in the given place.
    pub open spec fn kept(self, place: Place) -> bool {
        crate::tensor::tensor_place(self.rows) == place && crate::tensor::tensor_place(self.columns)
            == place
    }

    /// Brings a plan from host memory to where a tensor is kept.
    fn beside(self, like: &Tensor) -> (r: Result<RotaryPlan, ModelError>)
        requires
            self.kept(Place::Host),
        ensures
            match r {
                Ok(p) => {
                    &&& p.kept(crate::tensor::tensor_place(*like))
                    &&& p.table_len == self.table_len
                    &&& crate::tensor::same_values(p.rows, self.rows)
                    &&& crate::tensor::same_values(p.columns, self.columns)
                },
                Err(e) => crate::tensor::copy_refused(*like, e),
            },
    {
        let rows = match bring_beside(self.rows, like) {
            Ok(t) => t,
            Err(e) => return Err(e),
        };
        match bring_beside(self.columns, like) {
            Ok(columns) => Ok(RotaryPlan { table_len: self.table_len, rows, columns }),
            Err(e) => Err(e),
        }
    }
}

impl InterpolationPlan {
    /// Brings a plan from host memory to where a tensor is kept.
    fn beside(self, like: &Tensor) -> (r: Result<InterpolationPlan, ModelError>)
        requires
            crate::tensor::tensor_place(self.entries) == Place::Host,
        ensures
            match r {
                Ok(p) => {
                    &&& crate::tensor::kept_beside(p.entries, self.entries, *like)
                    &&& p.lengths == self.lengths
                    &&& p.orders == self.orders
                },
                Err(e) => crate::tensor::copy_refused(*like, e),
            },
    {
        match bring_beside(self.entries, like) {
            Ok(entries) => Ok(
                InterpolationPlan { entries, lengths: self.lengths, orders: self.orders },
            ),
            Err(e) => Err(e),
        }
    }
}

/// Looks up the rotary embeddings of pictures.
pub fn plan_rotary(grids: &Vec<Thw>, merge: u32) -> (r: Result<RotaryPlan, ModelError>)
    requires
        merge > 0,
    ensures
        match r {
            Ok(p) => rotary_fault(grids@, merge) is None && p.serves(grids@, merge) && p.kept(
                Place::Host,
            ),
            Err(e) => rotary_fault(grids@, merge) == Some(e),
        },
{
    if grids.len() == 0 {
        return Err(ModelError::NoPictures);
    }
    let mut rows: Vec<u32> = Vec::new();
    let mut columns: Vec<u32> = Vec::new();
    let mut i: usize = 0;
    assert(crate::patches::pairs(rows@, columns@) =~= crate::patches::all_coordinates(
        grids@.take(0),
        merge,
    ));
    while i < grids.len()
        invariant
            merge > 0,
            grids@.len() > 0,
            i <= grids@.len(),
            rows@.len() == columns@.len(),
            forall|k: int|
                0 <= k < i ==> crate::patches::coordinates(#[trigger] grids@[k], merge).len()
                    <= usize::MAX,
            crate::patches::pairs(rows@, columns@) == crate::patches::all_coordinates(
                grids@.take(i as int),
                merge,
            ),
        decreases grids@.len() - i,
    {
        assert(grids@.take(i + 1).drop_last() =~= grids@.take(i as int));
        match push_coordinates(grids[i], merge, &mut rows, &mut columns) {
            Ok(_) => {},
            Err(e) => {
                assert(!coordinates_fit(grids@, merge));
                return Err(e);
            },
        }
        i = i + 1;
    }
    assert(grids@.take(i as int) =~= grids@);
    let ghost all = crate::patches::all_coordinates(grids@, merge);
    proof {
        assert(crate::visual::nats(rows@) =~= all.map_values(|c: (nat, nat)| c.0)) by {
            assert forall|k: int| 0 <= k < rows@.len() implies #[trigger] rows@[k] as nat
                == all[k].0 by {
                assert(crate::patches::pairs(rows@, columns@)[k] == all[k]);
            }
        }
        assert(crate::visual::nats(columns@) =~= all.map_values(|c: (nat, nat)| c.1)) by {
            assert forall|k: int| 0 <= k < columns@.len() implies #[trigger] columns@[k] as nat
                == all[k].1 by {
                assert(crate::patches::pairs(rows@, columns@)[k] == all[k]);
            }
        }
    }
    let rows = match index_tensor(rows) {
        Ok(t) => t,
        Err(e) => return Err(e),
    };
    let columns = match index_tensor(columns) {
        Ok(t) => t,
        Err(e) => return Err(e),
    };
    Ok(RotaryPlan { table_len: find_longest_side(grids), rows, columns })
}

/// The first reason to refuse to order the patches of the pictures below `n`.
pub open spec fn first_order_fault(grids: Seq<Thw>, merge: u32, n: nat) -> Option<ModelError>
    decreases n,
{
    if n == 0 {
        None
    } else {
        match first_order_fault(grids, merge, (n - 1) as nat) {
            Some(e) => Some(e),
            None => crate::patches::order_fault(grids[n - 1], merge),
        }
    }
}

/// What pictures are refused for when their position embeddings are interpolated, if
/// anything: there is none, the table has more entries than can be indexed, the floors do
/// not belong to the pictures, or patches cannot be put in order.
pub open spec fn interpolation_fault(
    floors: Seq<Floors>,
    grids: Seq<Thw>,
    side: u32,
    merge: u32,
) -> Option<ModelError> {
    if grids.len() == 0 {
        Some(ModelError::NoPictures)
    } else if side > 0x1_0000 {
        Some(ModelError::Overflow)
    } else if !crate::interpolate::all_floors_fit(floors, grids, side) {
        Some(ModelError::ShapeMismatch)
    } else {
        first_order_fault(grids, merge, grids.len())
    }
}

/// The entries at the four corners, one corner after the other.
pub open spec fn four_tables(floors: Seq<Floors>, side: u32) -> Seq<nat> {
    crate::interpolate::corner_tables(floors, side, 0) + crate::interpolate::corner_tables(
        floors,
        side,
        1,
    ) + crate::interpolate::corner_tables(floors, side, 2) + crate::interpolate::corner_tables(
        floors,
        side,
        3,
    )
}

/// The orders in which the patches of pictures are taken.
pub open spec fn orders_of(orders: Seq<Vec<u32>>) -> Seq<Seq<nat>> {
    orders.map_values(|v: Vec<u32>| crate::visual::nats(v@))
}

impl InterpolationPlan {
    /// Each corner has its row of table entries, and every picture has its frame length and
    /// its order.
    pub open spec fn serves(self, floors: Seq<Floors>, grids: Seq<Thw>, side: u32, merge: u32) -> bool {
        &&& crate::tensor::tensor_dims(self.entries) == seq![
            4usize,
            crate::interpolate::corner_tables(floors, side, 0).len() as usize,
        ]
        &&& crate::tensor::tensor_elements(self.entries) == four_tables(floors, side).map_values(
            |n: nat| n as int,
        )
        &&& crate::tensor::tensor_element(self.entries) == Element::U32
        &&& crate::grid::sizes(self.lengths@) == grids.map_values(
            |g: Thw| (g.h as nat) * (g.w as nat),
        )
        &&& orders_of(self.orders@) == grids.map_values(
            |g: Thw| crate::patches::row_order(g, merge),
        )
    }
}

proof fn lemma_table_len(floors: Seq<Floors>, side: u32, a: int, b: int)
    ensures
        crate::interpolate::corner_tables(floors, side, a).len()
            == crate::interpolate::corner_tables(floors, side, b).len(),
    decreases floors.len(),
{
    if floors.len() > 0 {
        lemma_table_len(floors.drop_last(), side, a, b);
    }
}

proof fn lemma_first_fault_stays(grids: Seq<Thw>, merge: u32, n: nat, m: nat, e: ModelError)
    requires
        n <= m,
        first_order_fault(grids, merge, n) == Some(e),
    ensures
        first_order_fault(grids, merge, m) == Some(e),
    decreases m,
{
    if n < m {
        lemma_first_fault_stays(grids, merge, n, (m - 1) as nat, e);
    }
}

/// Looks up the position embeddings around the patches of pictures. `floors` holds, for
/// each picture, the table rows and columns just before its patches.
pub fn plan_interpolation(floors: &Vec<Floors>, grids: &Vec<Thw>, side: u32, merge: u32) -> (r:
    Result<InterpolationPlan, ModelError>)
    requires
        merge > 0,
    ensures
        match r {
            Ok(p) => {
                &&& interpolation_fault(floors@, grids@, side, merge) is None
                &&& p.serves(floors@, grids@, side, merge)
                &&& crate::tensor::tensor_place(p.entries) == Place::Host
            },
            Err(e) => interpolation_fault(floors@, grids@, side, merge) == Some(e),
        },
{
    if grids.len() == 0 {
        return Err(ModelError::NoPictures);
    }
    if side > 0x1_0000 {
        return Err(ModelError::Overflow);
    }
    if !check_floors(floors, grids, side) {
        return Err(ModelError::ShapeMismatch);
    }
    let mut lengths: Vec<usize> = Vec::new();
    let mut orders: Vec<Vec<u32>> = Vec::new();
    let mut i: usize = 0;
    while i < grids.len()
        invariant
            merge > 0,
            i <= grids@.len(),
            first_order_fault(grids@, merge, i as nat) is None,
            interpolation_fault(floors@, grids@, side, merge) == first_order_fault(
                grids@,
                merge,
                grids@.len(),
            ),
            crate::grid::sizes(lengths@) == grids@.take(i as int).map_values(
                |g: Thw| (g.h as nat) * (g.w as nat),
            ),
            orders_of(orders@) == grids@.take(i as int).map_values(
                |g: Thw| crate::patches::row_order(g, merge),
            ),
        decreases grids@.len() - i,
    {
        let g = grids[i];
        let ghost was_lengths = lengths@;
        let ghost was_orders = orders@;
        match order_rows(g, merge) {
            Ok(order) => {
                assert((g.h as nat) * (g.w as nat) <= u32::MAX);
                let area: u32 = g.h * g.w;
                lengths.push(area as usize);
                orders.push(order);
                proof {
                    assert(crate::grid::sizes(lengths@) =~= crate::grid::sizes(was_lengths).push(
                        (g.h as nat) * (g.w as nat),
                    ));
                    assert(orders_of(orders@) =~= orders_of(was_orders).push(
                        crate::patches::row_order(g, merge),
                    ));
                    assert(grids@.take(i + 1) =~= grids@.take(i as int).push(g));
                    assert(crate::grid::sizes(lengths@) =~= grids@.take(i + 1).map_values(
                        |g: Thw| (g.h as nat) * (g.w as nat),
                    ));
                    assert(orders_of(orders@) =~= grids@.take(i + 1).map_values(
                        |g: Thw| crate::patches::row_order(g, merge),
                    ));
                }
            },
            Err(e) => {
                proof {
                    lemma_first_fault_stays(grids@, merge, (i + 1) as nat, grids@.len(), e);
                }
                return Err(e);
            },
        }
        i = i + 1;
    }
    assert(grids@.take(i as int) =~= grids@);
    let mut entries = corner_indices(floors, side, 0);
    let n: usize = entries.len();
    let mut second = corner_indices(floors, side, 1);
    let mut third = corner_indices(floors, side, 2);
    let mut fourth = corner_indices(floors, side, 3);
    proof {
        lemma_table_len(floors@, side, 0, 1);
        lemma_table_len(floors@, side, 0, 2);
        lemma_table_len(floors@, side, 0, 3);
        assert(crate::visual::nats(entries@ + second@ + third@ + fourth@) =~= four_tables(
            floors@,
            side,
        ));
    }
    entries.append(&mut second);
    entries.append(&mut third);
    entries.append(&mut fourth);
    let ghost flat = entries@;
    let dims = vec![4usize, n];
    proof {
        assert(dims@ =~= seq![4usize, n]);
        assert(entries.len() == 4 * n);
        crate::tensor::lemma_volume2(4, n);
        assert(crate::visual::nats(flat) =~= four_tables(floors@, side));
    }
    match make_u32(entries, dims) {
        Ok(entries) => {
            assert(crate::tensor::tensor_elements(entries) =~= four_tables(
                floors@,
                side,
            ).map_values(|n: nat| n as int));
            Ok(InterpolationPlan { entries, lengths, orders })
        },
        Err(e) => Err(ModelError::Tensor(e)),
    }
}

/// A tensor holds the grids of pictures.
pub open spec fn is_grid(t: Tensor) -> bool {
    crate::tensor::holds_u32(t, 2) && crate::grid::three_wide(crate::tensor::matrix_of(t))
}

/// A tensor is refused as a grid for the given reason: it cannot be read, or a row does not
/// have three sizes.
pub open spec fn refused_grid(t: Tensor, e: ModelError) -> bool {
    ||| crate::tensor::refused(t, 2, e)
    ||| {
        &&& e == ModelError::GridWidth
        &&& crate::tensor::holds_u32(t, 2)
        &&& !crate::grid::three_wide(crate::tensor::matrix_of(t))
    }
}

/// What a pass over pictures is refused for, if anything.
pub open spec fn pass_fault(
    floors: Seq<Floors>,
    grids: Seq<Thw>,
    side: u32,
    merge: u32,
) -> Option<ModelError> {
    match interpolation_fault(floors, grids, side, merge) {
        Some(e) => Some(e),
        None => match rotary_fault(grids, merge) {
            Some(e) => Some(e),
            None => if crate::grid::frames_fit(grids) {
                None
            } else {
                Some(ModelError::Overflow)
            },
        },
    }
}

impl VisionPlan {
    /// All tensors are kept in the given place.
    pub open spec fn kept(self, place: Place) -> bool {
        crate::tensor::tensor_place(self.positions.entries) == place && self.rotary.kept(place)
    }
}

impl Qwen3VLVisionModel {
    /// The plan of a pass over pictures: positions, rotary embeddings, frames, and what
    /// happens block by block.
    pub open spec fn plans(self, p: VisionPlan, floors: Seq<Floors>, grids: Seq<Thw>) -> bool {
        &&& p.positions.serves(floors, grids, self.num_grid_per_side, self.spatial_merge_size)
        &&& p.rotary.serves(grids, self.spatial_merge_size)
        &&& p.chunks@ == crate::grid::frame_chunks(grids)
        &&& p.streaming == (self.stream_blocks && self.can_reload())
        &&& p.actions@ == crate::streaming::all_actions(
            self.num_blocks as nat,
            p.streaming,
            self.deepstack_visual_indexes@,
        )
    }

    /// Looks up the position embeddings around the patches of pictures.
    pub fn fast_pos_embed_interpolate(&self, grid_thw: &Tensor, floors: &Vec<Floors>) -> (r: Result<
        InterpolationPlan,
        ModelError,
    >)
        ensures
            match r {
                Ok(p) => {
                    &&& self.spatial_merge_size > 0
                    &&& is_grid(*grid_thw)
                    &&& interpolation_fault(
                        floors@,
                        crate::grid::grids_in(*grid_thw),
                        self.num_grid_per_side,
                        self.spatial_merge_size,
                    ) is None
                    &&& p.serves(
                        floors@,
                        crate::grid::grids_in(*grid_thw),
                        self.num_grid_per_side,
                        self.spatial_merge_size,
                    )
                    &&& crate::tensor::tensor_place(p.entries) == crate::tensor::tensor_place(
                        *grid_thw,
                    )
                },
                Err(e) => {
                    ||| self.spatial_merge_size == 0 && e == ModelError::MergeSize
                    ||| refused_grid(*grid_thw, e)
                    ||| is_grid(*grid_thw) && interpolation_fault(
                    floors@,
                    crate::grid::grids_in(*grid_thw),
                    self.num_grid_per_side,
                    self.spatial_merge_size,
                ) == Some(e)
                    ||| crate::tensor::copy_refused(*grid_thw, e)
                },
            },
    {
        if self.spatial_merge_size == 0 {
            return Err(ModelError::MergeSize);
        }
        let grids = match read_grid(grid_thw) {
            Ok(grids) => grids,
            Err(e) => return Err(e),
        };
        match plan_interpolation(
            floors,
            &grids,
            self.num_grid_per_side,
            self.spatial_merge_size,
        ) {
            Ok(p) => p.beside(grid_thw),
            Err(e) => Err(e),
        }
    }

    /// Looks up the rotary embeddings of pictures.
    pub fn rot_pos_emb(&self, grid_thw: &Tensor) -> (r: Result<RotaryPlan, ModelError>)
        ensures
            match r {
                Ok(p) => {
                    &&& self.spatial_merge_size > 0
                    &&& is_grid(*grid_thw)
                    &&& rotary_fault(
                        crate::grid::grids_in(*grid_thw),
                        self.spatial_merge_size,
                    ) is None
                    &&& p.serves(crate::grid::grids_in(*grid_thw), self.spatial_merge_size)
                    &&& p.kept(crate::tensor::tensor_place(*grid_thw))
                },
                Err(e) => {
                    ||| self.spatial_merge_size == 0 && e == ModelError::MergeSize
                    ||| refused_grid(*grid_thw, e)
                    ||| is_grid(*grid_thw) && rotary_fault(
                    crate::grid::grids_in(*grid_thw),
                    self.spatial_merge_size,
                ) == Some(e)
                    ||| crate::tensor::copy_refused(*grid_thw, e)
                },
            },
    {
        if self.spatial_merge_size == 0 {
            return Err(ModelError::MergeSize);
        }
        let grids = match read_grid(grid_thw) {
            Ok(grids) => grids,
            Err(e) => return Err(e),
        };
        match plan_rotary(&grids, self.spatial_merge_size) {
            Ok(p) => p.beside(grid_thw),
            Err(e) => Err(e),
        }
    }

    /// Plans a pass over pictures.
    pub fn plan(&self, floors: &Vec<Floors>, grids: &Vec<Thw>) -> (r: Result<VisionPlan, ModelError>)
        requires
            self.spatial_merge_size > 0,
        ensures
            match r {
                Ok(p) => {
                    &&& pass_fault(
                        floors@,
                        grids@,
                        self.num_grid_per_side,
                        self.spatial_merge_size,
                    ) is None
                    &&& self.plans(p, floors@, grids@)
                    &&& p.kept(Place::Host)
                },
                Err(e) => pass_fault(
                    floors@,
                    grids@,
                    self.num_grid_per_side,
                    self.spatial_merge_size,
                ) == Some(e),
            },
    {
        let positions = match plan_interpolation(
            floors,
            grids,
            self.num_grid_per_side,
            self.spatial_merge_size,
        ) {
            Ok(p) => p,
            Err(e) => return Err(e),
        };
        let rotary = match plan_rotary(grids, self.spatial_merge_size) {
            Ok(p) => p,
            Err(e) => return Err(e),
        };
        let chunks = match chunk_frames(grids) {
            Ok(c) => c,
            Err(e) => return Err(e),
        };
        let streaming = self.stream_blocks && self.is_jit_capable();
        let actions = plan_actions(self.num_blocks, streaming, &self.deepstack_visual_indexes);
        Ok(VisionPlan { positions, rotary, chunks, actions, streaming })
    }

    /// Plans a pass over the pictures of a grid tensor.
    pub fn forward(&self, grid_thw: &Tensor, floors: &Vec<Floors>) -> (r: Result<
        VisionPlan,
        ModelError,
    >)
        ensures
            match r {
                Ok(p) => {
                    &&& self.spatial_merge_size > 0
                    &&& is_grid(*grid_thw)
                    &&& pass_fault(
                        floors@,
                        crate::grid::grids_in(*grid_thw),
                        self.num_grid_per_side,
                        self.spatial_merge_size,
                    ) is None
                    &&& self.plans(p, floors@, crate::grid::grids_in(*grid_thw))
                    &&& p.kept(crate::tensor::tensor_place(*grid_thw))
                },
                Err(e) => {
                    ||| self.spatial_merge_size == 0 && e == ModelError::MergeSize
                    ||| refused_grid(*grid_thw, e)
                    ||| is_grid(*grid_thw) && pass_fault(
                    floors@,
                    crate::grid::grids_in(*grid_thw),
                    self.num_grid_per_side,
                    self.spatial_merge_size,
                ) == Some(e)
                    ||| crate::tensor::copy_refused(*grid_thw, e)
                },
            },
    {
        if self.spatial_merge_size == 0 {
            return Err(ModelError::MergeSize);
        }
        let grids = match read_grid(grid_thw) {
            Ok(grids) => grids,
            Err(e) => return Err(e),
        };
        let p = match self.plan(floors, &grids) {
            Ok(p) => p,
            Err(e) => return Err(e),
        };
        let positions = match p.positions.beside(grid_thw) {
            Ok(x) => x,
            Err(e) => return Err(e),
        };
        match p.rotary.beside(grid_thw) {
            Ok(rotary) => Ok(
                VisionPlan {
                    positions,
                    rotary,
                    chunks: p.chunks,
                    actions: p.actions,
                    streaming: p.streaming,
                },
            ),
            Err(e) => Err(e),
        }
    }
}

/// How many patches are taken from the position table for pictures.
pub open spec fn ordered_patches(grids: Seq<Thw>, merge: u32) -> nat
    decreases grids.len(),
{
    if grids.len() == 0 {
        0
    } else {
        ordered_patches(grids.drop_last(), merge) + crate::patches::row_order(
            grids.last(),
            merge,
        ).len()
    }
}

proof fn lemma_no_order_fault(grids: Seq<Thw>, merge: u32, n: nat, i: int)
    requires
        0 <= i < n <= grids.len(),
        first_order_fault(grids, merge, n) is None,
    ensures
        crate::patches::order_fault(grids[i], merge) is None,
    decreases n,
{
    if i < n - 1 {
        lemma_no_order_fault(grids, merge, (n - 1) as nat, i);
    }
}

proof fn lemma_chunk_sum_add(a: Seq<usize>, b: Seq<usize>)
    ensures
        crate::attention::chunk_sum(a + b) == crate::attention::chunk_sum(a)
            + crate::attention::chunk_sum(b),
    decreases b.len(),
{
    if b.len() == 0 {
        assert(a + b =~= a);
    } else {
        lemma_chunk_sum_add(a, b.drop_last());
        assert((a + b).drop_last() =~= a + b.drop_last());
    }
}

proof fn lemma_equal_chunks(chunks: Seq<usize>, len: usize)
    requires
        forall|i: int| 0 <= i < chunks.len() ==> chunks[i] == len,
    ensures
        crate::attention::chunk_sum(chunks) == chunks.len() * len,
    decreases chunks.len(),
{
    if chunks.len() > 0 {
        let rest = chunks.drop_last();
        lemma_equal_chunks(rest, len);
        assert((rest.len() + 1) * len == rest.len() * len + len) by (nonlinear_arith);
    }
}

/// Pictures are encoded side by side: what is planned for two lists of pictures joined is what
/// is planned for the first, followed by what is planned for the second.
pub proof fn pictures_are_encoded_side_by_side(
    grids: Seq<Thw>,
    more: Seq<Thw>,
    floors: Seq<Floors>,
    more_floors: Seq<Floors>,
    merge: u32,
    side: u32,
    corner: int,
)
    ensures
        crate::patches::all_coordinates(grids + more, merge) == crate::patches::all_coordinates(
            grids,
            merge,
        ) + crate::patches::all_coordinates(more, merge),
        crate::grid::frame_chunks(grids + more) == crate::grid::frame_chunks(grids)
            + crate::grid::frame_chunks(more),
        crate::grid::feature_split(grids + more, merge) == crate::grid::feature_split(grids, merge)
            + crate::grid::feature_split(more, merge),
        crate::interpolate::corner_tables(floors + more_floors, side, corner)
            == crate::interpolate::corner_tables(floors, side, corner)
            + crate::interpolate::corner_tables(more_floors, side, corner),
{
    lemma_more_grids(grids, more, merge);
    lemma_more_floors(floors, more_floors, side, corner);
    assert(crate::grid::feature_split(grids + more, merge) =~= crate::grid::feature_split(
        grids,
        merge,
    ) + crate::grid::feature_split(more, merge));
}

proof fn lemma_more_grids(grids: Seq<Thw>, more: Seq<Thw>, merge: u32)
    ensures
        crate::patches::all_coordinates(grids + more, merge) == crate::patches::all_coordinates(
            grids,
            merge,
        ) + crate::patches::all_coordinates(more, merge),
        crate::grid::frame_chunks(grids + more) == crate::grid::frame_chunks(grids)
            + crate::grid::frame_chunks(more),
    decreases more.len(),
{
    if more.len() == 0 {
        assert(grids + more =~= grids);
    } else {
        lemma_more_grids(grids, more.drop_last(), merge);
        assert((grids + more).drop_last() =~= grids + more.drop_last());
        assert(crate::patches::all_coordinates(grids + more, merge)
            =~= crate::patches::all_coordinates(grids, merge) + crate::patches::all_coordinates(
            more,
            merge,
        ));
        assert(crate::grid::frame_chunks(grids + more) =~= crate::grid::frame_chunks(grids)
            + crate::grid::frame_chunks(more));
    }
}

proof fn lemma_more_floors(floors: Seq<Floors>, more: Seq<Floors>, side: u32, corner: int)
    ensures
        crate::interpolate::corner_tables(floors + more, side, corner)
            == crate::interpolate::corner_tables(floors, side, corner)
            + crate::interpolate::corner_tables(more, side, corner),
    decreases more.len(),
{
    if more.len() == 0 {
        assert(floors + more =~= floors);
    } else {
        lemma_more_floors(floors, more.drop_last(), side, corner);
        assert((floors + more).drop_last() =~= floors + more.drop_last());
        assert(crate::interpolate::corner_tables(floors + more, side, corner)
            =~= crate::interpolate::corner_tables(floors, side, corner)
            + crate::interpolate::corner_tables(more, side, corner));
    }
}

/// The parts of a pass line up: position embeddings, rotary embeddings and attention frames
/// all have one place for each patch of the pictures.
pub proof fn pass_lines_up(grids: Seq<Thw>, merge: u32)
    requires
        merge > 0,
        first_order_fault(grids, merge, grids.len()) is None,
        crate::grid::frames_fit(grids),
        forall|i: int| 0 <= i < grids.len() ==> (#[trigger] grids[i]).t > 0,
    ensures
        ordered_patches(grids, merge) == crate::patches::all_coordinates(grids, merge).len(),
        ordered_patches(grids, merge) == crate::attention::chunk_sum(
            crate::grid::frame_chunks(grids),
        ),
{
    assert forall|i: int| 0 <= i < grids.len() implies crate::patches::order_fault(
        #[trigger] grids[i],
        merge,
    ) is None by {
        lemma_no_order_fault(grids, merge, grids.len(), i);
    }
    lemma_pass_lines_up(grids, merge);
}

proof fn lemma_pass_lines_up(grids: Seq<Thw>, merge: u32)
    requires
        merge > 0,
        forall|i: int|
            0 <= i < grids.len() ==> crate::patches::order_fault(#[trigger] grids[i], merge) is None,
        crate::grid::frames_fit(grids),
        forall|i: int| 0 <= i < grids.len() ==> (#[trigger] grids[i]).t > 0,
    ensures
        ordered_patches(grids, merge) == crate::patches::all_coordinates(grids, merge).len(),
        ordered_patches(grids, merge) == crate::attention::chunk_sum(
            crate::grid::frame_chunks(grids),
        ),
    decreases grids.len(),
{
    if grids.len() > 0 {
        let rest = grids.drop_last();
        let g = grids.last();
        assert(g == grids[grids.len() - 1]);
        lemma_pass_lines_up(rest, merge);
        lemma_chunk_sum_add(crate::grid::frame_chunks(rest), crate::grid::frame_lengths(g));
        lemma_equal_chunks(crate::grid::frame_lengths(g), (g.h * g.w) as usize);
        assert((g.t as nat) * (g.h as nat) * (g.w as nat) == (g.t as nat) * ((g.h as nat) * (
        g.w as nat))) by (nonlinear_arith);
        assert(g.h * g.w >= 0) by (nonlinear_arith)
            requires
                g.h >= 0,
                g.w >= 0,
        ;
        assert((g.h * g.w) as usize == g.h * g.w);
    }
}

/// Every patch of a picture is interpolated between neighbours of the position table. Its four
/// entries stand at the same place of four rows: the entry at its floors, the next one along
/// the table row, the one right below it, and the one that completes the square; at the edge of
/// the table an entry stands in for the one that is missing.
pub proof fn patches_read_four_neighbours(
    p: InterpolationPlan,
    floors: Seq<Floors>,
    grids: Seq<Thw>,
    side: u32,
    merge: u32,
    i: int,
    y: int,
    x: int,
)
    requires
        p.serves(floors, grids, side, merge),
        crate::interpolate::all_floors_fit(floors, grids, side),
        crate::interpolate::patches_before(floors, floors.len()) <= usize::MAX,
        0 <= i < grids.len(),
        0 <= y < grids[i].h,
        0 <= x < grids[i].w,
    ensures
        ({
            let n = crate::interpolate::patches_before(floors, floors.len()) as int;
            let k = crate::interpolate::patches_before(floors, i as nat) + y * grids[i].w + x;
            let e = crate::tensor::tensor_elements(p.entries);
            let row = floors[i].rows@[y];
            let column = floors[i].columns@[x];
            &&& crate::tensor::tensor_dims(p.entries) == seq![4usize, n as usize]
            &&& crate::tensor::tensor_element(p.entries) == Element::U32
            &&& e.len() == 4 * n
            &&& 0 <= k < n
            &&& e[k] == row * side + column
            &&& e[n + k] - e[k] == if column + 1 == side {
                0int
            } else {
                1
            }
            &&& e[2 * n + k] - e[k] == if row + 1 == side {
                0int
            } else {
                side as int
            }
            &&& e[3 * n + k] - e[2 * n + k] == e[n + k] - e[k]
        }),
{
    let f = floors[i];
    assert(crate::interpolate::floors_fit(floors[i], grids[i], side));
    let w = grids[i].w as int;
    let k = y * w + x;
    let before = crate::interpolate::patches_before(floors, i as nat) as int;
    let n = crate::interpolate::patches_before(floors, floors.len()) as int;
    crate::interpolate::corners_are_neighbours(f.rows@, f.columns@, side, y, x);
    assert(0 <= k < f.rows@.len() * f.columns@.len());
    crate::interpolate::pictures_stand_in_order(floors, side, 0, i, k);
    crate::interpolate::pictures_stand_in_order(floors, side, 1, i, k);
    crate::interpolate::pictures_stand_in_order(floors, side, 2, i, k);
    crate::interpolate::pictures_stand_in_order(floors, side, 3, i, k);
    let t0 = crate::interpolate::corner_tables(floors, side, 0);
    let t1 = crate::interpolate::corner_tables(floors, side, 1);
    let t2 = crate::interpolate::corner_tables(floors, side, 2);
    let t3 = crate::interpolate::corner_tables(floors, side, 3);
    let all = four_tables(floors, side);
    assert(all[before + k] == t0[before + k]);
    assert(all[n + before + k] == t1[before + k]);
    assert(all[2 * n + before + k] == t2[before + k]);
    assert(all[3 * n + before + k] == t3[before + k]);
}

/// Every picture has the patches of its frames counted, and taken square by square: the patch
/// in row `r` and column `c` of frame `f` is read at its place among the rows of a frame.
pub proof fn patches_are_taken_by_squares(
    p: InterpolationPlan,
    floors: Seq<Floors>,
    grids: Seq<Thw>,
    side: u32,
    merge: u32,
    i: int,
    f: int,
    r: int,
    c: int,
)
    requires
        p.serves(floors, grids, side, merge),
        merge > 0,
        0 <= i < grids.len(),
        0 <= f < grids[i].t,
        0 <= r < (grids[i].h / merge) * merge,
        0 <= c < (grids[i].w / merge) * merge,
    ensures
        ({
            let g = grids[i];
            let m = merge as int;
            let down = g.h as int / m;
            let across = g.w as int / m;
            let k = (((f * down + r / m) * across + c / m) * m + r % m) * m + c % m;
            &&& p.lengths@.len() == grids.len()
            &&& p.orders@.len() == grids.len()
            &&& p.lengths@[i] == g.h * g.w
            &&& p.orders@[i]@.len() == g.t * (down * m) * (across * m)
            &&& 0 <= k < p.orders@[i]@.len()
            &&& p.orders@[i]@[k] == r * g.w + c
        }),
{
    let g = grids[i];
    crate::patches::patches_stand_in_place(g, merge, f, r, c);
    let lengths = grids.map_values(|g: Thw| (g.h as nat) * (g.w as nat));
    let orders = grids.map_values(|g: Thw| crate::patches::row_order(g, merge));
    assert(crate::grid::sizes(p.lengths@).len() == lengths.len());
    assert(crate::grid::sizes(p.lengths@)[i] == lengths[i]);
    assert(orders_of(p.orders@).len() == orders.len());
    assert(orders_of(p.orders@)[i] == orders[i]);
    assert(crate::visual::nats(p.orders@[i]@) == crate::patches::row_order(g, merge));
    let m = merge as int;
    let down = g.h as int / m;
    let across = g.w as int / m;
    let k = (((f * down + r / m) * across + c / m) * m + r % m) * m + c % m;
    assert(crate::visual::nats(p.orders@[i]@)[k] == p.orders@[i]@[k] as nat);
}

/// Every patch is turned by its own row and by its own column, and the table of angles reaches
/// as far as the longest side of all pictures.
pub proof fn patches_turn_by_row_and_column(
    p: RotaryPlan,
    grids: Seq<Thw>,
    merge: u32,
    i: int,
    f: int,
    r: int,
    c: int,
)
    requires
        p.serves(grids, merge),
        merge > 0,
        0 <= i < grids.len(),
        0 <= f < grids[i].t,
        0 <= r < (grids[i].h / merge) * merge,
        0 <= c < (grids[i].w / merge) * merge,
    ensures
        ({
            let g = grids[i];
            let m = merge as int;
            let down = g.h as int / m;
            let across = g.w as int / m;
            let k = (((f * down + r / m) * across + c / m) * m + r % m) * m + c % m;
            let at = crate::patches::coordinates_before(grids, merge, i as nat) + k;
            let rows = crate::tensor::tensor_elements(p.rows);
            let columns = crate::tensor::tensor_elements(p.columns);
            &&& crate::tensor::tensor_dims(p.rows) == seq![rows.len() as usize]
            &&& crate::tensor::tensor_dims(p.columns) == seq![rows.len() as usize]
            &&& crate::tensor::tensor_element(p.rows) == Element::U32
            &&& crate::tensor::tensor_element(p.columns) == Element::U32
            &&& rows.len() == columns.len()
            &&& 0 <= at < rows.len()
            &&& rows[at] == r
            &&& columns[at] == c
            &&& r < p.table_len
            &&& c < p.table_len
        }),
{
    let g = grids[i];
    let m = merge as int;
    let down = g.h as int / m;
    let across = g.w as int / m;
    let k = (((f * down + r / m) * across + c / m) * m + r % m) * m + c % m;
    crate::patches::patches_stand_in_place(g, merge, f, r, c);
    crate::patches::pictures_are_listed_in_order(grids, merge, i, k);
    crate::grid::no_side_is_longer(grids, i);
    vstd::arithmetic::div_mod::lemma_fundamental_div_mod(g.h as int, m);
    vstd::arithmetic::div_mod::lemma_fundamental_div_mod(g.w as int, m);
    assert((g.h / merge) * merge <= g.h && (g.w / merge) * merge <= g.w) by (nonlinear_arith)
        requires
            g.h as int == m * (g.h as int / m) + g.h as int % m,
            g.w as int == m * (g.w as int / m) + g.w as int % m,
            g.h as int % m >= 0,
            g.w as int % m >= 0,
            m == merge as int,
            m > 0,
    ;
}

/// Pictures of whole squares are encoded, whatever else: nothing is refused as long as there is
/// a picture, the table can be indexed, the floors belong to the pictures and the patches can
/// be counted.
pub proof fn whole_pictures_are_encoded(
    floors: Seq<Floors>,
    grids: Seq<Thw>,
    side: u32,
    merge: u32,
)
    requires
        merge > 0,
        grids.len() > 0,
        side <= 0x1_0000,
        floors.len() == grids.len(),
        forall|i: int|
            0 <= i < grids.len() ==> {
                let g = #[trigger] grids[i];
                &&& g.t > 0
                &&& g.h % merge == 0
                &&& g.w % merge == 0
                &&& g.h * g.w <= u32::MAX
                &&& g.t * g.h * g.w <= usize::MAX
                &&& floors[i].rows@.len() == g.h
                &&& floors[i].columns@.len() == g.w
                &&& forall|y: int| 0 <= y < g.h ==> #[trigger] floors[i].rows@[y] < side
                &&& forall|x: int| 0 <= x < g.w ==> #[trigger] floors[i].columns@[x] < side
            },
    ensures
        pass_fault(floors, grids, side, merge) is None,
        rotary_fault(grids, merge) is None,
        interpolation_fault(floors, grids, side, merge) is None,
{
    let n = grids.len();
    assert forall|i: int| 0 <= i < n implies crate::patches::order_fault(
        #[trigger] grids[i],
        merge,
    ) is None && crate::patches::coordinates(grids[i], merge).len() <= usize::MAX by {
        crate::patches::whole_pictures_are_laid_out(grids[i], merge);
    }
    assert(crate::interpolate::all_floors_fit(floors, grids, side)) by {
        assert forall|i: int| 0 <= i < floors.len() implies crate::interpolate::floors_fit(
            #[trigger] floors[i],
            grids[i],
            side,
        ) by {
            let g = grids[i];
        }
    }
    lemma_no_first_fault(grids, merge, n);
    assert(crate::grid::frames_fit(grids));
}

proof fn lemma_no_first_fault(grids: Seq<Thw>, merge: u32, n: nat)
    requires
        n <= grids.len(),
        forall|i: int|
            0 <= i < grids.len() ==> crate::patches::order_fault(#[trigger] grids[i], merge) is None,
    ensures
        first_order_fault(grids, merge, n) is None,
    decreases n,
{
    if n > 0 {
        lemma_no_first_fault(grids, merge, (n - 1) as nat);
        assert(crate::patches::order_fault(grids[n - 1], merge) is None);
    }
}

/// What cannot be encoded is refused: no picture at all, and a picture that leaves a square
/// unfilled.
pub proof fn partial_pictures_are_refused(
    floors: Seq<Floors>,
    grids: Seq<Thw>,
    side: u32,
    merge: u32,
    i: int,
)
    requires
        merge > 0,
        0 <= i < grids.len(),
        grids[i].t > 0,
        grids[i].h > 0,
        grids[i].w > 0,
        grids[i].h % merge != 0 || grids[i].w % merge != 0,
    ensures
        pass_fault(floors, grids, side, merge) is Some,
        pass_fault(floors, Seq::empty(), side, merge) == Some(ModelError::NoPictures),
        rotary_fault(Seq::empty(), merge) == Some(ModelError::NoPictures),
{
    crate::patches::whole_squares(grids[i], merge);
    if first_order_fault(grids, merge, grids.len()) is None {
        lemma_no_order_fault(grids, merge, grids.len(), i);
    }
}

/// Floors that do not belong to the pictures are refused: another number of them, or one past
/// the table.
pub proof fn stray_floors_are_refused(
    floors: Seq<Floors>,
    grids: Seq<Thw>,
    side: u32,
    merge: u32,
    i: int,
    y: int,
)
    requires
        grids.len() > 0,
        side <= 0x1_0000,
        floors.len() != grids.len() || (0 <= i < grids.len() && ({
            ||| floors[i].rows@.len() != grids[i].h
            ||| floors[i].columns@.len() != grids[i].w
            ||| 0 <= y < floors[i].rows@.len() && floors[i].rows@[y] >= side
            ||| 0 <= y < floors[i].columns@.len() && floors[i].columns@[y] >= side
        })),
    ensures
        pass_fault(floors, grids, side, merge) == Some(ModelError::ShapeMismatch),
        interpolation_fault(floors, grids, side, merge) == Some(ModelError::ShapeMismatch),
{
    if crate::interpolate::all_floors_fit(floors, grids, side) {
        assert(crate::interpolate::floors_fit(floors[i], grids[i], side));
    }
}

/// A pass over pictures is planned in all its parts: positions and rotary embeddings for every
/// patch, a chunk of attention for every frame, and the steps of all blocks, which are streamed
/// just where that is switched on and the weights can be read again.
pub proof fn a_pass_is_planned_in_all_parts(
    m: Qwen3VLVisionModel,
    p: VisionPlan,
    floors: Seq<Floors>,
    grids: Seq<Thw>,
    i: int,
    f: int,
)
    requires
        m.plans(p, floors, grids),
        crate::grid::frames_fit(grids),
        0 <= i < grids.len(),
        0 <= f < grids[i].t,
    ensures
        p.positions.serves(floors, grids, m.num_grid_per_side, m.spatial_merge_size),
        p.rotary.serves(grids, m.spatial_merge_size),
        p.chunks@.len() == crate::grid::frames_up_to(grids, grids.len()),
        crate::grid::frames_up_to(grids, i as nat) + f < p.chunks@.len(),
        p.chunks@[crate::grid::frames_up_to(grids, i as nat) + f] == grids[i].h * grids[i].w,
        p.streaming <==> m.stream_blocks && m.mmproj_ct is Some && m.mmproj_mapped,
        p.actions@ == crate::streaming::all_actions(
            m.num_blocks as nat,
            p.streaming,
            m.deepstack_visual_indexes@,
        ),
{
    crate::grid::every_frame_is_a_chunk(grids, i, f);
}

/// A grid of pictures has just three numbers to a row.
pub proof fn grids_have_three_columns(t: Tensor)
    requires
        crate::tensor::holds_u32(t, 2),
        crate::tensor::tensor_dims(t)[0] > 0,
    ensures
        is_grid(t) <==> crate::tensor::tensor_dims(t)[1] == 3,
        is_grid(t) ==> crate::grid::is_wide(t),
        !is_grid(t) ==> refused_grid(t, ModelError::GridWidth),
{
    let rows = crate::tensor::matrix_of(t);
    assert(rows[0].len() == crate::tensor::tensor_dims(t)[1]);
    if crate::tensor::tensor_dims(t)[1] == 3 {
        assert forall|i: int| 0 <= i < rows.len() implies (#[trigger] rows[i]).len() == 3 by {}
    }
}

/// A plan that is kept in a place has all its tensors there.
pub proof fn plans_are_kept_whole(p: VisionPlan, place: Place)
    requires
        p.kept(place),
    ensures
        crate::tensor::tensor_place(p.positions.entries) == place,
        crate::tensor::tensor_place(p.rotary.rows) == place,
        crate::tensor::tensor_place(p.rotary.columns) == place,
{
}

} // verus!
