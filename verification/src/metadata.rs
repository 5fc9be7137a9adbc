//! The vision model that a weight file describes.
use candle_core::quantized::gguf_file::Content;
use vstd::prelude::*;

use crate::components::{Qwen3VLVisionBlock, Qwen3VLVisionPatchEmbed, Qwen3VLVisionPatchMerger};
use crate::error::ModelError;
use crate::gguf::{has_real, meta_booleans, meta_number};
use crate::vision::Qwen3VLVisionModel;
use crate::weights::{decimal_text, extend_steps, glue, push_step, LoadStep, Slot};

verus! {

/// What the header of a weight file says of the vision model.
#[derive(Debug)]
pub struct VisionMetadata {
    pub spatial_merge_size: u32,
    pub embedding_length: u32,
    pub patch_size: u32,
    pub image_size: u32,
    pub head_count: u32,
    pub block_count: u32,
    /// For each block, whether its output also goes to a deepstack merger.
    pub is_deepstack_layers: Vec<bool>,
}

/// The numbers that a header must hold.
pub open spec fn number_keys() -> Seq<Seq<char>> {
    seq![
        "clip.vision.spatial_merge_size"@,
        "clip.vision.embedding_length"@,
        "clip.vision.patch_size"@,
        "clip.vision.image_size"@,
        "clip.vision.attention.head_count"@,
        "clip.vision.block_count"@,
    ]
}

/// A header holds everything that a vision model is made from.
pub open spec fn is_complete(ct: Content) -> bool {
    &&& forall|i: int|
        0 <= i < number_keys().len() ==> crate::gguf::meta_numbers(ct).contains_key(
            #[trigger] number_keys()[i],
        )
    &&& crate::gguf::meta_real_keys(ct).contains("clip.vision.attention.layer_norm_epsilon"@)
    &&& crate::gguf::meta_flags(ct).contains_key("clip.vision.is_deepstack_layers"@)
}

/// What a header says of the vision model.
pub open spec fn described_by(m: VisionMetadata, ct: Content) -> bool {
    let n = crate::gguf::meta_numbers(ct);
    &&& m.spatial_merge_size == n["clip.vision.spatial_merge_size"@]
    &&& m.embedding_length == n["clip.vision.embedding_length"@]
    &&& m.patch_size == n["clip.vision.patch_size"@]
    &&& m.image_size == n["clip.vision.image_size"@]
    &&& m.head_count == n["clip.vision.attention.head_count"@]
    &&& m.block_count == n["clip.vision.block_count"@]
    &&& m.is_deepstack_layers@ == crate::gguf::meta_flags(ct)["clip.vision.is_deepstack_layers"@]
}

impl VisionMetadata {
    /// What a model is refused for, if anything: patches or heads that cannot divide
    /// anything, or merged squares too large to count.
    pub open spec fn fault(self) -> Option<ModelError> {
        if self.patch_size == 0 || self.head_count == 0 {
            Some(ModelError::Metadata)
        } else if crate::components::square_size(
            self.embedding_length as usize,
            self.spatial_merge_size,
        ) > usize::MAX {
            Some(ModelError::Overflow)
        } else {
            None
        }
    }

    /// Reads a header. Refuses one that lacks an entry.
    pub fn read(ct: &Content) -> (r: Result<VisionMetadata, ModelError>)
        ensures
            match r {
                Ok(m) => is_complete(*ct) && described_by(m, *ct),
                Err(e) => !is_complete(*ct) && e == ModelError::Metadata,
            },
    {
        let merge = meta_number(ct, "clip.vision.spatial_merge_size");
        let width = meta_number(ct, "clip.vision.embedding_length");
        let patch = meta_number(ct, "clip.vision.patch_size");
        let image = meta_number(ct, "clip.vision.image_size");
        let heads = meta_number(ct, "clip.vision.attention.head_count");
        let blocks = meta_number(ct, "clip.vision.block_count");
        if !has_real(ct, "clip.vision.attention.layer_norm_epsilon") {
            return Err(ModelError::Metadata);
        }
        let flags = meta_booleans(ct, "clip.vision.is_deepstack_layers");
        proof {
            let n = crate::gguf::meta_numbers(*ct);
            let k = number_keys();
            assert(n.contains_key(k[0]) <==> merge is Some);
            assert(n.contains_key(k[1]) <==> width is Some);
            assert(n.contains_key(k[2]) <==> patch is Some);
            assert(n.contains_key(k[3]) <==> image is Some);
            assert(n.contains_key(k[4]) <==> heads is Some);
            assert(n.contains_key(k[5]) <==> blocks is Some);
        }
        match (merge, width, patch, image, heads, blocks, flags) {
            (
                Some(spatial_merge_size),
                Some(embedding_length),
                Some(patch_size),
                Some(image_size),
                Some(head_count),
                Some(block_count),
                Some(is_deepstack_layers),
            ) => Ok(
                VisionMetadata {
                    spatial_merge_size,
                    embedding_length,
                    patch_size,
                    image_size,
                    head_count,
                    block_count,
                    is_deepstack_layers,
                },
            ),
            _ => Err(ModelError::Metadata),
        }
    }
}

/// The places of the marks in a list of flags.
fn find_set(flags: &Vec<bool>) -> (r: Vec<usize>)
    ensures
        crate::grid::sizes(r@) == crate::marks::set_places(flags@),
{
    let mut out: Vec<usize> = Vec::new();
    let mut i: usize = 0;
    assert(crate::grid::sizes(out@) =~= crate::marks::set_places(flags@.take(0)));
    while i < flags.len()
        invariant
            i <= flags@.len(),
            crate::grid::sizes(out@) == crate::marks::set_places(flags@.take(i as int)),
        decreases flags@.len() - i,
    {
        assert(flags@.take(i + 1).drop_last() =~= flags@.take(i as int));
        let ghost before = out@;
        if flags[i] {
            out.push(i);
            assert(crate::grid::sizes(out@) =~= crate::grid::sizes(before).push(i as nat));
        }
        i = i + 1;
    }
    assert(flags@.take(i as int) =~= flags@);
    out
}

impl Qwen3VLVisionModel {
    /// A model as a header describes it, with all its weights to be read.
    pub open spec fn made_from(self, m: VisionMetadata) -> bool {
        &&& self.wf()
        &&& self.spatial_merge_size == m.spatial_merge_size
        &&& self.num_grid_per_side == m.image_size / m.patch_size
        &&& self.hidden_size == m.embedding_length
        &&& self.head_dim == m.embedding_length / m.head_count
        &&& self.num_blocks == m.block_count
        &&& crate::grid::sizes(self.deepstack_visual_indexes@) == crate::marks::set_places(
            m.is_deepstack_layers@,
        )
        &&& self.blocks_fit(m.head_count as usize)
        &&& self.mergers_fit()
        &&& self.is_weights_loaded
        &&& !self.stream_blocks
        &&& self.mmproj_path is None
    }

    /// A vision model as its metadata describes it, and the stored tensors it is read from.
    pub fn from_metadata(m: &VisionMetadata) -> (r: Result<
        (Qwen3VLVisionModel, Vec<LoadStep>),
        ModelError,
    >)
        ensures
            match r {
                Ok((v, steps)) => {
                    &&& m.fault() is None
                    &&& v.made_from(*m)
                    &&& crate::weights::views(steps@) == crate::weights::first_load(
                        m.block_count as nat,
                        v.deepstack_visual_indexes@,
                    )
                },
                Err(e) => m.fault() == Some(e),
            },
    {
        if m.patch_size == 0 || m.head_count == 0 {
            return Err(ModelError::Metadata);
        }
        let hidden_size: usize = m.embedding_length as usize;
        let num_heads: usize = m.head_count as usize;
        let num_blocks: usize = m.block_count as usize;
        let mut steps: Vec<LoadStep> = Qwen3VLVisionPatchEmbed::new_from_gguf();
        push_step(&mut steps, Slot::Positions, String::from_str("v.position_embd.weight"));
        let ghost before = crate::weights::views(steps@);
        assert(before =~= crate::weights::patch_steps() + crate::weights::position_steps());
        let head_dim: usize = hidden_size / num_heads;
        let mut blocks: Vec<Qwen3VLVisionBlock> = Vec::new();
        let mut i: usize = 0;
        assert(before =~= before + crate::weights::all_block_steps(0));
        while i < num_blocks
            invariant
                num_heads > 0,
                i <= num_blocks,
                blocks@.len() == i,
                head_dim == hidden_size / num_heads,
                forall|j: int|
                    0 <= j < i ==> {
                        &&& (#[trigger] blocks@[j]).attn.num_heads == num_heads
                        &&& blocks@[j].attn.head_dim == head_dim
                    },
                crate::weights::views(steps@) == before + crate::weights::all_block_steps(i as nat),
            decreases num_blocks - i,
        {
            let prefix = glue("v.blk.", decimal_text(i).as_str());
            let (block, more) = Qwen3VLVisionBlock::new_from_gguf(
                num_heads,
                hidden_size,
                i,
                prefix.as_str(),
            );
            extend_steps(&mut steps, more);
            blocks.push(block);
            assert(crate::weights::views(steps@) =~= before + crate::weights::all_block_steps(
                (i + 1) as nat,
            ));
            i = i + 1;
        }
        let merger = match Qwen3VLVisionPatchMerger::new_from_gguf(
            false,
            hidden_size,
            m.spatial_merge_size,
            None,
            "v.post_ln",
            "mm.0",
            "mm.2",
        ) {
            Ok((merger, more)) => {
                extend_steps(&mut steps, more);
                merger
            },
            Err(e) => return Err(e),
        };
        let mut deepstack_merger_list: Vec<Qwen3VLVisionPatchMerger> = Vec::new();
        let indexes = find_set(&m.is_deepstack_layers);
        let ghost mergers = crate::weights::views(steps@);
        let mut k: usize = 0;
        assert(mergers =~= mergers + crate::weights::all_deepstack_steps(indexes@.take(0)));
        while k < indexes.len()
            invariant
                m.fault() is None,
                hidden_size == m.embedding_length,
                k <= indexes@.len(),
                deepstack_merger_list@.len() == k,
                forall|j: int|
                    0 <= j < k ==> {
                        &&& (#[trigger] deepstack_merger_list@[j]).hidden_size
                            == crate::components::square_size(hidden_size, m.spatial_merge_size)
                        &&& deepstack_merger_list@[j].use_postshuffle_norm
                    },
                crate::weights::views(steps@) == mergers + crate::weights::all_deepstack_steps(
                    indexes@.take(k as int),
                ),
            decreases indexes@.len() - k,
        {
            let prefix = glue("v.deepstack.", decimal_text(indexes[k]).as_str());
            let norm = glue(prefix.as_str(), ".norm");
            let fc1 = glue(prefix.as_str(), ".fc1");
            let fc2 = glue(prefix.as_str(), ".fc2");
            match Qwen3VLVisionPatchMerger::new_from_gguf(
                true,
                hidden_size,
                m.spatial_merge_size,
                Some(k),
                norm.as_str(),
                fc1.as_str(),
                fc2.as_str(),
            ) {
                Ok((deep, more)) => {
                    extend_steps(&mut steps, more);
                    deepstack_merger_list.push(deep);
                },
                Err(e) => return Err(e),
            }
            proof {
                assert(indexes@.take(k + 1).drop_last() =~= indexes@.take(k as int));
                assert(crate::weights::views(steps@) =~= mergers
                    + crate::weights::all_deepstack_steps(indexes@.take(k + 1)));
            }
            k = k + 1;
        }
        assert(indexes@.take(k as int) =~= indexes@);
        assert(crate::weights::views(steps@) =~= crate::weights::first_load(
            num_blocks as nat,
            indexes@,
        ));
        let v = Qwen3VLVisionModel {
            spatial_merge_size: m.spatial_merge_size,
            num_grid_per_side: m.image_size / m.patch_size,
            hidden_size,
            head_dim,
            num_blocks,
            blocks,
            deepstack_visual_indexes: indexes,
            merger,
            deepstack_merger_list,
            is_weights_loaded: true,
            stream_blocks: false,
            mmproj_path: None,
            mmproj_mapped: false,
            mmproj_ct: None,
        };
        Ok((v, steps))
    }

    /// A vision model as the header of a weight file describes it, and the stored tensors it
    /// is read from.
    pub fn new_from_gguf(ct: &Content) -> (r: Result<
        (Qwen3VLVisionModel, Vec<LoadStep>),
        ModelError,
    >)
        ensures
            match r {
                Ok((v, steps)) => {
                    &&& is_complete(*ct)
                    &&& exists|m: VisionMetadata|
                        {
                            &&& described_by(m, *ct)
                            &&& m.fault() is None
                            &&& #[trigger] v.made_from(m)
                        }
                    &&& crate::weights::views(steps@) == crate::weights::first_load(
                        v.num_blocks as nat,
                        v.deepstack_visual_indexes@,
                    )
                },
                Err(e) => if is_complete(*ct) {
                    exists|m: VisionMetadata|
                        described_by(m, *ct) && #[trigger] m.fault() == Some(e)
                } else {
                    e == ModelError::Metadata
                },
            },
    {
        match VisionMetadata::read(ct) {
            Ok(m) => Self::from_metadata(&m),
            Err(e) => Err(e),
        }
    }
}

/// A model is as large as its header says: its position table has as many patches to a side as
/// fit into an image, its heads share the features evenly, and a block feeds a deepstack merger
/// just where its flag is set.
pub proof fn models_are_made_to_measure(v: Qwen3VLVisionModel, m: VisionMetadata, i: nat)
    requires
        v.made_from(m),
        m.fault() is None,
    ensures
        v.num_grid_per_side * m.patch_size <= m.image_size < (v.num_grid_per_side + 1) * m.patch_size,
        v.head_dim * m.head_count <= m.embedding_length < (v.head_dim + 1) * m.head_count,
        v.hidden_size == m.embedding_length,
        v.spatial_merge_size == m.spatial_merge_size,
        v.num_blocks == m.block_count,
        v.blocks@.len() == m.block_count,
        v.merger.hidden_size == m.embedding_length * (m.spatial_merge_size * m.spatial_merge_size),
        (exists|k: int|
            0 <= k < v.deepstack_visual_indexes@.len() && #[trigger] v.deepstack_visual_indexes@[k]
                == i) <==> i < m.is_deepstack_layers@.len() && m.is_deepstack_layers@[i as int],
        v.is_weights_loaded,
        !v.stream_blocks,
        !v.can_reload(),
{
    let p = m.patch_size as int;
    let h = m.head_count as int;
    vstd::arithmetic::div_mod::lemma_fundamental_div_mod(m.image_size as int, p);
    vstd::arithmetic::div_mod::lemma_mod_bound(m.image_size as int, p);
    vstd::arithmetic::div_mod::lemma_fundamental_div_mod(m.embedding_length as int, h);
    vstd::arithmetic::div_mod::lemma_mod_bound(m.embedding_length as int, h);
    let a = v.num_grid_per_side as int;
    let b = v.head_dim as int;
    assert(a * p == p * a && (a + 1) * p == p * a + p) by (nonlinear_arith);
    assert(b * h == h * b && (b + 1) * h == h * b + h) by (nonlinear_arith);
    let flags = m.is_deepstack_layers@;
    let list = v.deepstack_visual_indexes@;
    let places = crate::marks::set_places(flags);
    crate::marks::places_are_those_of_the_marks(flags);
    assert(crate::grid::sizes(list).len() == list.len());
    if i < flags.len() && flags[i as int] {
        assert(flags[i as int]);
        assert(places.contains(i as int as nat));
        let k = places.index_of(i);
        assert(places[k] == i);
        assert(crate::grid::sizes(list)[k] == list[k] as nat);
        assert(list[k] == i);
    }
    if exists|k: int| 0 <= k < list.len() && #[trigger] list[k] == i {
        let k = choose|k: int| 0 <= k < list.len() && #[trigger] list[k] == i;
        assert(crate::grid::sizes(list)[k] == list[k] as nat);
        assert(places[k] == i);
    }
}

/// A header is complete just where it has all the entries that a model is made from, and each
/// size is read from the entry of its name.
pub proof fn headers_are_read_by_key(m: VisionMetadata, ct: Content)
    ensures
        is_complete(ct) <==> {
            let n = crate::gguf::meta_numbers(ct);
            &&& n.contains_key("clip.vision.spatial_merge_size"@)
            &&& n.contains_key("clip.vision.embedding_length"@)
            &&& n.contains_key("clip.vision.patch_size"@)
            &&& n.contains_key("clip.vision.image_size"@)
            &&& n.contains_key("clip.vision.attention.head_count"@)
            &&& n.contains_key("clip.vision.block_count"@)
            &&& crate::gguf::meta_real_keys(ct).contains(
                "clip.vision.attention.layer_norm_epsilon"@,
            )
            &&& crate::gguf::meta_flags(ct).contains_key("clip.vision.is_deepstack_layers"@)
        },
        described_by(m, ct) ==> {
            let n = crate::gguf::meta_numbers(ct);
            &&& n["clip.vision.spatial_merge_size"@] == m.spatial_merge_size
            &&& n["clip.vision.embedding_length"@] == m.embedding_length
            &&& n["clip.vision.patch_size"@] == m.patch_size
            &&& n["clip.vision.image_size"@] == m.image_size
            &&& n["clip.vision.attention.head_count"@] == m.head_count
            &&& n["clip.vision.block_count"@] == m.block_count
            &&& crate::gguf::meta_flags(ct)["clip.vision.is_deepstack_layers"@]
                == m.is_deepstack_layers@
        },
        m.fault() is None <==> m.patch_size > 0 && m.head_count > 0 && m.embedding_length * (
        m.spatial_merge_size * m.spatial_merge_size) <= usize::MAX,
{
    let k = number_keys();
    let n = crate::gguf::meta_numbers(ct);
    if is_complete(ct) {
        assert(n.contains_key(k[0]));
        assert(n.contains_key(k[1]));
        assert(n.contains_key(k[2]));
        assert(n.contains_key(k[3]));
        assert(n.contains_key(k[4]));
        assert(n.contains_key(k[5]));
    }
}

/// A model has a merger behind its last block that norms patch by patch, and one for each
/// deepstack block that norms whole squares; all its blocks have the heads of the header.
pub proof fn mergers_and_blocks_are_alike(v: Qwen3VLVisionModel, m: VisionMetadata, i: int)
    requires
        v.made_from(m),
    ensures
        !v.merger.use_postshuffle_norm,
        v.deepstack_merger_list@.len() == v.deepstack_visual_indexes@.len(),
        0 <= i < v.deepstack_merger_list@.len() ==> {
            &&& v.deepstack_merger_list@[i].use_postshuffle_norm
            &&& v.deepstack_merger_list@[i].hidden_size == v.merger.hidden_size
        },
        0 <= i < m.block_count ==> {
            &&& v.blocks@[i].attn.num_heads == m.head_count
            &&& v.blocks@[i].attn.head_dim == v.head_dim
        },
{
}

} // verus!
