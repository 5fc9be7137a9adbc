//! The vision model: its layers and its settings.
use candle_core::quantized::gguf_file::Content;
use vstd::prelude::*;

use crate::components::{Qwen3VLVisionBlock, Qwen3VLVisionPatchEmbed, Qwen3VLVisionPatchMerger};
use crate::config::Qwen3VLVisionConfig;
use crate::error::ModelError;
use crate::modules::{extend_modules, push_module, ModuleRequest, ModuleShape, ModuleView, ShapeView};
use crate::weights::{decimal_text, glue};

verus! {

/// Encodes pictures.
pub struct Qwen3VLVisionModel {
    pub spatial_merge_size: u32,
    /// The side of the square table of position embeddings.
    pub num_grid_per_side: u32,
    pub hidden_size: usize,
    pub head_dim: usize,
    pub num_blocks: usize,
    pub blocks: Vec<Qwen3VLVisionBlock>,
    /// The blocks whose output also goes to a deepstack merger.
    pub deepstack_visual_indexes: Vec<usize>,
    /// The merger behind the last block.
    pub merger: Qwen3VLVisionPatchMerger,
    /// The deepstack mergers, in the order of their blocks.
    pub deepstack_merger_list: Vec<Qwen3VLVisionPatchMerger>,
    /// Whether the weights are resident.
    pub is_weights_loaded: bool,
    /// Whether blocks are read one by one while a picture is encoded.
    pub stream_blocks: bool,
    /// The weight file that was last named as the source of reloads.
    pub mmproj_path: Option<String>,
    /// Whether that file is mapped into memory.
    pub mmproj_mapped: bool,
    /// The header of that file.
    pub mmproj_ct: Option<Content>,
}

/// The layers of the blocks below `n`.
pub open spec fn all_block_modules(cfg: Qwen3VLVisionConfig, n: nat) -> Seq<ModuleView>
    decreases n,
{
    if n == 0 {
        Seq::empty()
    } else {
        all_block_modules(cfg, (n - 1) as nat) + crate::components::block_modules(
            cfg,
            "blocks."@ + crate::weights::decimal((n - 1) as nat) + "."@,
        )
    }
}

/// The layers of the deepstack mergers below `n`.
pub open spec fn all_deepstack_modules(cfg: Qwen3VLVisionConfig, n: nat) -> Seq<ModuleView>
    decreases n,
{
    if n == 0 {
        Seq::empty()
    } else {
        all_deepstack_modules(cfg, (n - 1) as nat) + crate::components::merger_modules(
            cfg,
            "deepstack_merger_list."@ + crate::weights::decimal((n - 1) as nat) + "."@,
            true,
        )
    }
}

/// All layers of the vision model.
pub open spec fn vision_modules(cfg: Qwen3VLVisionConfig) -> Seq<ModuleView> {
    crate::components::patch_modules(cfg, "patch_embed."@) + seq![
        ModuleView {
            path: "pos_embed"@,
            shape: ShapeView::Embedding {
                entries: cfg.num_position_embeddings,
                width: cfg.hidden_size,
            },
        },
    ] + all_block_modules(cfg, cfg.depth as nat) + crate::components::merger_modules(
        cfg,
        "merger."@,
        false,
    ) + all_deepstack_modules(cfg, cfg.deepstack_visual_indexes@.len())
}

/// The sizes of the layers can be counted.
pub open spec fn sizes_fit(cfg: Qwen3VLVisionConfig) -> bool {
    &&& cfg.depth > 0 ==> cfg.hidden_size * 3 <= usize::MAX
    &&& crate::components::square_size(cfg.hidden_size, cfg.spatial_merge_size) <= usize::MAX
}

impl Qwen3VLVisionModel {
    /// The file, its mapping and its header come together.
    pub open spec fn wf(self) -> bool {
        &&& self.mmproj_mapped == (self.mmproj_ct is Some)
        &&& self.mmproj_mapped ==> self.mmproj_path is Some
    }

    /// Everything but the weights and their source.
    pub open spec fn same_build(self, other: Qwen3VLVisionModel) -> bool {
        &&& self.spatial_merge_size == other.spatial_merge_size
        &&& self.num_grid_per_side == other.num_grid_per_side
        &&& self.hidden_size == other.hidden_size
        &&& self.head_dim == other.head_dim
        &&& self.num_blocks == other.num_blocks
        &&& self.blocks == other.blocks
        &&& self.deepstack_visual_indexes == other.deepstack_visual_indexes
        &&& self.merger == other.merger
        &&& self.deepstack_merger_list == other.deepstack_merger_list
    }

    /// All blocks are there, and each has that many heads of the same width.
    pub open spec fn blocks_fit(self, num_heads: usize) -> bool {
        &&& self.blocks@.len() == self.num_blocks
        &&& forall|i: int|
            0 <= i < self.blocks@.len() ==> {
                &&& (#[trigger] self.blocks@[i]).attn.num_heads == num_heads
                &&& self.blocks@[i].attn.head_dim == self.head_dim
            }
    }

    /// There is a deepstack merger for each of its blocks. All mergers join whole squares;
    /// deepstack mergers norm after that, the merger behind the last block before it.
    pub open spec fn mergers_fit(self) -> bool {
        let square = crate::components::square_size(self.hidden_size, self.spatial_merge_size);
        &&& self.merger.hidden_size == square
        &&& !self.merger.use_postshuffle_norm
        &&& self.deepstack_merger_list@.len() == self.deepstack_visual_indexes@.len()
        &&& forall|k: int|
            0 <= k < self.deepstack_merger_list@.len() ==> {
                &&& (#[trigger] self.deepstack_merger_list@[k]).hidden_size == square
                &&& self.deepstack_merger_list@[k].use_postshuffle_norm
            }
    }

    /// The merger behind the last block, or the one at a place among the deepstack mergers.
    pub fn merger(&self, place: Option<usize>) -> (r: Result<Qwen3VLVisionPatchMerger, ModelError>)
        ensures
            match r {
                Ok(m) => match place {
                    None => m == self.merger,
                    Some(k) => k < self.deepstack_merger_list@.len() && m
                        == self.deepstack_merger_list@[k as int],
                },
                Err(e) => place matches Some(k) && k >= self.deepstack_merger_list@.len() && e
                    == ModelError::ShapeMismatch,
            },
            self.mergers_fit() && r is Ok ==> {
                &&& r->Ok_0.use_postshuffle_norm == (place is Some)
                &&& r->Ok_0.hidden_size == crate::components::square_size(
                    self.hidden_size,
                    self.spatial_merge_size,
                )
            },
    {
        match place {
            None => Ok(self.merger),
            Some(k) => if k < self.deepstack_merger_list.len() {
                Ok(self.deepstack_merger_list[k])
            } else {
                Err(ModelError::ShapeMismatch)
            },
        }
    }

    /// Whether the weights can be read again after they were dropped.
    pub open spec fn can_reload(self) -> bool {
        self.mmproj_ct is Some && self.mmproj_mapped
    }

    /// A new vision model and its layers. The side of the position table is the square root
    /// of its number of entries, which the caller has taken.
    pub fn new(config: &Qwen3VLVisionConfig, num_grid_per_side: u32) -> (r: Result<
        (Qwen3VLVisionModel, Vec<ModuleRequest>),
        ModelError,
    >)
        requires
            config.num_heads > 0,
        ensures
            match r {
                Ok((m, list)) => {
                    &&& sizes_fit(*config)
                    &&& m.wf()
                    &&& m.spatial_merge_size == config.spatial_merge_size
                    &&& m.num_grid_per_side == num_grid_per_side
                    &&& m.hidden_size == config.hidden_size
                    &&& m.head_dim == config.hidden_size / config.num_heads
                    &&& m.num_blocks == config.depth
                    &&& m.deepstack_visual_indexes@ == config.deepstack_visual_indexes@
                    &&& m.blocks_fit(config.num_heads)
                    &&& m.mergers_fit()
                    &&& m.is_weights_loaded
                    &&& !m.stream_blocks
                    &&& m.mmproj_path is None
                    &&& crate::modules::requests(list@) == vision_modules(*config)
                },
                Err(e) => !sizes_fit(*config) && e == ModelError::Overflow,
            },
    {
        let mut out: Vec<ModuleRequest> = Qwen3VLVisionPatchEmbed::new(config, "patch_embed.");
        push_module(
            &mut out,
            String::from_str("pos_embed"),
            ModuleShape::Embedding {
                entries: config.num_position_embeddings,
                width: config.hidden_size,
            },
        );
        let head_dim: usize = config.hidden_size / config.num_heads;
        let ghost before = crate::modules::requests(out@);
        let mut blocks: Vec<Qwen3VLVisionBlock> = Vec::new();
        let mut i: usize = 0;
        assert(before =~= before + all_block_modules(*config, 0));
        while i < config.depth
            invariant
                config.num_heads > 0,
                i <= config.depth,
                i > 0 ==> config.hidden_size * 3 <= usize::MAX,
                blocks@.len() == i,
                head_dim == config.hidden_size / config.num_heads,
                forall|j: int|
                    0 <= j < i ==> {
                        &&& (#[trigger] blocks@[j]).attn.num_heads == config.num_heads
                        &&& blocks@[j].attn.head_dim == head_dim
                    },
                crate::modules::requests(out@) == before + all_block_modules(*config, i as nat),
            decreases config.depth - i,
        {
            let place = glue("blocks.", decimal_text(i).as_str());
            let prefix = glue(place.as_str(), ".");
            match Qwen3VLVisionBlock::new(config, prefix.as_str()) {
                Ok((block, layers)) => {
                    extend_modules(&mut out, layers);
                    blocks.push(block);
                },
                Err(e) => return Err(e),
            }
            assert(crate::modules::requests(out@) =~= before + all_block_modules(
                *config,
                (i + 1) as nat,
            ));
            i = i + 1;
        }
        let merger = match Qwen3VLVisionPatchMerger::new(config, "merger.", false) {
            Ok((merger, layers)) => {
                extend_modules(&mut out, layers);
                merger
            },
            Err(e) => return Err(e),
        };
        let mut deepstack_merger_list: Vec<Qwen3VLVisionPatchMerger> = Vec::new();
        let ghost mergers = crate::modules::requests(out@);
        let mut indexes: Vec<usize> = Vec::new();
        let mut k: usize = 0;
        assert(mergers =~= mergers + all_deepstack_modules(*config, 0));
        while k < config.deepstack_visual_indexes.len()
            invariant
                crate::components::square_size(config.hidden_size, config.spatial_merge_size)
                    <= usize::MAX,
                k <= config.deepstack_visual_indexes@.len(),
                indexes@ == config.deepstack_visual_indexes@.take(k as int),
                deepstack_merger_list@.len() == k,
                forall|j: int|
                    0 <= j < k ==> {
                        &&& (#[trigger] deepstack_merger_list@[j]).hidden_size
                            == crate::components::square_size(
                            config.hidden_size,
                            config.spatial_merge_size,
                        )
                        &&& deepstack_merger_list@[j].use_postshuffle_norm
                    },
                crate::modules::requests(out@) == mergers + all_deepstack_modules(
                    *config,
                    k as nat,
                ),
            decreases config.deepstack_visual_indexes@.len() - k,
        {
            let place = glue("deepstack_merger_list.", decimal_text(k).as_str());
            let prefix = glue(place.as_str(), ".");
            match Qwen3VLVisionPatchMerger::new(config, prefix.as_str(), true) {
                Ok((deep, layers)) => {
                    extend_modules(&mut out, layers);
                    deepstack_merger_list.push(deep);
                },
                Err(e) => return Err(e),
            }
            indexes.push(config.deepstack_visual_indexes[k]);
            assert(indexes@ =~= config.deepstack_visual_indexes@.take(k + 1));
            assert(crate::modules::requests(out@) =~= mergers + all_deepstack_modules(
                *config,
                (k + 1) as nat,
            ));
            k = k + 1;
        }
        assert(indexes@ =~= config.deepstack_visual_indexes@);
        assert(crate::modules::requests(out@) =~= vision_modules(*config));
        Ok(
            (
                Qwen3VLVisionModel {
                    spatial_merge_size: config.spatial_merge_size,
                    num_grid_per_side,
                    hidden_size: config.hidden_size,
                    head_dim,
                    num_blocks: config.depth,
                    blocks,
                    deepstack_visual_indexes: indexes,
                    merger,
                    deepstack_merger_list,
                    is_weights_loaded: true,
                    stream_blocks: false,
                    mmproj_path: None,
                    mmproj_mapped: false,
                    mmproj_ct: None,
                },
                out,
            ),
        )
    }
}

proof fn lemma_layer_counts(cfg: Qwen3VLVisionConfig, n: nat)
    ensures
        all_block_modules(cfg, n).len() == 6 * n,
        all_deepstack_modules(cfg, n).len() == 3 * n,
    decreases n,
{
    if n > 0 {
        lemma_layer_counts(cfg, (n - 1) as nat);
    }
}

proof fn lemma_block_layer(cfg: Qwen3VLVisionConfig, n: nat, i: int, j: int)
    requires
        0 <= i < n,
        0 <= j < 6,
    ensures
        all_block_modules(cfg, n)[6 * i + j] == crate::components::block_modules(
            cfg,
            "blocks."@ + crate::weights::decimal(i as nat) + "."@,
        )[j],
    decreases n,
{
    lemma_layer_counts(cfg, (n - 1) as nat);
    lemma_layer_counts(cfg, n);
    if i < n - 1 {
        lemma_block_layer(cfg, (n - 1) as nat, i, j);
    }
}

proof fn lemma_deepstack_layer(cfg: Qwen3VLVisionConfig, n: nat, k: int, j: int)
    requires
        0 <= k < n,
        0 <= j < 3,
    ensures
        all_deepstack_modules(cfg, n)[3 * k + j] == crate::components::merger_modules(
            cfg,
            "deepstack_merger_list."@ + crate::weights::decimal(k as nat) + "."@,
            true,
        )[j],
    decreases n,
{
    lemma_layer_counts(cfg, (n - 1) as nat);
    lemma_layer_counts(cfg, n);
    if k < n - 1 {
        lemma_deepstack_layer(cfg, (n - 1) as nat, k, j);
    }
}

/// The vision model has a patch embedding, a position table, as many blocks as its depth says,
/// a merger that norms patch by patch, and for each deepstack block a merger that norms whole
/// squares, each under its number.
pub proof fn the_vision_model_has_all_its_layers(cfg: Qwen3VLVisionConfig, i: int, k: int, j: int)
    requires
        0 <= i < cfg.depth,
        0 <= k < cfg.deepstack_visual_indexes@.len(),
        0 <= j < 6,
    ensures
        ({
            let m = vision_modules(cfg);
            let n = 6 * cfg.depth;
            &&& m.len() == 3 + n + 3 + 3 * cfg.deepstack_visual_indexes@.len()
            &&& j < 2 ==> m[j] == crate::components::patch_modules(cfg, "patch_embed."@)[j]
            &&& m[2].path == "pos_embed"@
            &&& m[2].shape == (ShapeView::Embedding {
                entries: cfg.num_position_embeddings,
                width: cfg.hidden_size,
            })
            &&& m[3 + 6 * i + j] == crate::components::block_modules(
                cfg,
                "blocks."@ + crate::weights::decimal(i as nat) + "."@,
            )[j]
            &&& j < 3 ==> m[3 + n + j] == crate::components::merger_modules(
                cfg,
                "merger."@,
                false,
            )[j]
            &&& j < 3 ==> m[6 + n + 3 * k + j] == crate::components::merger_modules(
                cfg,
                "deepstack_merger_list."@ + crate::weights::decimal(k as nat) + "."@,
                true,
            )[j]
        }),
{
    let deep = cfg.deepstack_visual_indexes@.len();
    lemma_layer_counts(cfg, cfg.depth as nat);
    lemma_layer_counts(cfg, deep);
    lemma_block_layer(cfg, cfg.depth as nat, i, j);
    if j < 3 {
        lemma_deepstack_layer(cfg, deep, k, j);
    }
}

/// A vision model can be built just where its layers can be counted: three times the features
/// of a patch, where there is a block, and the features of a square of patches.
pub proof fn countable_models_are_built(cfg: Qwen3VLVisionConfig)
    ensures
        sizes_fit(cfg) <==> (cfg.depth == 0 || cfg.hidden_size + cfg.hidden_size + cfg.hidden_size
            <= usize::MAX) && cfg.hidden_size * (cfg.spatial_merge_size * cfg.spatial_merge_size)
            <= usize::MAX,
{
}

} // verus!
