//! The layers of the vision model: their sizes, and where their weights come from.
use vstd::prelude::*;

use crate::attention::{longest_chunk, plan_tiles, AttentionTile};
use crate::config::Qwen3VLVisionConfig;
use crate::error::ModelError;
use crate::modules::{extend_modules, push_module, ModuleRequest, ModuleShape, ModuleView, ShapeView};
use crate::weights::{extend_steps, glue, push_step, LoadStep, Slot};

verus! {

/// Embeds the pixels of a patch.
#[derive(Clone, Copy, Debug)]
pub struct Qwen3VLVisionPatchEmbed;

/// The kernel over channels, frames and a square of pixels, and its bias.
pub open spec fn patch_modules(cfg: Qwen3VLVisionConfig, prefix: Seq<char>) -> Seq<ModuleView> {
    seq![
        ModuleView {
            path: prefix + "proj.weight"@,
            shape: ShapeView::Tensor(
                seq![
                    cfg.hidden_size,
                    cfg.in_channels,
                    cfg.temporal_patch_size,
                    cfg.patch_size,
                    cfg.patch_size,
                ],
            ),
        },
        ModuleView {
            path: prefix + "proj.bias"@,
            shape: ShapeView::Tensor(seq![cfg.hidden_size]),
        },
    ]
}

impl Qwen3VLVisionPatchEmbed {
    /// The tensors of a patch embedding under `prefix`.
    pub fn new(cfg: &Qwen3VLVisionConfig, prefix: &str) -> (r: Vec<ModuleRequest>)
        ensures
            crate::modules::requests(r@) == patch_modules(*cfg, prefix@),
    {
        let mut out: Vec<ModuleRequest> = Vec::new();
        let mut dims: Vec<usize> = Vec::new();
        dims.push(cfg.hidden_size);
        dims.push(cfg.in_channels);
        dims.push(cfg.temporal_patch_size);
        dims.push(cfg.patch_size);
        dims.push(cfg.patch_size);
        let mut bias: Vec<usize> = Vec::new();
        bias.push(cfg.hidden_size);
        assert(dims@ =~= seq![
            cfg.hidden_size,
            cfg.in_channels,
            cfg.temporal_patch_size,
            cfg.patch_size,
            cfg.patch_size,
        ]);
        assert(bias@ =~= seq![cfg.hidden_size]);
        push_module(&mut out, glue(prefix, "proj.weight"), ModuleShape::Tensor(dims));
        push_module(&mut out, glue(prefix, "proj.bias"), ModuleShape::Tensor(bias));
        assert(crate::modules::requests(out@) =~= patch_modules(*cfg, prefix@));
        out
    }

    /// The stored tensors of a new patch embedding.
    pub fn new_from_gguf() -> (r: Vec<LoadStep>)
        ensures
            crate::weights::views(r@) == crate::weights::patch_steps(),
    {
        Self::load_weights_inplace()
    }

    /// The stored tensors that bring a cleared patch embedding back.
    pub fn load_weights_inplace() -> (r: Vec<LoadStep>)
        ensures
            crate::weights::views(r@) == crate::weights::patch_steps(),
    {
        let mut out: Vec<LoadStep> = Vec::new();
        push_step(&mut out, Slot::PatchFirst, String::from_str("v.patch_embd.weight"));
        push_step(&mut out, Slot::PatchSecond, String::from_str("v.patch_embd.weight.1"));
        push_step(&mut out, Slot::PatchBias, String::from_str("v.patch_embd.bias"));
        assert(crate::weights::views(out@) =~= crate::weights::patch_steps());
        out
    }
}

/// Merges each square of patches into one token.
#[derive(Clone, Copy, Debug, PartialEq, Eq, Structural)]
pub struct Qwen3VLVisionPatchMerger {
    /// The features of a whole square.
    pub hidden_size: usize,
    /// Whether the features are normalised after they were brought together.
    pub use_postshuffle_norm: bool,
}

/// The features of a square of `merge` by `merge` patches.
pub open spec fn square_size(hidden: usize, merge: u32) -> nat {
    (hidden as nat) * ((merge as nat) * (merge as nat))
}

/// What a merger does to its input: the width over which it normalises, and the rows that
/// come out.
#[derive(Clone, Copy, Debug, PartialEq, Eq, Structural)]
pub struct MergedShape {
    pub norm_width: usize,
    pub rows: usize,
}

/// The layers of a merger.
pub open spec fn merger_modules(
    cfg: Qwen3VLVisionConfig,
    prefix: Seq<char>,
    postshuffle: bool,
) -> Seq<ModuleView> {
    let size = square_size(cfg.hidden_size, cfg.spatial_merge_size) as usize;
    seq![
        ModuleView {
            path: prefix + "norm"@,
            shape: ShapeView::LayerNorm(
                if postshuffle {
                    size
                } else {
                    cfg.hidden_size
                },
            ),
        },
        ModuleView {
            path: prefix + "linear_fc1"@,
            shape: ShapeView::Linear { inputs: size, outputs: size },
        },
        ModuleView {
            path: prefix + "linear_fc2"@,
            shape: ShapeView::Linear { inputs: size, outputs: cfg.out_hidden_size },
        },
    ]
}

/// The features of a square, unless there are too many to count.
fn merged_size(hidden: usize, merge: u32) -> (r: Option<usize>)
    ensures
        match r {
            Some(n) => n == square_size(hidden, merge),
            None => square_size(hidden, merge) > usize::MAX,
        },
{
    let m: u64 = merge as u64;
    proof {
        assert((m as int) * (m as int) <= 0xffff_ffff * 0xffff_ffff && 0 <= (m as int) * (m as int))
            by (nonlinear_arith)
            requires
                0 <= m <= 0xffff_ffff,
        ;
        let s = (m as int) * (m as int);
        assert((hidden as int) * s <= 0xffff_ffff_ffff_ffff * (0xffff_ffff * 0xffff_ffff))
            by (nonlinear_arith)
            requires
                0 <= hidden <= 0xffff_ffff_ffff_ffff,
                0 <= s <= 0xffff_ffff * 0xffff_ffff,
        ;
    }
    let n: u128 = hidden as u128 * (m * m) as u128;
    if n > usize::MAX as u128 {
        None
    } else {
        Some(n as usize)
    }
}

impl Qwen3VLVisionPatchMerger {
    /// A merger under `prefix` and its layers.
    pub fn new(config: &Qwen3VLVisionConfig, prefix: &str, use_postshuffle_norm: bool) -> (r:
        Result<(Qwen3VLVisionPatchMerger, Vec<ModuleRequest>), ModelError>)
        ensures
            match r {
                Ok((m, list)) => {
                    &&& m.hidden_size == square_size(config.hidden_size, config.spatial_merge_size)
                    &&& m.use_postshuffle_norm == use_postshuffle_norm
                    &&& crate::modules::requests(list@) == merger_modules(
                        *config,
                        prefix@,
                        use_postshuffle_norm,
                    )
                },
                Err(e) => e == ModelError::Overflow && square_size(
                    config.hidden_size,
                    config.spatial_merge_size,
                ) > usize::MAX,
            },
    {
        let hidden_size: usize = match merged_size(config.hidden_size, config.spatial_merge_size) {
            Some(n) => n,
            None => return Err(ModelError::Overflow),
        };
        let norm_size: usize = if use_postshuffle_norm {
            hidden_size
        } else {
            config.hidden_size
        };
        let mut out: Vec<ModuleRequest> = Vec::new();
        push_module(&mut out, glue(prefix, "norm"), ModuleShape::LayerNorm(norm_size));
        push_module(
            &mut out,
            glue(prefix, "linear_fc1"),
            ModuleShape::Linear { inputs: hidden_size, outputs: hidden_size },
        );
        push_module(
            &mut out,
            glue(prefix, "linear_fc2"),
            ModuleShape::Linear { inputs: hidden_size, outputs: config.out_hidden_size },
        );
        assert(crate::modules::requests(out@) =~= merger_modules(
            *config,
            prefix@,
            use_postshuffle_norm,
        ));
        Ok((Qwen3VLVisionPatchMerger { hidden_size, use_postshuffle_norm }, out))
    }

    /// A merger whose weights are stored under the given names; `deepstack` is its place
    /// among the deepstack mergers, if it is one.
    pub fn new_from_gguf(
        use_postshuffle_norm: bool,
        hidden_size: usize,
        spatial_merge_size: u32,
        deepstack: Option<usize>,
        norm_prefix: &str,
        linear1_prefix: &str,
        linear2_prefix: &str,
    ) -> (r: Result<(Qwen3VLVisionPatchMerger, Vec<LoadStep>), ModelError>)
        ensures
            match r {
                Ok((m, steps)) => {
                    &&& m.hidden_size == square_size(hidden_size, spatial_merge_size)
                    &&& m.use_postshuffle_norm == use_postshuffle_norm
                    &&& crate::weights::views(steps@) == crate::weights::merger_steps(
                        deepstack,
                        norm_prefix@,
                        linear1_prefix@,
                        linear2_prefix@,
                    )
                },
                Err(e) => e == ModelError::Overflow && square_size(hidden_size, spatial_merge_size)
                    > usize::MAX,
            },
    {
        match merged_size(hidden_size, spatial_merge_size) {
            Some(n) => Ok(
                (
                    Qwen3VLVisionPatchMerger { hidden_size: n, use_postshuffle_norm },
                    Self::load_weights_inplace(
                        deepstack,
                        norm_prefix,
                        linear1_prefix,
                        linear2_prefix,
                    ),
                ),
            ),
            None => Err(ModelError::Overflow),
        }
    }

    /// The stored tensors that bring a cleared merger back.
    pub fn load_weights_inplace(
        deepstack: Option<usize>,
        norm_prefix: &str,
        linear1_prefix: &str,
        linear2_prefix: &str,
    ) -> (r: Vec<LoadStep>)
        ensures
            crate::weights::views(r@) == crate::weights::merger_steps(
                deepstack,
                norm_prefix@,
                linear1_prefix@,
                linear2_prefix@,
            ),
    {
        let (norm, fc1, fc2) = match deepstack {
            None => (Slot::MergerNorm, Slot::MergerFc1, Slot::MergerFc2),
            Some(k) => (Slot::DeepstackNorm(k), Slot::DeepstackFc1(k), Slot::DeepstackFc2(k)),
        };
        let mut out: Vec<LoadStep> = Vec::new();
        push_step(&mut out, norm, String::from_str(norm_prefix));
        push_step(&mut out, fc1, String::from_str(linear1_prefix));
        push_step(&mut out, fc2, String::from_str(linear2_prefix));
        assert(crate::weights::views(out@) =~= crate::weights::merger_steps(
            deepstack,
            norm_prefix@,
            linear1_prefix@,
            linear2_prefix@,
        ));
        out
    }

    /// The shapes of a pass over `rows` rows of `width` features: the features are regrouped
    /// into rows of `hidden_size`, before the norm or after it. Refuses features that do not
    /// fill whole rows.
    pub fn forward(&self, rows: usize, width: usize) -> (r: Result<MergedShape, ModelError>)
        requires
            rows * width <= usize::MAX,
        ensures
            match r {
                Ok(s) => {
                    &&& self.hidden_size > 0
                    &&& s.rows * self.hidden_size == rows * width
                    &&& s.norm_width == if self.use_postshuffle_norm {
                        self.hidden_size
                    } else {
                        width
                    }
                },
                Err(e) => e == ModelError::ShapeMismatch && (self.hidden_size == 0 || (rows * width)
                    % self.hidden_size as int != 0),
            },
    {
        if self.hidden_size == 0 {
            return Err(ModelError::ShapeMismatch);
        }
        let elements: usize = rows * width;
        if elements % self.hidden_size != 0 {
            return Err(ModelError::ShapeMismatch);
        }
        let out: usize = elements / self.hidden_size;
        proof {
            vstd::arithmetic::div_mod::lemma_fundamental_div_mod(
                elements as int,
                self.hidden_size as int,
            );
            assert(out * self.hidden_size == self.hidden_size * out) by (nonlinear_arith);
        }
        let norm_width: usize = if self.use_postshuffle_norm {
            self.hidden_size
        } else {
            width
        };
        Ok(MergedShape { norm_width, rows: out })
    }
}

/// Attention over the patches of a frame.
#[derive(Clone, Copy, Debug, PartialEq, Eq, Structural)]
pub struct Qwen3VLVisionAttention {
    pub num_heads: usize,
    pub head_dim: usize,
}

/// The layers of an attention block.
pub open spec fn attention_modules(hidden: usize, prefix: Seq<char>) -> Seq<ModuleView> {
    seq![
        ModuleView {
            path: prefix + "qkv"@,
            shape: ShapeView::Linear { inputs: hidden, outputs: (hidden * 3) as usize },
        },
        ModuleView {
            path: prefix + "proj"@,
            shape: ShapeView::Linear { inputs: hidden, outputs: hidden },
        },
    ]
}

impl Qwen3VLVisionAttention {
    /// Attention under `prefix` and its layers.
    pub fn new(config: &Qwen3VLVisionConfig, prefix: &str) -> (r: Result<
        (Qwen3VLVisionAttention, Vec<ModuleRequest>),
        ModelError,
    >)
        requires
            config.num_heads > 0,
        ensures
            match r {
                Ok((a, list)) => {
                    &&& a.num_heads == config.num_heads
                    &&& a.head_dim == config.hidden_size / config.num_heads
                    &&& config.hidden_size * 3 <= usize::MAX
                    &&& crate::modules::requests(list@) == attention_modules(
                        config.hidden_size,
                        prefix@,
                    )
                },
                Err(e) => e == ModelError::Overflow && config.hidden_size * 3 > usize::MAX,
            },
    {
        let hidden: usize = config.hidden_size;
        let head_dim: usize = hidden / config.num_heads;
        if hidden > usize::MAX / 3 {
            return Err(ModelError::Overflow);
        }
        let mut out: Vec<ModuleRequest> = Vec::new();
        push_module(
            &mut out,
            glue(prefix, "qkv"),
            ModuleShape::Linear { inputs: hidden, outputs: hidden * 3 },
        );
        push_module(
            &mut out,
            glue(prefix, "proj"),
            ModuleShape::Linear { inputs: hidden, outputs: hidden },
        );
        assert(crate::modules::requests(out@) =~= attention_modules(hidden, prefix@));
        Ok((Qwen3VLVisionAttention { num_heads: config.num_heads, head_dim }, out))
    }

    /// The attention of block `i`, whose weights are stored under `prefix`.
    pub fn new_from_gguf(num_heads: usize, hidden_size: usize, i: usize, prefix: &str) -> (r: (
        Qwen3VLVisionAttention,
        Vec<LoadStep>,
    ))
        requires
            num_heads > 0,
        ensures
            r.0.num_heads == num_heads,
            r.0.head_dim == hidden_size / num_heads,
            crate::weights::views(r.1@) == crate::weights::attention_steps(i, prefix@),
    {
        (
            Qwen3VLVisionAttention { num_heads, head_dim: hidden_size / num_heads },
            Self::load_weights_inplace(i, prefix),
        )
    }

    /// The stored tensors that bring the cleared attention of block `i` back.
    pub fn load_weights_inplace(i: usize, prefix: &str) -> (r: Vec<LoadStep>)
        ensures
            crate::weights::views(r@) == crate::weights::attention_steps(i, prefix@),
    {
        let mut out: Vec<LoadStep> = Vec::new();
        push_step(&mut out, Slot::Qkv(i), glue(prefix, ".attn_qkv"));
        push_step(&mut out, Slot::Proj(i), glue(prefix, ".attn_out"));
        assert(crate::weights::views(out@) =~= crate::weights::attention_steps(i, prefix@));
        out
    }

    /// How many keys the largest chunk has, which bounds the score matrix of a tile.
    pub fn max_keys(chunks: &Vec<usize>, seq_length: usize) -> (r: usize)
        ensures
            r == crate::attention::longest(chunks@, seq_length),
    {
        longest_chunk(chunks, seq_length)
    }

    /// The tiles of a pass over `seq_length` rows in the given chunks, with at most `tile`
    /// query rows at a time; zero means no limit. Refuses chunks that do not make up the rows.
    pub fn forward(&self, seq_length: usize, chunks: &Vec<usize>, tile: usize) -> (r: Result<
        Vec<AttentionTile>,
        ModelError,
    >)
        ensures
            match r {
                Ok(v) => crate::attention::chunks_fill(chunks@, seq_length) && v@
                    == crate::attention::tiles(chunks@, tile as nat),
                Err(e) => !crate::attention::chunks_fill(chunks@, seq_length) && e
                    == ModelError::ShapeMismatch,
            },
    {
        plan_tiles(chunks, seq_length, tile)
    }
}

/// Attention and a feed-forward layer, each after a norm.
#[derive(Clone, Copy, Debug, PartialEq, Eq, Structural)]
pub struct Qwen3VLVisionBlock {
    pub attn: Qwen3VLVisionAttention,
}

/// The layers of a block.
pub open spec fn block_modules(cfg: Qwen3VLVisionConfig, prefix: Seq<char>) -> Seq<ModuleView> {
    seq![
        ModuleView { path: prefix + "norm1"@, shape: ShapeView::LayerNorm(cfg.hidden_size) },
        ModuleView { path: prefix + "norm2"@, shape: ShapeView::LayerNorm(cfg.hidden_size) },
    ] + attention_modules(cfg.hidden_size, prefix + "attn."@) + seq![
        ModuleView {
            path: prefix + "mlp.linear_fc1"@,
            shape: ShapeView::Linear { inputs: cfg.hidden_size, outputs: cfg.intermediate_size },
        },
        ModuleView {
            path: prefix + "mlp.linear_fc2"@,
            shape: ShapeView::Linear { inputs: cfg.intermediate_size, outputs: cfg.hidden_size },
        },
    ]
}

impl Qwen3VLVisionBlock {
    /// A block under `prefix` and its layers.
    pub fn new(config: &Qwen3VLVisionConfig, prefix: &str) -> (r: Result<
        (Qwen3VLVisionBlock, Vec<ModuleRequest>),
        ModelError,
    >)
        requires
            config.num_heads > 0,
        ensures
            match r {
                Ok((b, list)) => {
                    &&& b.attn.num_heads == config.num_heads
                    &&& b.attn.head_dim == config.hidden_size / config.num_heads
                    &&& config.hidden_size * 3 <= usize::MAX
                    &&& crate::modules::requests(list@) == block_modules(*config, prefix@)
                },
                Err(e) => e == ModelError::Overflow && config.hidden_size * 3 > usize::MAX,
            },
    {
        let mut out: Vec<ModuleRequest> = Vec::new();
        let hidden: usize = config.hidden_size;
        push_module(&mut out, glue(prefix, "norm1"), ModuleShape::LayerNorm(hidden));
        push_module(&mut out, glue(prefix, "norm2"), ModuleShape::LayerNorm(hidden));
        let inner = glue(prefix, "attn.");
        let (attn, layers) = match Qwen3VLVisionAttention::new(config, inner.as_str()) {
            Ok(x) => x,
            Err(e) => return Err(e),
        };
        extend_modules(&mut out, layers);
        push_module(
            &mut out,
            glue(prefix, "mlp.linear_fc1"),
            ModuleShape::Linear { inputs: hidden, outputs: config.intermediate_size },
        );
        push_module(
            &mut out,
            glue(prefix, "mlp.linear_fc2"),
            ModuleShape::Linear { inputs: config.intermediate_size, outputs: hidden },
        );
        assert(crate::modules::requests(out@) =~= block_modules(*config, prefix@));
        Ok((Qwen3VLVisionBlock { attn }, out))
    }

    /// Block `i`, whose weights are stored under `prefix`.
    pub fn new_from_gguf(num_heads: usize, hidden_size: usize, i: usize, prefix: &str) -> (r: (
        Qwen3VLVisionBlock,
        Vec<LoadStep>,
    ))
        requires
            num_heads > 0,
        ensures
            r.0.attn.num_heads == num_heads,
            r.0.attn.head_dim == hidden_size / num_heads,
            crate::weights::views(r.1@) == crate::weights::block_steps(i, prefix@),
    {
        let attn = Qwen3VLVisionAttention { num_heads, head_dim: hidden_size / num_heads };
        (Qwen3VLVisionBlock { attn }, Self::load_weights_inplace(i, prefix))
    }

    /// The stored tensors that bring the cleared block `i` back.
    pub fn load_weights_inplace(i: usize, prefix: &str) -> (r: Vec<LoadStep>)
        ensures
            crate::weights::views(r@) == crate::weights::block_steps(i, prefix@),
    {
        let mut out: Vec<LoadStep> = Vec::new();
        push_step(&mut out, Slot::Norm1(i), glue(prefix, ".ln1"));
        push_step(&mut out, Slot::Norm2(i), glue(prefix, ".ln2"));
        extend_steps(&mut out, Qwen3VLVisionAttention::load_weights_inplace(i, prefix));
        push_step(&mut out, Slot::FfnUp(i), glue(prefix, ".ffn_up"));
        push_step(&mut out, Slot::FfnDown(i), glue(prefix, ".ffn_down"));
        assert(crate::weights::views(out@) =~= crate::weights::block_steps(i, prefix@));
        out
    }
}

/// Merging loses no feature: a picture that fills whole squares has as many numbers behind a
/// merger as before it.
pub proof fn merging_keeps_every_feature(hidden: usize, merge: u32, down: nat, across: nat)
    ensures
        (down * across) * square_size(hidden, merge) == ((down * merge) * (across * merge)) * hidden,
{
    let h = hidden as int;
    let m = merge as int;
    let a = down as int;
    let b = across as int;
    assert((a * b) * (h * (m * m)) == ((a * m) * (b * m)) * h) by (nonlinear_arith);
}

/// The layers of a block: norms over its features, attention that makes queries, keys and
/// values at once, and a feed-forward layer that widens and narrows again.
pub proof fn blocks_keep_their_width(cfg: Qwen3VLVisionConfig, prefix: Seq<char>)
    requires
        cfg.hidden_size * 3 <= usize::MAX,
    ensures
        ({
            let m = block_modules(cfg, prefix);
            let h = cfg.hidden_size;
            &&& m.len() == 6
            &&& m[0] == (ModuleView { path: prefix + "norm1"@, shape: ShapeView::LayerNorm(h) })
            &&& m[1] == (ModuleView { path: prefix + "norm2"@, shape: ShapeView::LayerNorm(h) })
            &&& m[2].path == prefix + "attn."@ + "qkv"@
            &&& m[2].shape matches ShapeView::Linear { inputs, outputs } && inputs == h && outputs
                == h + h + h
            &&& m[3].path == prefix + "attn."@ + "proj"@
            &&& m[3].shape == (ShapeView::Linear { inputs: h, outputs: h })
            &&& m[4].path == prefix + "mlp.linear_fc1"@
            &&& m[4].shape == (ShapeView::Linear { inputs: h, outputs: cfg.intermediate_size })
            &&& m[5].path == prefix + "mlp.linear_fc2"@
            &&& m[5].shape == (ShapeView::Linear { inputs: cfg.intermediate_size, outputs: h })
        }),
{
}

/// The layers of a merger fit one another: a square of patches goes in, as a whole or, for the
/// norm before it is brought together, patch by patch; a token of the language model comes out.
pub proof fn merger_layers_fit(cfg: Qwen3VLVisionConfig, prefix: Seq<char>, postshuffle: bool)
    requires
        cfg.hidden_size * (cfg.spatial_merge_size * cfg.spatial_merge_size) <= usize::MAX,
    ensures
        ({
            let m = merger_modules(cfg, prefix, postshuffle);
            let n = cfg.hidden_size * (cfg.spatial_merge_size * cfg.spatial_merge_size);
            &&& m.len() == 3
            &&& m[0].path == prefix + "norm"@
            &&& m[0].shape matches ShapeView::LayerNorm(w) && w == if postshuffle {
                n
            } else {
                cfg.hidden_size as int
            }
            &&& m[1].path == prefix + "linear_fc1"@
            &&& m[1].shape matches ShapeView::Linear { inputs, outputs } && inputs == n && outputs
                == n
            &&& m[2].path == prefix + "linear_fc2"@
            &&& m[2].shape matches ShapeView::Linear { inputs, outputs } && inputs == n && outputs
                == cfg.out_hidden_size
        }),
{
    let n = cfg.hidden_size * (cfg.spatial_merge_size * cfg.spatial_merge_size);
    assert(n >= 0) by (nonlinear_arith)
        requires
            n == cfg.hidden_size * (cfg.spatial_merge_size * cfg.spatial_merge_size),
            cfg.hidden_size >= 0,
            cfg.spatial_merge_size >= 0,
    ;
}

/// The kernel of the patch embedding takes in a square of pixels over all channels and frames
/// and gives the features of a patch.
pub proof fn patches_become_features(cfg: Qwen3VLVisionConfig, prefix: Seq<char>)
    ensures
        ({
            let m = patch_modules(cfg, prefix);
            &&& m.len() == 2
            &&& m[0].path == prefix + "proj.weight"@
            &&& m[0].shape == ShapeView::Tensor(
                seq![
                    cfg.hidden_size,
                    cfg.in_channels,
                    cfg.temporal_patch_size,
                    cfg.patch_size,
                    cfg.patch_size,
                ],
            )
            &&& m[1].path == prefix + "proj.bias"@
            &&& m[1].shape == ShapeView::Tensor(seq![cfg.hidden_size])
        }),
{
}

} // verus!
