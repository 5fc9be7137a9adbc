//! The language model: its layers, its caches and its passes.
use candle_core::Tensor;
use vstd::prelude::*;

use crate::config::Qwen3VLTextConfig;
use crate::error::ModelError;
use crate::modules::{push_module, ModuleRequest, ModuleShape, ModuleView, ShapeView};
use crate::positions::text_positions;
use crate::tensor::{bring_beside, read_dims};
use crate::weights::{decimal_text, glue};

verus! {

/// Reads and writes text.
pub struct Qwen3VLTextModel {
    pub head_dim: usize,
    pub mrope_section: Vec<usize>,
    /// The cached keys and values of each layer.
    pub layers: Vec<Option<(Tensor, Tensor)>>,
}

/// The decoder layers below `n`.
pub open spec fn decoder_modules(n: nat) -> Seq<ModuleView> {
    Seq::new(
        n,
        |i: int|
            ModuleView {
                path: "layers."@ + crate::weights::decimal(i as nat),
                shape: ShapeView::DecoderLayer,
            },
    )
}

/// All layers of the language model.
pub open spec fn text_modules(cfg: Qwen3VLTextConfig) -> Seq<ModuleView> {
    seq![
        ModuleView {
            path: "embed_tokens"@,
            shape: ShapeView::Embedding { entries: cfg.vocab_size, width: cfg.hidden_size },
        },
    ] + decoder_modules(cfg.num_hidden_layers as nat) + seq![
        ModuleView { path: "norm"@, shape: ShapeView::RmsNorm(cfg.hidden_size) },
    ]
}

/// What the language model does with a batch.
pub struct TextPlan {
    /// The positions of the tokens, where the caller gave none.
    pub positions: Option<Tensor>,
    /// Whether tokens are kept from seeing later ones.
    pub causal_mask: bool,
    /// How many layers, from the first on, add deep visual features.
    pub injected_layers: usize,
}

/// How many layers add deep visual features.
pub open spec fn injected(layers: nat, deepstack: Option<usize>) -> nat {
    match deepstack {
        None => 0,
        Some(n) => if n < layers {
            n as nat
        } else {
            layers
        },
    }
}

fn copy_cache(c: &Option<(Tensor, Tensor)>) -> (r: Option<(Tensor, Tensor)>)
    ensures
        r == *c,
{
    match c {
        None => None,
        Some(pair) => Some((pair.0.clone(), pair.1.clone())),
    }
}

impl Qwen3VLTextModel {
    /// A new language model with nothing cached, and its layers.
    pub fn new(config: &Qwen3VLTextConfig) -> (r: (Qwen3VLTextModel, Vec<ModuleRequest>))
        ensures
            r.0.head_dim == config.head_dim,
            r.0.mrope_section@ == config.mrope_section@,
            r.0.layers@ == Seq::new(
                config.num_hidden_layers as nat,
                |i: int| None::<(Tensor, Tensor)>,
            ),
            crate::modules::requests(r.1@) == text_modules(*config),
    {
        let mut out: Vec<ModuleRequest> = Vec::new();
        push_module(
            &mut out,
            String::from_str("embed_tokens"),
            ModuleShape::Embedding { entries: config.vocab_size, width: config.hidden_size },
        );
        let ghost head = crate::modules::requests(out@);
        let mut layers: Vec<Option<(Tensor, Tensor)>> = Vec::new();
        let mut i: usize = 0;
        assert(head =~= head + decoder_modules(0));
        while i < config.num_hidden_layers
            invariant
                i <= config.num_hidden_layers,
                layers@ == Seq::new(i as nat, |k: int| None::<(Tensor, Tensor)>),
                crate::modules::requests(out@) == head + decoder_modules(i as nat),
            decreases config.num_hidden_layers - i,
        {
            push_module(
                &mut out,
                glue("layers.", decimal_text(i).as_str()),
                ModuleShape::DecoderLayer,
            );
            layers.push(None);
            assert(layers@ =~= Seq::new((i + 1) as nat, |k: int| None::<(Tensor, Tensor)>));
            assert(crate::modules::requests(out@) =~= head + decoder_modules((i + 1) as nat));
            i = i + 1;
        }
        push_module(
            &mut out,
            String::from_str("norm"),
            ModuleShape::RmsNorm(config.hidden_size),
        );
        let mut sections: Vec<usize> = Vec::new();
        let mut k: usize = 0;
        while k < config.mrope_section.len()
            invariant
                k <= config.mrope_section@.len(),
                sections@ == config.mrope_section@.take(k as int),
            decreases config.mrope_section@.len() - k,
        {
            sections.push(config.mrope_section[k]);
            assert(sections@ =~= config.mrope_section@.take(k + 1));
            k = k + 1;
        }
        assert(sections@ =~= config.mrope_section@);
        assert(crate::modules::requests(out@) =~= text_modules(*config));
        (
            Qwen3VLTextModel { head_dim: config.head_dim, mrope_section: sections, layers },
            out,
        )
    }

    /// Plans a pass over embedded tokens, `seqlen_offset` of which are cached already. Where
    /// no positions are given the tokens are numbered from there on. `deepstack` is the
    /// number of deep visual features, if there are any; they come with marks.
    pub fn forward(
        &self,
        inputs_embeds: &Tensor,
        seqlen_offset: usize,
        position_ids: Option<&Tensor>,
        visual_pos_masks: Option<&Tensor>,
        deepstack: Option<usize>,
    ) -> (r: Result<TextPlan, ModelError>)
        requires
            injected(self.layers@.len(), deepstack) > 0 ==> visual_pos_masks is Some,
        ensures
            ({
                let dims = crate::tensor::tensor_dims(*inputs_embeds);
                match r {
                    Ok(p) => {
                        &&& dims.len() == 3
                        &&& p.causal_mask == (dims[1] > 1)
                        &&& p.injected_layers == injected(self.layers@.len(), deepstack)
                        &&& match p.positions {
                            None => position_ids is Some,
                            Some(t) => {
                                &&& position_ids is None
                                &&& dims[1] + seqlen_offset <= u32::MAX
                                &&& crate::positions::holds_positions(
                                    t,
                                    Seq::new(
                                        dims[0] as nat,
                                        |i: int|
                                            crate::rope::text_run(
                                                seqlen_offset as nat,
                                                dims[1] as nat,
                                            ),
                                    ),
                                    dims[1],
                                )
                                &&& crate::tensor::tensor_place(t) == crate::tensor::tensor_place(
                                    *inputs_embeds,
                                )
                            },
                        }
                    },
                    Err(e) => if dims.len() != 3 {
                        e == ModelError::ShapeMismatch
                    } else {
                        &&& position_ids is None
                        &&& {
                            ||| e == ModelError::Overflow && dims[1] + seqlen_offset > u32::MAX
                            ||| crate::tensor::copy_refused(*inputs_embeds, e)
                        }
                    },
                }
            }),
    {
        let dims = read_dims(inputs_embeds);
        if dims.len() != 3 {
            return Err(ModelError::ShapeMismatch);
        }
        let prompts: usize = dims[0];
        let tokens: usize = dims[1];
        let positions = if position_ids.is_some() {
            None
        } else {
            if tokens > u32::MAX as usize || seqlen_offset > u32::MAX as usize - tokens {
                return Err(ModelError::Overflow);
            }
            match text_positions(prompts, tokens, seqlen_offset as u32).to_tensor() {
                Ok(t) => match bring_beside(t, inputs_embeds) {
                    Ok(t) => Some(t),
                    Err(e) => return Err(e),
                },
                Err(e) => return Err(e),
            }
        };
        let injected_layers: usize = match deepstack {
            None => 0,
            Some(n) => if n < self.layers.len() {
                n
            } else {
                self.layers.len()
            },
        };
        Ok(TextPlan { positions, causal_mask: tokens > 1, injected_layers })
    }

    /// Forgets all cached keys and values.
    pub fn clear_kv_cache(&mut self)
        ensures
            final(self).head_dim == old(self).head_dim,
            final(self).mrope_section == old(self).mrope_section,
            final(self).layers@ == Seq::new(
                old(self).layers@.len(),
                |i: int| None::<(Tensor, Tensor)>,
            ),
    {
        let n: usize = self.layers.len();
        let mut i: usize = 0;
        while i < n
            invariant
                i <= n,
                n == self.layers@.len(),
                n == old(self).layers@.len(),
                self.head_dim == old(self).head_dim,
                self.mrope_section == old(self).mrope_section,
                forall|k: int| 0 <= k < i ==> #[trigger] self.layers@[k] is None,
            decreases n - i,
        {
            self.layers.set(i, None);
            i = i + 1;
        }
        assert(self.layers@ =~= Seq::new(n as nat, |i: int| None::<(Tensor, Tensor)>));
    }

    /// The cached keys and values of each layer.
    pub fn get_kv_cache(&self) -> (r: Vec<Option<(Tensor, Tensor)>>)
        ensures
            r@ == self.layers@,
    {
        let mut out: Vec<Option<(Tensor, Tensor)>> = Vec::new();
        let mut i: usize = 0;
        while i < self.layers.len()
            invariant
                i <= self.layers@.len(),
                out@ == self.layers@.take(i as int),
            decreases self.layers@.len() - i,
        {
            out.push(copy_cache(&self.layers[i]));
            assert(out@ =~= self.layers@.take(i + 1));
            i = i + 1;
        }
        assert(out@ =~= self.layers@);
        out
    }

    /// Replaces the cached keys and values, layer by layer, as far as `cache` goes.
    pub fn set_kv_cache(&mut self, cache: Vec<Option<(Tensor, Tensor)>>)
        ensures
            final(self).head_dim == old(self).head_dim,
            final(self).mrope_section == old(self).mrope_section,
            final(self).layers@ == restored(old(self).layers@, cache@),
    {
        let n: usize = if cache.len() < self.layers.len() {
            cache.len()
        } else {
            self.layers.len()
        };
        let mut i: usize = 0;
        while i < n
            invariant
                i <= n,
                n <= cache@.len(),
                n <= old(self).layers@.len(),
                self.layers@.len() == old(self).layers@.len(),
                self.head_dim == old(self).head_dim,
                self.mrope_section == old(self).mrope_section,
                forall|k: int| 0 <= k < i ==> #[trigger] self.layers@[k] == cache@[k],
                forall|k: int|
                    i <= k < self.layers@.len() ==> #[trigger] self.layers@[k] == old(
                        self,
                    ).layers@[k],
            decreases n - i,
        {
            self.layers.set(i, copy_cache(&cache[i]));
            i = i + 1;
        }
        assert(self.layers@ =~= restored(old(self).layers@, cache@));
    }
}

/// The caches of a model after others were put in their place, as far as these go.
pub open spec fn restored(
    layers: Seq<Option<(Tensor, Tensor)>>,
    cache: Seq<Option<(Tensor, Tensor)>>,
) -> Seq<Option<(Tensor, Tensor)>> {
    Seq::new(
        layers.len(),
        |i: int|
            if i < cache.len() {
                cache[i]
            } else {
                layers[i]
            },
    )
}

/// A saved cache comes back whole, whatever the model held in between.
pub proof fn saved_cache_comes_back(
    saved: Seq<Option<(Tensor, Tensor)>>,
    between: Seq<Option<(Tensor, Tensor)>>,
)
    requires
        between.len() == saved.len(),
    ensures
        restored(between, saved) == saved,
{
    assert(restored(between, saved) =~= saved);
}

/// The language model has a token table, as many decoder layers as it is said to have, each
/// under its number, and a norm behind them.
pub proof fn the_language_model_has_all_its_layers(cfg: Qwen3VLTextConfig, i: int)
    requires
        0 <= i < cfg.num_hidden_layers,
    ensures
        ({
            let m = text_modules(cfg);
            let n = cfg.num_hidden_layers as int;
            &&& m.len() == n + 2
            &&& m[0].path == "embed_tokens"@
            &&& m[0].shape == (ShapeView::Embedding {
                entries: cfg.vocab_size,
                width: cfg.hidden_size,
            })
            &&& m[1 + i].path == "layers."@ + crate::weights::decimal(i as nat)
            &&& m[1 + i].shape == ShapeView::DecoderLayer
            &&& m[1 + n].path == "norm"@
            &&& m[1 + n].shape == ShapeView::RmsNorm(cfg.hidden_size)
        }),
{
}

/// Deep features go to the first layers, one to each, until either runs out.
pub proof fn layers_take_one_feature_each(layers: nat, features: usize)
    ensures
        injected(layers, None) == 0,
        injected(layers, Some(features)) <= layers,
        injected(layers, Some(features)) <= features,
        injected(layers, Some(features)) == layers || injected(layers, Some(features)) == features,
{
}

/// A shorter cache replaces the caches of the first layers, and leaves those of the others; of
/// a longer one the rest is not used.
pub proof fn caches_are_replaced_from_the_first_on(
    layers: Seq<Option<(Tensor, Tensor)>>,
    cache: Seq<Option<(Tensor, Tensor)>>,
    i: int,
)
    requires
        0 <= i < layers.len(),
    ensures
        restored(layers, cache).len() == layers.len(),
        i < cache.len() ==> restored(layers, cache)[i] == cache[i],
        i >= cache.len() ==> restored(layers, cache)[i] == layers[i],
{
}

} // verus!
