//! Sizes of the model.
use vstd::prelude::*;

verus! {

/// Sizes of the vision model.
#[derive(Debug)]
pub struct Qwen3VLVisionConfig {
    pub patch_size: usize,
    pub temporal_patch_size: usize,
    pub in_channels: usize,
    pub hidden_size: usize,
    pub intermediate_size: usize,
    pub out_hidden_size: usize,
    pub num_heads: usize,
    pub depth: usize,
    pub spatial_merge_size: u32,
    pub num_position_embeddings: usize,
    pub deepstack_visual_indexes: Vec<usize>,
}

/// Sizes of the language model.
#[derive(Debug)]
pub struct Qwen3VLTextConfig {
    pub vocab_size: usize,
    pub hidden_size: usize,
    pub num_hidden_layers: usize,
    pub head_dim: usize,
    pub mrope_section: Vec<usize>,
}

/// Sizes and special tokens of the whole model.
#[derive(Debug)]
pub struct Qwen3VLConfig {
    pub vision_config: Qwen3VLVisionConfig,
    pub text_config: Qwen3VLTextConfig,
    pub image_token_id: u32,
    pub video_token_id: u32,
    pub vision_start_token_id: u32,
    pub tie_word_embeddings: bool,
}

} // verus!
