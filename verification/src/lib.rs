//! Planning core of a Qwen3-VL vision-language model.
//!
//! Everything about a forward pass that is decided in integers is decided here and
//! proved here: which position each token gets, which rows of an embedding table are
//! read, how a long prompt is cut into passes, when weights are loaded and dropped.
//! The floating-point kernels carry the plans out.

pub mod attention;
pub mod components;
pub mod config;
pub mod decode;
pub mod encode;
pub mod error;
pub mod gguf;
pub mod grid;
pub mod header;
pub mod interpolate;
pub mod marks;
pub mod metadata;
pub mod model;
pub mod modules;
pub mod patches;
pub mod picture_grids;
pub mod positions;
pub mod prefill;
pub mod request;
pub mod residency;
pub mod rope;
pub mod scatter;
pub mod spans;
pub mod streaming;
pub mod tensor;
pub mod text;
pub mod tokens;
pub mod vision;
pub mod visual;
pub mod weights;

pub use error::ModelError;
pub use grid::{parse_grid, Thw};
