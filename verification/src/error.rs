//! Why requests are refused.
use vstd::prelude::*;

verus! {

/// Why a request was refused.
#[derive(Debug)]
pub enum ModelError {
    /// A tensor could not be read or made.
    Tensor(candle_core::Error),
    /// A tensor has another number of dimensions than is asked for.
    Rank,
    /// A tensor has elements of another type than is asked for.
    ElementType,
    /// The storage of a tensor does not fill its shape.
    Storage,
    /// Two inputs that belong together have different shapes.
    ShapeMismatch,
    /// A row of a grid lacks one of the sizes time, height and width, or has more than these
    /// where nothing else may stand.
    GridWidth,
    /// A size or a sum does not fit the integers that carry it.
    Overflow,
    /// There is no token to place.
    EmptyPrompt,
    /// The prompt ends right after a vision-start token.
    DanglingVisionStart,
    /// A vision-start token is followed by neither an image nor a video token.
    UnexpectedVisionToken,
    /// The prompt holds more images than the image grid has rows.
    MissingImageGrid,
    /// The prompt holds more video frames than the video grid has.
    MissingVideoGrid,
    /// A vision-start token stands inside the tokens of the picture before it.
    OverlappingVision,
    /// A picture covers no token at all.
    EmptyGrid,
    /// A picture covers more tokens than the prompt has left.
    GridOverrun,
    /// A prompt with pictures is padded.
    PaddedRow,
    /// The side of the squares that patches are merged into is zero.
    MergeSize,
    /// The patches of a picture do not fill whole squares.
    PartialSquare,
    /// There is no picture at all.
    NoPictures,
    /// The header of a weight file lacks an entry, or holds one that no model can be made
    /// from.
    Metadata,
    /// The weight file could not be opened, mapped or understood.
    Source,
    /// The prompt has a number of image or video tokens other than its pictures have rows of
    /// features.
    TokenCount { tokens: usize, features: usize },
    /// A decoding step does not say how much of the prompt is cached.
    NoCachePosition,
    /// A video grid has no row, or a row without frames.
    EmptyVideo,
}

} // verus!
