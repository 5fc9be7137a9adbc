//! Metadata of a weight file.
use candle_core::quantized::gguf_file::Content;
use vstd::prelude::*;

verus! {

/// The header of a weight file, carried through as it was read.
#[verifier::external_type_specification]
#[verifier::external_body]
pub struct ExContent(candle_core::quantized::gguf_file::Content);

/// The header that bytes parse to, if they parse to one.
pub uninterp spec fn parsed_header(bytes: Seq<u8>) -> Option<
    candle_core::quantized::gguf_file::Content,
>;

/// Calls `Content::read` on bytes. It sets room aside for every length that it reads, calls
/// itself for every array within an array, and divides by the alignment, so the caller has
/// walked through the header before. What it finds, or that it finds nothing, depends on the
/// bytes alone.
#[verifier::external_body]
pub(crate) fn parse_header(bytes: &[u8]) -> (r: Option<Content>)
    requires
        crate::header::is_whole(bytes@),
    ensures
        r == parsed_header(bytes@),
{
    Content::read(&mut std::io::Cursor::new(bytes)).ok()
}

/// The metadata entries of a header that hold a single 32-bit unsigned number.
pub uninterp spec fn meta_numbers(ct: candle_core::quantized::gguf_file::Content) -> Map<
    Seq<char>,
    u32,
>;

/// The metadata entries of a header that hold an array of booleans.
pub uninterp spec fn meta_flags(ct: candle_core::quantized::gguf_file::Content) -> Map<
    Seq<char>,
    Seq<bool>,
>;

/// Looks a key up in `Content::metadata` and reads the value with `Value::to_u32`: there is
/// a result just when the entry exists and is a 32-bit unsigned number, and it is that
/// number.
#[verifier::external_body]
pub(crate) fn meta_number(ct: &Content, key: &str) -> (r: Option<u32>)
    ensures
        r is Some <==> meta_numbers(*ct).contains_key(key@),
        r is Some ==> r->0 == meta_numbers(*ct)[key@],
{
    ct.metadata.get(key).and_then(|v| v.to_u32().ok())
}

/// The names of the metadata entries of a header that hold a single 32-bit real number.
pub uninterp spec fn meta_real_keys(ct: candle_core::quantized::gguf_file::Content) -> Set<
    Seq<char>,
>;

/// Looks a key up in `Content::metadata` and reads the value with `Value::to_f32`: tells
/// whether the entry exists and is a 32-bit real number.
#[verifier::external_body]
pub(crate) fn has_real(ct: &Content, key: &str) -> (r: bool)
    ensures
        r == meta_real_keys(*ct).contains(key@),
{
    ct.metadata.get(key).is_some_and(|v| v.to_f32().is_ok())
}

/// Looks a key up in `Content::metadata` and reads the value with `Value::to_vec`, and each
/// of its items with `Value::to_bool`: there is a result just when the entry exists and is
/// an array of booleans, and it holds them in order.
#[verifier::external_body]
pub(crate) fn meta_booleans(ct: &Content, key: &str) -> (r: Option<Vec<bool>>)
    ensures
        r is Some <==> meta_flags(*ct).contains_key(key@),
        r is Some ==> r->0@ == meta_flags(*ct)[key@],
{
    ct.metadata.get(key)?.to_vec().ok()?.iter().map(|v| v.to_bool().ok()).collect()
}

} // verus!
