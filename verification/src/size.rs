//! Human-readable byte sizes, as the `humansize` crate renders them with its
//! binary (IEC) options.

use vstd::prelude::*;

verus! {

/// The text that `humansize::format_size(bytes, BINARY)` gives for `bytes`
/// (for example `1 KiB`, `214.3 MiB`).
pub uninterp spec fn human_size(bytes: u64) -> Seq<char>;

/// Renders a byte count in binary units by calling
/// `humansize::format_size(bytes, humansize::BINARY)`. The contract only ties
/// the text to the count through [`human_size`]: the rendering goes through
/// floating point and is not restated here.
#[verifier::external_body]
pub(crate) fn format_size_binary(bytes: u64) -> (s: String)
    ensures
        s@ == human_size(bytes),
{
    humansize::format_size(bytes, humansize::BINARY)
}

} // verus!
