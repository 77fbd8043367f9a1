use vstd::prelude::*;

verus! {

/// The text that `humansize::format_size` gives for `bytes` with the decimal
/// (SI) units and no decimals.
pub uninterp spec fn decimal_size_text(bytes: u64) -> Seq<char>;

/// Calls `humansize::format_size` with the `DECIMAL` options set to no decimal
/// places. Trusted: the text is whatever that function writes for `bytes` (it
/// depends on that argument alone); nothing is stated of its form.
#[verifier::external_body]
pub(crate) fn format_decimal_size(bytes: u64) -> (text: String)
    ensures
        text@ == decimal_size_text(bytes),
{
    let options = humansize::FormatSizeOptions::from(humansize::DECIMAL).decimal_places(0);
    humansize::format_size(bytes, options)
}

} // verus!
