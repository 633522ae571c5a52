//! Text out of encoded bytes.

use vstd::prelude::*;
use vstd::utf8::{decode_utf8, valid_utf8};

verus! {

/// The text that `String::from_utf8_lossy` makes of bytes.
pub uninterp spec fn lossy_text(bytes: Seq<u8>) -> Seq<char>;

/// The text that `String::from_utf16_lossy` makes of code units.
pub uninterp spec fn lossy_wide_text(units: Seq<u16>) -> Seq<char>;

/// Calls `String::from_utf8`: gives the text exactly where the bytes are valid UTF-8, and otherwise
/// what std says of them, of which nothing is claimed.
#[verifier::external_body]
pub(crate) fn text_from_utf8(bytes: Vec<u8>) -> (result: Result<String, String>)
    ensures
        result is Ok <==> valid_utf8(bytes@),
        result matches Ok(text) ==> text@ == decode_utf8(bytes@),
{
    String::from_utf8(bytes).map_err(|error| error.to_string())
}

/// Calls `String::from_utf8_lossy`, named `lossy_text`. It changes nothing in valid UTF-8.
#[verifier::external_body]
pub(crate) fn text_from_utf8_lossy(bytes: &Vec<u8>) -> (text: String)
    ensures
        text@ == lossy_text(bytes@),
        valid_utf8(bytes@) ==> text@ == decode_utf8(bytes@),
{
    String::from_utf8_lossy(bytes).into_owned()
}

/// Calls `String::from_utf16_lossy`, named `lossy_wide_text`. An ASCII character is one unit, its
/// own number.
#[verifier::external_body]
pub(crate) fn text_from_utf16_lossy(units: &Vec<u16>) -> (text: String)
    ensures
        text@ == lossy_wide_text(units@),
        (forall|at: int| 0 <= at < units@.len() ==> #[trigger] units@[at] < 0x80) ==> text@
            == units@.map_values(|unit: u16| unit as char),
{
    String::from_utf16_lossy(units)
}

} // verus!
