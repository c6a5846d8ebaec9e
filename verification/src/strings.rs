//! Conversions from encoder output bytes to text.
//!
//! The encoders only produce ASCII bytes, which are valid UTF-8; these
//! two wrappers carry that fact over the standard library's checked
//! conversions.

use vstd::prelude::*;
use crate::model::ascii_view;

verus! {

/// Relies on `core::str::from_utf8`: ASCII bytes are valid UTF-8, and the
/// resulting text holds the same bytes read as characters.
#[verifier::external_body]
pub(crate) fn ascii_str(b: &[u8]) -> (r: &str)
    requires
        forall|i: int| 0 <= i < b@.len() ==> b@[i] < 128,
    ensures
        r@ == ascii_view(b@),
{
    core::str::from_utf8(b).unwrap()
}

/// Relies on `String::from_utf8`: ASCII bytes are valid UTF-8, and the
/// resulting string holds the same bytes read as characters.
#[verifier::external_body]
pub(crate) fn ascii_string(b: Vec<u8>) -> (r: String)
    requires
        forall|i: int| 0 <= i < b@.len() ==> b@[i] < 128,
    ensures
        r@ == ascii_view(b@),
{
    String::from_utf8(b).unwrap()
}

} // verus!
