//! The JSON codec, `serde_json`, as this library uses it.
//!
//! Nothing here is proved. Each function below makes one call into
//! `serde_json`, and its contract names what the call returns.

use vstd::prelude::*;

verus! {

/// `serde_json::Error`, the codec's error. The library carries it from the
/// call to the place that turns it into an error of its own, and reads
/// nothing in it.
#[verifier::external_type_specification]
#[verifier::external_body]
pub struct ExJsonError(serde_json::Error);

/// The texts of a sequence of strings.
pub open spec fn texts(strings: Seq<String>) -> Seq<Seq<char>> {
    Seq::new(strings.len(), |i: int| strings[i]@)
}

/// What `serde_json::from_slice` makes of `text` when asked for a list of
/// strings: the strings of the JSON array that `text` holds, or `None` where
/// it reports an error.
pub uninterp spec fn json_strings(text: Seq<u8>) -> Option<Seq<Seq<char>>>;

/// What `serde_json::to_string` writes for a list of strings: the JSON array
/// of them.
pub uninterp spec fn json_array_text(strings: Seq<Seq<char>>) -> Seq<char>;

/// Calls `serde_json::from_slice` for a `Vec<String>`.
///
/// Trusted: the call is a function of the bytes alone, and this gives its
/// outcome the name [`json_strings`]. Nothing is claimed about which inputs
/// parse.
#[verifier::external_body]
pub(crate) fn from_slice(text: &[u8]) -> (r: Result<Vec<String>, serde_json::Error>)
    ensures
        r matches Ok(v) ==> json_strings(text@) == Some(texts(v@)),
        r is Err ==> json_strings(text@) is None,
{
    serde_json::from_slice(text)
}

/// Calls `serde_json::to_string` on a `Vec<String>`.
///
/// Trusted: the call is a function of the strings alone, and this gives its
/// output the name [`json_array_text`]. It also claims that the call
/// succeeds: the codec reports an error only where a `Serialize` impl fails,
/// a map has a key that is no string, or the writer fails, and here the value
/// is a list of strings and the writer a `Vec<u8>`.
#[verifier::external_body]
pub(crate) fn to_string(strings: &Vec<String>) -> (r: Result<String, serde_json::Error>)
    ensures
        r is Ok,
        r matches Ok(s) ==> s@ == json_array_text(texts(strings@)),
{
    serde_json::to_string(strings)
}

} // verus!
