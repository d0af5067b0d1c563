//! The recipe that travels in a cookie: the second of the fields that `=`
//! parts, in base 64 without padding, holding UTF-8 text.

use crate::text::{part_views, pieces, split};
use base64::engine::general_purpose::STANDARD_NO_PAD;
use base64::Engine;
use vstd::prelude::*;
use vstd::utf8::{decode_utf8, valid_utf8};

verus! {

/// The bytes that a text in the standard alphabet of base 64, without
/// padding, encodes, or `None` where the text is no such encoding.
pub uninterp spec fn base64_no_pad(text: Seq<char>) -> Option<Seq<u8>>;

/// The error of the `base64` crate's decoders, of which nothing is read.
#[verifier::external_type_specification]
#[verifier::external_body]
pub struct ExBase64DecodeError(base64::DecodeError);

/// Calls `decode` of the engine `STANDARD_NO_PAD` of the `base64` crate.
///
/// Trusted: whether the call succeeds, and with which bytes, depends on the
/// text alone.
#[verifier::external_body]
fn decode_base64(text: &str) -> (decoded: Result<Vec<u8>, base64::DecodeError>)
    ensures
        match decoded {
            Ok(bytes) => base64_no_pad(text@) == Some(bytes@),
            Err(_) => base64_no_pad(text@) is None,
        },
{
    STANDARD_NO_PAD.decode(text)
}

/// Calls `String::from_utf8` of the standard library.
///
/// Trusted: the call succeeds exactly on valid UTF-8, and the string then
/// holds the characters that the bytes encode.
#[verifier::external_body]
fn string_from_utf8(bytes: Vec<u8>) -> (text: Option<String>)
    ensures
        match text {
            Some(s) => valid_utf8(bytes@) && s@ == decode_utf8(bytes@),
            None => !valid_utf8(bytes@),
        },
{
    match String::from_utf8(bytes) {
        Ok(s) => Some(s),
        Err(_) => None,
    }
}

/// The second of the fields into which `=` parts the text, if there are two.
pub open spec fn second_field(s: Seq<char>) -> Option<Seq<char>> {
    let fields = pieces(s, '=');
    if fields.len() < 2 {
        None
    } else {
        Some(fields[1])
    }
}

/// The recipe in a cookie: the text that the second field encodes.
pub open spec fn recipe_of_cookie(cookie: Seq<char>) -> Option<Seq<char>> {
    match second_field(cookie) {
        None => None,
        Some(field) => match base64_no_pad(field) {
            None => None,
            Some(bytes) => if valid_utf8(bytes) {
                Some(decode_utf8(bytes))
            } else {
                None
            },
        },
    }
}

/// The recipe that the cookie carries: its second field, decoded from base
/// 64 and read as UTF-8. `None` where there is no second field, where it is
/// no base 64, or where the bytes are no UTF-8.
pub fn extract_recipe(cookie: &str) -> (recipe: Option<String>)
    ensures
        match recipe {
            Some(text) => recipe_of_cookie(cookie@) == Some(text@),
            None => recipe_of_cookie(cookie@) is None,
        },
{
    let split_cookie = split(cookie, '=');
    if split_cookie.len() < 2 {
        return None;
    }
    let field: &str = split_cookie[1];
    proof {
        assert(part_views(split_cookie@)[1] == field@);
    }
    let bytes = match decode_base64(field) {
        Ok(bytes) => bytes,
        Err(_) => { return None; },
    };
    string_from_utf8(bytes)
}

} // verus!
