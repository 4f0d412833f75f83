//! What the database shell tools print, read into results.
use vstd::prelude::*;
use vstd::string::*;
use vstd::utf8::{valid_utf8, decode_utf8};
use crate::text::{replace_all, replaced};

pub mod mysql;
pub mod pg;

verus! {

#[verifier::external_type_specification]
#[verifier::external_body]
pub struct ExUtf8Error(std::str::Utf8Error);

#[verifier::external_type_specification]
#[verifier::external_body]
pub struct ExFromUtf8Error(std::string::FromUtf8Error);

/// Calls std's `str::from_utf8`. Claims what its documentation gives: it
/// succeeds exactly on valid UTF-8, and then holds the decoded characters.
#[verifier::external_body]
pub fn str_from_utf8(bytes: &[u8]) -> (r: Result<&str, std::str::Utf8Error>)
    ensures
        (r is Ok) == valid_utf8(bytes@),
        r matches Ok(s) ==> s@ == decode_utf8(bytes@),
{
    std::str::from_utf8(bytes)
}

/// Calls std's `String::from_utf8`. Claims what its documentation gives: it
/// succeeds exactly on valid UTF-8, and then holds the decoded characters.
#[verifier::external_body]
pub fn string_from_utf8(bytes: Vec<u8>) -> (r: Result<String, std::string::FromUtf8Error>)
    ensures
        (r is Ok) == valid_utf8(bytes@),
        r matches Ok(s) ==> s@ == decode_utf8(bytes@),
{
    String::from_utf8(bytes)
}

/// The placeholder that statement templates hold for a tag.
pub open spec fn placeholder() -> Seq<char> {
    "__VAL__"@
}

/// A statement template with every placeholder replaced by `tag`.
pub fn fill_template(template: &str, tag: &str) -> (r: String)
    ensures
        r@ == replaced(template@, placeholder(), tag@),
{
    proof {
        reveal_strlit("__VAL__");
    }
    replace_all(template, "__VAL__", tag)
}

} // verus!
