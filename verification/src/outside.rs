//! What the library takes from other crates: JSON text, random identifiers, the time of day.

use crate::text::{opt_text, texts};
use vstd::prelude::*;

verus! {

#[verifier::external_type_specification]
#[verifier::external_body]
pub struct ExJsonError(serde_json::Error);

/// The JSON text of a list of strings.
pub uninterp spec fn json_of_strings(list: Seq<Seq<char>>) -> Seq<char>;

/// The list of strings that a JSON text holds, if it holds one.
pub uninterp spec fn strings_of_json(text: Seq<char>) -> Option<Seq<Seq<char>>>;

/// Calls `serde_json::to_string` on a list of strings. Writing strings into memory cannot fail;
/// the text stands between square brackets, and reading it gives the list back.
#[verifier::external_body]
pub(crate) fn strings_to_json(list: &Vec<String>) -> (r: Result<String, serde_json::Error>)
    ensures
        r is Ok,
        r->Ok_0@ == json_of_strings(texts(list@)),
        strings_of_json(r->Ok_0@) == Some(texts(list@)),
        r->Ok_0@.len() >= 2,
        r->Ok_0@[0] == '[',
        r->Ok_0@.last() == ']',
{
    serde_json::to_string(list)
}

/// Calls `serde_json::from_str` for a list of strings.
#[verifier::external_body]
pub(crate) fn strings_from_json(text: &str) -> (r: Result<Vec<String>, serde_json::Error>)
    ensures
        match r {
            Ok(list) => strings_of_json(text@) == Some(texts(list@)),
            Err(_) => strings_of_json(text@) is None,
        },
{
    serde_json::from_str(text)
}

/// The JSON text of a string.
pub uninterp spec fn json_of_string(text: Seq<char>) -> Seq<char>;

/// Calls `serde_json::to_string` on a string. Writing a string into memory cannot fail.
#[verifier::external_body]
pub(crate) fn string_to_json(text: &str) -> (r: Result<String, serde_json::Error>)
    ensures
        r is Ok,
        r->Ok_0@ == json_of_string(text@),
{
    serde_json::to_string(text)
}

/// What is wrong with a text as JSON, if anything is.
pub uninterp spec fn json_fault(text: Seq<char>) -> Option<Seq<char>>;

/// Calls `serde_json::from_str` for any JSON value, and writes the error where there is one. Which
/// texts are JSON and how the error reads depends on the text alone.
#[verifier::external_body]
pub(crate) fn check_json(text: &str) -> (r: Option<String>)
    ensures
        opt_text(r) == json_fault(text@),
{
    match serde_json::from_str::<serde_json::Value>(text) {
        Ok(_) => None,
        Err(e) => Some(e.to_string()),
    }
}

/// The JSON text of a version, a root, a switch and a filter, in that order.
pub uninterp spec fn json_of_key(
    version: u8,
    root: Seq<char>,
    recursive: bool,
    filter: Seq<char>,
) -> Seq<char>;

/// Calls `serde_json::to_string` on the tuple of a number, a string, a boolean and a string, none
/// of which can fail to be written. The text is that of no other such tuple.
#[verifier::external_body]
pub(crate) fn key_to_json(version: u8, root: &str, recursive: bool, filter: &str) -> (r: Result<
    String,
    serde_json::Error,
>)
    ensures
        r is Ok,
        r->Ok_0@ == json_of_key(version, root@, recursive, filter@),
        forall|v: u8, t: Seq<char>, b: bool, f: Seq<char>| #[trigger]
            json_of_key(v, t, b, f) == r->Ok_0@ ==> v == version && t == root@ && b == recursive
                && f == filter@,
{
    serde_json::to_string(&(version, root, recursive, filter))
}

pub open spec fn is_lower_hex(c: char) -> bool {
    ('0' <= c && c <= '9') || ('a' <= c && c <= 'f')
}

/// Whether a text is one of thirty-two hexadecimal digits.
pub open spec fn is_token(s: Seq<char>) -> bool {
    s.len() == 32 && forall|i: int| 0 <= i < 32 ==> is_lower_hex(#[trigger] s[i])
}

/// Calls `uuid::Uuid::new_v4` and writes it in the simple form: thirty-two hexadecimal digits in
/// lower case. Which digits is up to chance.
#[verifier::external_body]
pub(crate) fn random_token() -> (r: String)
    ensures
        is_token(r@),
{
    uuid::Uuid::new_v4().simple().to_string()
}

/// Whether a text is an identifier in the hyphenated form: hexadecimal digits in groups of eight,
/// four, four, four and twelve.
pub open spec fn is_hyphenated(s: Seq<char>) -> bool {
    s.len() == 36 && forall|i: int|
        0 <= i < 36 ==> if i == 8 || i == 13 || i == 18 || i == 23 {
            #[trigger] s[i] == '-'
        } else {
            is_lower_hex(s[i])
        }
}

/// Calls `uuid::Uuid::new_v4` and writes it in the hyphenated form of thirty-six characters:
/// hexadecimal digits in lower case in groups of eight, four, four, four and twelve. Which digits
/// is up to chance.
#[verifier::external_body]
pub(crate) fn random_id() -> (r: String)
    ensures
        is_hyphenated(r@),
{
    uuid::Uuid::new_v4().to_string()
}

/// Calls `chrono::Utc::now` and writes it in the RFC 3339 form. The time is up to the machine.
#[verifier::external_body]
pub(crate) fn now_rfc3339() -> String {
    chrono::Utc::now().to_rfc3339()
}

/// What is wrong with a text as a regular expression, if anything is.
pub uninterp spec fn pattern_fault(pattern: Seq<char>) -> Option<Seq<char>>;

/// The places of a text where a regular expression matches, one after the other.
pub uninterp spec fn pattern_pieces(pattern: Seq<char>, text: Seq<char>) -> Seq<Seq<char>>;

/// Calls `regex::Regex::new`, which fails where the text is no regular expression, with an error
/// that the text decides, and `regex::Regex::find_iter`, whose matches do not overlap and come in
/// the order of the text.
#[verifier::external_body]
pub(crate) fn find_pieces(pattern: &str, text: &str) -> (r: Result<Vec<String>, String>)
    ensures
        match r {
            Ok(pieces) => {
                &&& pattern_fault(pattern@) is None
                &&& texts(pieces@) == pattern_pieces(pattern@, text@)
            },
            Err(e) => pattern_fault(pattern@) == Some(e@),
        },
{
    let compiled = regex::Regex::new(pattern).map_err(|e| e.to_string())?;
    Ok(compiled.find_iter(text).map(|m| m.as_str().to_owned()).collect())
}

/// The SHA-256 digest of some bytes.
pub uninterp spec fn sha256_digest(bytes: Seq<u8>) -> Seq<u8>;

/// Calls `sha2::Sha256::digest`, whose result has thirty-two bytes.
#[verifier::external_body]
pub(crate) fn sha256(bytes: &[u8]) -> (r: Vec<u8>)
    ensures
        r@ == sha256_digest(bytes@),
        r@.len() == 32,
{
    <sha2::Sha256 as sha2::Digest>::digest(bytes).to_vec()
}

} // verus!
