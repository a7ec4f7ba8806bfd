//! The boundary to the JSON library. Every call into `serde_json` that the
//! control plane makes goes through one of the trusted items here; everything
//! built on top of them is verified against these contracts.

use vstd::prelude::*;

verus! {

/// The declaration of `serde_json::Value`, so that a parsed JSON document can
/// be carried through signatures. The value itself is opaque to the verifier.
#[verifier::external_type_specification]
#[verifier::external_body]
pub struct ExValue(serde_json::Value);

/// Whether `serde_json` accepts a string as a complete JSON document.
/// The acceptance depends on the characters alone.
pub uninterp spec fn json_accepted(s: Seq<char>) -> bool;

/// The JSON encoding of a plain string: quoted and escaped.
/// The encoding depends on the characters alone.
pub uninterp spec fn json_quoted(s: Seq<char>) -> Seq<char>;

/// Relies on `serde_json::from_str::<Value>`: parses a complete JSON document,
/// returning its value exactly when the text is accepted.
#[verifier::external_body]
pub(crate) fn parse_json(s: &str) -> (r: Option<serde_json::Value>)
    ensures
        r is Some <==> json_accepted(s@),
{
    serde_json::from_str::<serde_json::Value>(s).ok()
}

/// Relies on `serde_json::to_string` on a string value: produces the JSON
/// encoding of the string (quoted, with the mandatory escapes). Serializing a
/// plain string writes to an in-memory buffer and cannot fail, so the unwrap
/// never panics.
#[verifier::external_body]
pub(crate) fn json_quote(s: &str) -> (r: String)
    ensures
        r@ == json_quoted(s@),
{
    serde_json::to_string(s).unwrap()
}

/// The string field at `key` of a JSON document: the field's characters when
/// the text parses as a JSON object holding a string at that key, nothing
/// otherwise. The result depends on the text and the key alone.
pub uninterp spec fn str_field_of(s: Seq<char>, key: Seq<char>) -> Option<Seq<char>>;

/// Relies on `serde_json::from_str::<Value>`, `Value::get` and
/// `Value::as_str`: parses the text and hands back its string field at `key`,
/// when there is one.
#[verifier::external_body]
pub(crate) fn str_field(s: &str, key: &str) -> (r: Option<String>)
    ensures
        (r is Some) == (str_field_of(s@, key@) is Some),
        r matches Some(v) ==> str_field_of(s@, key@) == Some(v@),
        r is Some ==> json_accepted(s@),
{
    match serde_json::from_str::<serde_json::Value>(s) {
        Ok(value) => match value.get(key) {
            Some(field) => match field.as_str() {
                Some(text) => Some(text.to_string()),
                None => None,
            },
            None => None,
        },
        Err(_) => None,
    }
}

} // verus!
