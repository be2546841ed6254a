use vstd::prelude::*;

verus! {

#[verifier::external_type_specification]
#[verifier::external_body]
pub struct ExJsonError(serde_json::Error);

/// The JSON text that encodes the string `s`.
pub uninterp spec fn json_text_of(s: Seq<char>) -> Seq<char>;

/// The string that the JSON text `t` encodes, if `t` is one JSON string.
pub uninterp spec fn json_string_in(t: Seq<char>) -> Option<Seq<char>>;

/// Why a backend operation failed. A key that holds nothing is no failure.
#[derive(PartialEq, Eq, Structural, Clone, Copy, Debug)]
pub enum CacheError {
    /// The backend could not be reached or refused the command.
    Transport,
    /// The value could not be encoded for storage.
    Encoding,
}

/// Relies on serde_json::to_string, on a `String`: the JSON text of the
/// string, which depends on its characters alone. A string serializes into an
/// in-memory buffer, whose writes never fail, so the call always succeeds.
#[verifier::external_body]
fn to_json_text(value: &String) -> (r: Result<String, serde_json::Error>)
    ensures
        r is Ok,
        r matches Ok(t) ==> t@ == json_text_of(value@),
{
    serde_json::to_string(value)
}

/// Relies on serde_json::from_str, into a `String`: whether the text is one
/// JSON string, and which, depends on the text alone.
#[verifier::external_body]
fn from_json_text(text: &str) -> (r: Result<String, serde_json::Error>)
    ensures
        r is Ok <==> json_string_in(text@) is Some,
        r matches Ok(s) ==> json_string_in(text@) == Some(s@),
{
    serde_json::from_str::<String>(text)
}

/// The text under which a networked store keeps `value`: its JSON encoding.
/// Encoding a string always succeeds; the `Encoding` error keeps a failure to
/// encode apart from transport failures for callers that handle both.
pub fn encode_value(value: &String) -> (r: Result<String, CacheError>)
    ensures
        r is Ok,
        r matches Ok(t) ==> t@ == json_text_of(value@),
{
    match to_json_text(value) {
        Ok(t) => Ok(t),
        Err(_) => Err(CacheError::Encoding),
    }
}

/// The value that a networked store's reply holds. A missing key and text that
/// does not decode both read as absent: a read never reports a decode error.
pub fn decode_reply(reply: Option<String>) -> (r: Option<String>)
    ensures
        r is Some <==> (reply matches Some(t) && json_string_in(t@) is Some),
        r matches Some(s) ==> (reply matches Some(t) && json_string_in(t@) == Some(s@)),
{
    match reply {
        None => None,
        Some(t) => match from_json_text(t.as_str()) {
            Ok(s) => Some(s),
            Err(_) => None,
        },
    }
}

} // verus!
