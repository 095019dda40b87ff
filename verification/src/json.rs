//! Trusted bindings to the JSON library.
//!
//! Each reader goes from document text to plain values in one step, and its
//! contract fixes the result over named extraction functions: what the JSON
//! library computes from a document is a function of the text alone, far too
//! large to spell out, so each extracted fact gets a name and the readers'
//! contracts apply those names.  The verified code above decides everything
//! from the named results.

use vstd::prelude::*;
use serde_json::Value;

verus! {

/// Whether `s` is a well-formed JSON document: exactly the strings the JSON
/// library's parser accepts.  Named, not spelled out.
pub uninterp spec fn json_parses(s: Seq<char>) -> bool;

/// The parser's message text for a string it rejects.
pub uninterp spec fn parse_error_text_of(s: Seq<char>) -> Seq<char>;

/// Whether the parsed document has a `choices` member.
pub uninterp spec fn payload_has_choices(s: Seq<char>) -> bool;

/// The string under `choices[0].delta.content` of the parsed document, when
/// that path exists and is a string.
pub uninterp spec fn delta_text_of(s: Seq<char>) -> Option<Seq<char>>;

/// Whether the parsed document has an `error` member.
pub uninterp spec fn payload_has_error(s: Seq<char>) -> bool;

/// The string under `error.message` of the parsed document, when that path
/// exists and is a string.
pub uninterp spec fn error_message_of(s: Seq<char>) -> Option<Seq<char>>;

/// The string under `error.type` of the parsed document, when that path
/// exists and is a string.
pub uninterp spec fn error_kind_of(s: Seq<char>) -> Option<Seq<char>>;

/// The JSON rendering of the value under `error.message`, quotes and escapes
/// included (the text `null` when the path is absent).
pub uninterp spec fn rendered_error_message_of(s: Seq<char>) -> Seq<char>;

/// The JSON rendering of the value under `choices[0].text`, quotes and
/// escapes included (the text `null` when the path is absent).
pub uninterp spec fn rendered_choice_text_of(s: Seq<char>) -> Seq<char>;

/// The view of an optional owned string.
pub open spec fn opt_text(o: Option<String>) -> Option<Seq<char>> {
    match o {
        Some(s) => Some(s@),
        None => None,
    }
}

/// A payload document, classified by shape.
#[derive(Debug, PartialEq, Eq)]
pub enum Payload {
    /// The document has a `choices` member; the delta text when
    /// `choices[0].delta.content` is a string.
    Delta(Option<String>),
    /// No `choices`, but an `error` member; its message when
    /// `error.message` is a string.
    Fault(Option<String>),
    /// Well-formed JSON with neither member.
    Other,
    /// Not well-formed JSON; the parser's message.
    Invalid(String),
}

/// Relies on `serde_json::from_str::<Value>`, `Value::get`, `Value`'s
/// `Index` (which answers `Null` for an absent path) and `Value::as_str`:
/// classifies a payload document by shape and extracts the delta text or the
/// error message.  Every result is a function of the document text alone.
#[verifier::external_body]
pub fn read_payload(data: &str) -> (p: Payload)
    ensures
        match p {
            Payload::Invalid(msg) => !json_parses(data@) && msg@ == parse_error_text_of(data@),
            Payload::Delta(t) => json_parses(data@) && payload_has_choices(data@) && opt_text(t)
                == delta_text_of(data@),
            Payload::Fault(m) => json_parses(data@) && !payload_has_choices(data@)
                && payload_has_error(data@) && opt_text(m) == error_message_of(data@),
            Payload::Other => json_parses(data@) && !payload_has_choices(data@)
                && !payload_has_error(data@),
        },
{
    let v: Value = match serde_json::from_str(data) {
        Ok(v) => v,
        Err(e) => return Payload::Invalid(e.to_string()),
    };
    if v.get("choices").is_some() {
        Payload::Delta(v["choices"][0]["delta"]["content"].as_str().map(str::to_string))
    } else if v.get("error").is_some() {
        Payload::Fault(v["error"]["message"].as_str().map(str::to_string))
    } else {
        Payload::Other
    }
}

/// Relies on `serde_json::from_str::<Value>`, `Value`'s `Index` and
/// `Value::as_str`: the `error.type` string of the parsed line; `None` when
/// the line does not parse or the path is absent or not a string.
#[verifier::external_body]
pub fn read_error_kind(line: &str) -> (r: Option<String>)
    ensures
        opt_text(r) == error_kind_of(line@),
        !json_parses(line@) ==> r is None,
{
    let v: Value = match serde_json::from_str(line) {
        Ok(v) => v,
        Err(_) => return None,
    };
    match v["error"]["type"].as_str() {
        Some(s) => Some(s.to_string()),
        None => None,
    }
}

/// Relies on `serde_json::from_str::<Value>`, `Value::get`, `Value`'s
/// `Index` and `Value`'s `Display`: the rendered `error.message` of a
/// document with an `error` member, the rendered `choices[0].text`
/// otherwise; a parse failure carries the parser's message.
#[verifier::external_body]
pub fn read_completion(data: &str) -> (r: Result<String, String>)
    ensures
        r is Ok <==> json_parses(data@),
        match r {
            Ok(t) => {
                &&& payload_has_error(data@) ==> t@ == rendered_error_message_of(data@)
                &&& !payload_has_error(data@) ==> t@ == rendered_choice_text_of(data@)
            },
            Err(e) => e@ == parse_error_text_of(data@),
        },
{
    let v: Value = match serde_json::from_str(data) {
        Ok(v) => v,
        Err(e) => return Err(e.to_string()),
    };
    match v.get("error") {
        Some(_) => Ok(v["error"]["message"].to_string()),
        None => Ok(v["choices"][0]["text"].to_string()),
    }
}

} // verus!
