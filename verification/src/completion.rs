//! The plain (non-streaming) completion flow: reading the answer text out
//! of a complete response body.
//!
//! The body arrives as bytes from the caller, which performs the HTTP
//! exchange; decoding and shape-reading happen here.  A response with an
//! `error` object yields its message, otherwise the first choice's text is
//! returned; either is rendered as raw JSON text, quotes included, for the
//! response sanitizer to clean up.

use vstd::prelude::*;
use vstd::string::StringExecFns;
use crate::chars::bytes_to_str;
use crate::json::json_parses;
use crate::json::payload_has_error;
use crate::json::read_completion;
use crate::json::rendered_choice_text_of;
use crate::json::rendered_error_message_of;

verus! {

/// Extracts the displayable text from a complete completion response body:
/// the rendered error message when the response carries an `error` object,
/// the rendered first choice's text otherwise.  Succeeds exactly on bodies
/// that are decodable text and well-formed JSON.
pub fn completion_text(body: &[u8]) -> (r: Result<String, String>)
    ensures
        r is Ok <==> vstd::utf8::valid_utf8(body@) && json_parses(vstd::utf8::decode_utf8(body@)),
        vstd::utf8::valid_utf8(body@) ==> {
            let s = vstd::utf8::decode_utf8(body@);
            &&& json_parses(s) && payload_has_error(s) ==> (r matches Ok(t) && t@
                == rendered_error_message_of(s))
            &&& json_parses(s) && !payload_has_error(s) ==> (r matches Ok(t) && t@
                == rendered_choice_text_of(s))
        },
{
    match bytes_to_str(body) {
        None => Err(String::from_str("Response was not decodable text")),
        Some(text) => {
            proof {
                vstd::utf8::encode_utf8_decode_utf8(text@);
            }
            read_completion(text)
        },
    }
}

} // verus!
