//! Retry policy: whether a failed first frame is worth another attempt.
//!
//! Consulted only when an unstructured line arrives before any content has
//! been emitted for the current attempt.  The line must decode as JSON and
//! carry a structured error of the transient kind, and the attempt counter
//! must still be below the ceiling; everything else is fatal.

use vstd::prelude::*;
use vstd::string::StringExecFns;
use crate::json::error_kind_of;
use crate::json::json_parses;
use crate::json::read_error_kind;

verus! {

/// Total number of attempts allowed for one prompt.
pub const MAX_TRIES: i64 = 3;

/// The retry decision over the extracted error kind: retry exactly when the
/// line carried an error of the transient kind and the attempt counter is
/// below the ceiling.
pub open spec fn retry_allowed(kind: Option<Seq<char>>, count: i64) -> bool {
    &&& kind matches Some(k) && k == "server_error"@
    &&& count < MAX_TRIES
}

/// Decides a retry from the error kind the unstructured line carried (`None`
/// when it carried no structured error, or no textual kind).
pub fn retry_decision(kind: &Option<String>, count: i64) -> (r: bool)
    ensures
        r == retry_allowed(
            match kind {
                Some(k) => Some(k@),
                None => None,
            },
            count,
        ),
{
    match kind {
        Some(k) => {
            let transient = String::from_str("server_error");
            *k == transient && count < MAX_TRIES
        },
        None => false,
    }
}

/// Decides whether the unstructured first line asks for another attempt:
/// exactly when the line's extracted `error.type` is the transient kind and
/// the attempt counter is below the ceiling.  A line that is not JSON never
/// retries.
pub fn should_retry(line: &str, count: i64) -> (r: bool)
    ensures
        r == retry_allowed(error_kind_of(line@), count),
        !json_parses(line@) ==> !r,
{
    let kind = read_error_kind(line);
    retry_decision(&kind, count)
}

/// The retry policy by attempt number: a transient `server_error` retries on
/// the first and second attempt and fails on the third; any line without
/// that kind never retries.
pub proof fn lemma_retry_policy()
    ensures
        retry_allowed(Some("server_error"@), 1),
        retry_allowed(Some("server_error"@), 2),
        !retry_allowed(Some("server_error"@), 3),
        forall|count: i64| !retry_allowed(None, count),
        forall|k: Seq<char>, count: i64|
            k != "server_error"@ ==> !retry_allowed(Some(k), count),
{
}

} // verus!
