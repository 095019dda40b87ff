//! Event decoding: classifying one complete frame.
//!
//! A frame normally carries an event marker followed by a JSON payload; the
//! payload starts at the first opening brace so that leading noise before it
//! is tolerated.  A marked frame without a brace is the normal end of the
//! stream; a frame without the marker is unstructured and, at most once at
//! the start of an attempt, a candidate for the retry policy.
//!
//! `event_spec` fixes the decoded event as a function of the frame bytes:
//! the text classification is spelled out, and the payload's shape goes
//! through the named extraction functions of the trusted JSON readers.

use vstd::prelude::*;
use vstd::string::StringExecFns;
use crate::chars::bytes_to_str;
use crate::chars::chars_to_string;
use crate::chars::str_to_chars;
use crate::chars::tail_chars;
use crate::json::Payload;
use crate::json::delta_text_of;
use crate::json::error_message_of;
use crate::json::json_parses;
use crate::json::parse_error_text_of;
use crate::json::payload_has_choices;
use crate::json::payload_has_error;
use crate::json::read_payload;

verus! {

/// One decoded frame, classified.
#[derive(Debug, PartialEq, Eq)]
pub enum Event {
    /// A content delta carrying text (possibly empty).
    Content(String),
    /// A frame with nothing to show: empty, or a delta without a text
    /// payload, such as a role switch.
    Ignored,
    /// A marked frame without a JSON object start: the normal end of the
    /// stream.
    StreamEnd,
    /// A structured error event; the extracted human-readable message.
    ProviderError(String),
    /// The payload was expected to be JSON but did not parse; the parser's
    /// message.
    BadPayload(String),
    /// Well-formed JSON without the expected shape; the raw payload text.
    NoChoices(String),
    /// A non-empty frame without the event marker; the raw line.
    Unstructured(String),
    /// The frame bytes are not decodable text.
    BadBytes,
}

/// A decoded event over mathematical text.
pub enum EventView {
    Content(Seq<char>),
    Ignored,
    StreamEnd,
    ProviderError(Seq<char>),
    BadPayload(Seq<char>),
    NoChoices(Seq<char>),
    Unstructured(Seq<char>),
    BadBytes,
}

/// The view of a decoded event.
pub open spec fn view_of_event(ev: Event) -> EventView {
    match ev {
        Event::Content(t) => EventView::Content(t@),
        Event::Ignored => EventView::Ignored,
        Event::StreamEnd => EventView::StreamEnd,
        Event::ProviderError(m) => EventView::ProviderError(m@),
        Event::BadPayload(m) => EventView::BadPayload(m@),
        Event::NoChoices(d) => EventView::NoChoices(d@),
        Event::Unstructured(l) => EventView::Unstructured(l@),
        Event::BadBytes => EventView::BadBytes,
    }
}

/// The event marker `data:` sits at position `i` of `s`.
pub open spec fn marker_at(s: Seq<char>, i: int) -> bool {
    &&& 0 <= i
    &&& i + 5 <= s.len()
    &&& s[i] == 'd'
    &&& s[i + 1] == 'a'
    &&& s[i + 2] == 't'
    &&& s[i + 3] == 'a'
    &&& s[i + 4] == ':'
}

/// The line contains the event marker somewhere.
pub open spec fn has_data_marker(s: Seq<char>) -> bool {
    exists|i: int| marker_at(s, i)
}

/// Position of the first opening brace in `s`, or -1 if there is none.
pub open spec fn first_brace(s: Seq<char>) -> int
    decreases s.len(),
{
    if s.len() == 0 {
        -1
    } else if s[0] == '{' {
        0
    } else {
        let r = first_brace(s.drop_first());
        if r < 0 {
            -1
        } else {
            r + 1
        }
    }
}

/// The event one frame decodes to: undecodable bytes are fatal; a marked
/// frame ends the stream when no brace follows, and otherwise carries a
/// payload read by its named shape; an unmarked non-empty frame is
/// unstructured; an empty one says nothing.
pub open spec fn event_spec(frame: Seq<u8>) -> EventView {
    if !vstd::utf8::valid_utf8(frame) {
        EventView::BadBytes
    } else {
        let s = vstd::utf8::decode_utf8(frame);
        if has_data_marker(s) {
            if first_brace(s) < 0 {
                EventView::StreamEnd
            } else {
                let payload = s.skip(first_brace(s));
                if !json_parses(payload) {
                    EventView::BadPayload(parse_error_text_of(payload))
                } else if payload_has_choices(payload) {
                    match delta_text_of(payload) {
                        Some(t) => EventView::Content(t),
                        None => EventView::Ignored,
                    }
                } else if payload_has_error(payload) {
                    EventView::ProviderError(
                        match error_message_of(payload) {
                            Some(m) => m,
                            None => payload,
                        },
                    )
                } else {
                    EventView::NoChoices(payload)
                }
            }
        } else if s.len() == 0 {
            EventView::Ignored
        } else {
            EventView::Unstructured(s)
        }
    }
}

proof fn lemma_first_brace(s: Seq<char>)
    ensures
        first_brace(s) >= 0 ==> first_brace(s) < s.len() && s[first_brace(s)] == '{'
            && forall|j: int| 0 <= j < first_brace(s) ==> s[j] != '{',
        first_brace(s) < 0 ==> forall|j: int| 0 <= j < s.len() ==> s[j] != '{',
        first_brace(s) >= -1,
    decreases s.len(),
{
    if s.len() == 0 {
    } else if s[0] == '{' {
    } else {
        lemma_first_brace(s.drop_first());
        let t = s.drop_first();
        assert(forall|j: int| 1 <= j < s.len() ==> s[j] == t[j - 1]);
    }
}

fn contains_marker(cs: &Vec<char>) -> (r: bool)
    ensures
        r == has_data_marker(cs@),
{
    if cs.len() < 5 {
        proof {
            assert forall|i: int| !marker_at(cs@, i) by {}
        }
        return false;
    }
    let mut i: usize = 0;
    while i < cs.len() - 4
        invariant
            cs@.len() >= 5,
            i <= cs@.len(),
            forall|j: int| 0 <= j < i ==> !marker_at(cs@, j),
        decreases cs@.len() - i,
    {
        if cs[i] == 'd' && cs[i + 1] == 'a' && cs[i + 2] == 't' && cs[i + 3] == 'a' && cs[i + 4]
            == ':' {
            proof {
                assert(marker_at(cs@, i as int));
            }
            return true;
        }
        i = i + 1;
    }
    proof {
        assert forall|j: int| !marker_at(cs@, j) by {
            if 0 <= j && j + 5 <= cs@.len() {
                assert(j <= cs@.len() - 5);
                assert(j < i);
            }
        }
    }
    false
}

fn find_brace(cs: &Vec<char>) -> (r: Option<usize>)
    ensures
        match r {
            Some(b) => b == first_brace(cs@),
            None => first_brace(cs@) == -1,
        },
{
    proof {
        lemma_first_brace(cs@);
    }
    let mut i: usize = 0;
    while i < cs.len()
        invariant
            i <= cs@.len(),
            forall|j: int| 0 <= j < i ==> cs@[j] != '{',
        decreases cs@.len() - i,
    {
        if cs[i] == '{' {
            proof {
                lemma_first_brace(cs@);
                let fb = first_brace(cs@);
                if fb < 0 {
                    assert(cs@[i as int] != '{');
                } else if fb < i {
                    assert(cs@[fb] != '{');
                } else if fb > i {
                    assert(cs@[i as int] != '{');
                }
            }
            return Some(i);
        }
        i = i + 1;
    }
    proof {
        lemma_first_brace(cs@);
        let fb = first_brace(cs@);
        if fb >= 0 {
            assert(cs@[fb] != '{');
        }
    }
    None
}

/// Decodes one complete frame: the returned event is exactly `event_spec`
/// of the frame bytes.
pub fn decode_frame(frame: &[u8]) -> (ev: Event)
    ensures
        view_of_event(ev) == event_spec(frame@),
{
    match bytes_to_str(frame) {
        None => Event::BadBytes,
        Some(st) => {
            proof {
                vstd::utf8::encode_utf8_decode_utf8(st@);
            }
            let cs = str_to_chars(st);
            if !contains_marker(&cs) {
                if cs.len() == 0 {
                    Event::Ignored
                } else {
                    Event::Unstructured(String::from_str(st))
                }
            } else {
                match find_brace(&cs) {
                    None => Event::StreamEnd,
                    Some(b) => {
                        proof {
                            lemma_first_brace(cs@);
                        }
                        let payload_chars = tail_chars(&cs, b);
                        let payload = chars_to_string(&payload_chars);
                        match read_payload(payload.as_str()) {
                            Payload::Invalid(msg) => Event::BadPayload(msg),
                            Payload::Delta(Some(t)) => Event::Content(t),
                            Payload::Delta(None) => Event::Ignored,
                            Payload::Fault(Some(m)) => Event::ProviderError(m),
                            Payload::Fault(None) => Event::ProviderError(payload),
                            Payload::Other => Event::NoChoices(payload),
                        }
                    },
                }
            }
        },
    }
}

} // verus!
