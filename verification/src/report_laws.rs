//! What holds of every report.

use vstd::prelude::*;

use crate::capture::CaptureError;
use crate::reading_laws::same_state;
use crate::sse::{SSEError, SSEState};
use crate::text::listed;
use crate::text_laws::{brackets_hold_a_listing, is_bracketed};

verus! {

/// Whether a text names a state, and lists the payload that it holds.
pub open spec fn names_state(text: Seq<char>, state: SSEState) -> bool {
    match state {
        SSEState::Idle => text == "Idle"@,
        SSEState::Collecting => text == "Collecting"@,
        SSEState::Collected(data) => exists|list: Seq<char>| #[trigger]
            is_bracketed(list, data@) && text == "Collected("@ + list + ")"@,
        SSEState::Skipping => text == "Skipping"@,
    }
}

proof fn lemma_state(state: SSEState)
    ensures
        names_state(crate::sse::mode_text(state@), state),
{
    if let SSEState::Collected(data) = state {
        brackets_hold_a_listing(data@);
        let list = "["@ + listed(data@) + "]"@;
        assert(is_bracketed(list, data@));
        assert(crate::sse::mode_text(state@) =~= "Collected("@ + list + ")"@);
    }
}

/// Whatever `SSEError::message` returns says what is wrong, and shows the state, the
/// bytes of the line or the key.
pub proof fn stream_errors_are_reported(error: SSEError, message: String)
    requires
        call_ensures(SSEError::message, (&error,), message),
    ensures
        match error {
            SSEError::EmptyLine(state) => exists|text: Seq<char>| #[trigger]
                names_state(text, state) && message@ == "SSE loop: Unexpected empty line in mode "@
                    + text,
            SSEError::NoKey(line) => exists|list: Seq<char>| #[trigger]
                is_bracketed(list, line@) && message@ == "SSE loop: Unable to parse line "@ + list,
            SSEError::KeyNotText(_) => message@ == "from_utf8(key)"@,
            SSEError::UnexpectedEvent => message@ == "Unexpected 'event'"@,
            SSEError::UnexpectedData(state) => exists|text: Seq<char>| #[trigger]
                names_state(text, state) && message@ == "Unexpected 'data' in state "@ + text,
            SSEError::UnexpectedKey(key) => message@ == "Unexpected key "@ + key@,
            SSEError::BadPayload(_) => message@ == "Error parsing SSEEnvelope"@,
        },
{
    match error {
        SSEError::EmptyLine(state) => {
            lemma_state(state);
        },
        SSEError::UnexpectedData(state) => {
            lemma_state(state);
        },
        SSEError::NoKey(line) => {
            brackets_hold_a_listing(line@);
            let list = "["@ + listed(line@) + "]"@;
            assert(is_bracketed(list, line@));
            assert(message@ =~= "SSE loop: Unable to parse line "@ + list);
        },
        _ => {},
    }
}

/// Whatever `CaptureError::message` returns names the field that is wrong, says what
/// is wrong with its events, or leaves it to the outside error.
pub proof fn capture_errors_are_reported(error: CaptureError, message: Option<String>)
    requires
        call_ensures(CaptureError::message, (&error,), message),
    ensures
        match error {
            CaptureError::NotAnObject(_) => message is None,
            CaptureError::NotBase64(_) => message is None,
            CaptureError::MissingField(key) => message matches Some(message) && message@
                == "Capture does not have "@ + key@ + " field"@,
            CaptureError::NotText(key) => message matches Some(message) && message@
                == "Unable to convert "@ + key@ + " into string"@,
            CaptureError::NotJson(_) => message matches Some(message) && message@
                == "decode_entry error"@,
            CaptureError::NotEvents(_) => message is Some,
        },
{
}

/// Whatever `CaptureError::message` returns on wrong events is what
/// `SSEError::message` returns on their error.
pub proof fn event_errors_are_reported_as_they_are(
    error: SSEError,
    message: Option<String>,
    stream_message: String,
)
    requires
        call_ensures(CaptureError::message, (&CaptureError::NotEvents(error),), message),
        call_ensures(SSEError::message, (&error,), stream_message),
    ensures
        message matches Some(message) && message@ == stream_message@,
{
}

/// Whether two errors of a stream are of one kind and show the same.
pub open spec fn same_stream_error(left: SSEError, right: SSEError) -> bool {
    match (left, right) {
        (SSEError::EmptyLine(state), SSEError::EmptyLine(other)) => same_state(state, other),
        (SSEError::NoKey(line), SSEError::NoKey(other)) => line@ == other@,
        (SSEError::KeyNotText(_), SSEError::KeyNotText(_)) => true,
        (SSEError::UnexpectedEvent, SSEError::UnexpectedEvent) => true,
        (SSEError::UnexpectedData(state), SSEError::UnexpectedData(other)) => same_state(
            state,
            other,
        ),
        (SSEError::UnexpectedKey(key), SSEError::UnexpectedKey(other)) => key@ == other@,
        (SSEError::BadPayload(_), SSEError::BadPayload(_)) => true,
        _ => false,
    }
}

/// What is said of states and of errors tells them apart, but for the outside errors
/// that they carry.
pub proof fn views_tell_stream_errors_apart(
    left: SSEError,
    right: SSEError,
    state: SSEState,
    other_state: SSEState,
)
    ensures
        left@ == right@ <==> same_stream_error(left, right),
        state@ == other_state@ <==> same_state(state, other_state),
{
}

/// What is said of the errors of captures tells them apart, but for the outside
/// errors that they carry.
pub proof fn views_tell_capture_errors_apart(left: CaptureError, right: CaptureError)
    ensures
        left@ == right@ <==> match (left, right) {
            (CaptureError::NotAnObject(_), CaptureError::NotAnObject(_)) => true,
            (CaptureError::MissingField(key), CaptureError::MissingField(other)) => key@
                == other@,
            (CaptureError::NotText(key), CaptureError::NotText(other)) => key@ == other@,
            (CaptureError::NotBase64(_), CaptureError::NotBase64(_)) => true,
            (CaptureError::NotJson(_), CaptureError::NotJson(_)) => true,
            (CaptureError::NotEvents(error), CaptureError::NotEvents(other)) => {
                same_stream_error(error, other)
            },
            _ => false,
        },
{
    if let (CaptureError::NotEvents(error), CaptureError::NotEvents(other)) = (left, right) {
        views_tell_stream_errors_apart(error, other, SSEState::Idle, SSEState::Idle);
    }
}

} // verus!
