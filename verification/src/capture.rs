//! Captures: the names of their files, and what is recorded of them.

use base64::Engine;
use vstd::prelude::*;
use vstd::utf8::encode_utf8;

use crate::config::CaptureConfig;
use crate::json;
use crate::json::Json;
use crate::models::{ActivityLogEntry, Moment, Timestamp};
use crate::sse::{Fault, Outcome, SSEBuffer, SSEError, Stream};
use crate::text;
use crate::text::{space, trimmed_end};

verus! {

/// The name of the file of a capture: `YYYY-MM-DDTHH-MM_0001.json`.
pub open spec fn file_name(moment: Moment, id: int) -> Seq<char> {
    moment.minute_text() + "_"@ + text::padded_integer(id, 4) + ".json"@
}

/// The name of the file of a capture: `YYYY-MM-DDTHH-MM_0001.json`.
pub fn capture_file_name(ts: &Timestamp, id: i64) -> (r: String)
    ensures
        r@ == file_name(ts@, id as int),
        ts@.in_calendar(),
{
    let mut name = ts.minute_text();
    name.append("_");
    text::push_padded_integer(&mut name, id, 4);
    name.append(".json");
    name
}

/// What is wrong with a capture.
pub enum CaptureFault {
    /// The capture is no JSON object.
    NotAnObject,
    /// A field is missing.
    MissingField(Seq<char>),
    /// A field is no string.
    NotText(Seq<char>),
    /// A field is no base64.
    NotBase64,
    /// A field does not hold JSON.
    NotJson,
    /// A field does not hold events.
    NotEvents(Fault),
}

/// What is wrong with a capture.
#[derive(Debug)]
pub enum CaptureError {
    NotAnObject(serde_json::Error),
    MissingField(String),
    NotText(String),
    NotBase64(base64::DecodeError),
    NotJson(serde_json::Error),
    NotEvents(SSEError),
}

impl View for CaptureError {
    type V = CaptureFault;

    open spec fn view(&self) -> CaptureFault {
        match self {
            CaptureError::NotAnObject(_) => CaptureFault::NotAnObject,
            CaptureError::MissingField(key) => CaptureFault::MissingField(key@),
            CaptureError::NotText(key) => CaptureFault::NotText(key@),
            CaptureError::NotBase64(_) => CaptureFault::NotBase64,
            CaptureError::NotJson(_) => CaptureFault::NotJson,
            CaptureError::NotEvents(error) => CaptureFault::NotEvents(error@),
        }
    }
}

/// The text of a fault in a report, unless an outside error says what is wrong.
pub open spec fn fault_text(fault: CaptureFault) -> Option<Seq<char>> {
    match fault {
        CaptureFault::NotAnObject => None,
        CaptureFault::MissingField(key) => Some("Capture does not have "@ + key + " field"@),
        CaptureFault::NotText(key) => Some("Unable to convert "@ + key + " into string"@),
        CaptureFault::NotBase64 => None,
        CaptureFault::NotJson => Some("decode_entry error"@),
        CaptureFault::NotEvents(fault) => Some(crate::sse::fault_text(fault)),
    }
}

impl CaptureError {
    /// What is reported of the error, unless the outside error that it carries
    /// says what is wrong.
    pub fn message(&self) -> (r: Option<String>)
        ensures
            match fault_text(self@) {
                Some(text) => r matches Some(message) && message@ == text,
                None => r is None,
            },
    {
        match self {
            CaptureError::NotAnObject(_) => None,
            CaptureError::MissingField(key) => {
                let mut message = "Capture does not have ".to_owned();
                message.append(key.as_str());
                message.append(" field");
                Some(message)
            },
            CaptureError::NotText(key) => {
                let mut message = "Unable to convert ".to_owned();
                message.append(key.as_str());
                message.append(" into string");
                Some(message)
            },
            CaptureError::NotBase64(_) => None,
            CaptureError::NotJson(_) => Some("decode_entry error".to_owned()),
            CaptureError::NotEvents(error) => Some(error.message()),
        }
    }
}

/// The reason for which `base64` refuses a text.
#[verifier::external_type_specification]
#[verifier::external_body]
pub struct ExDecodeError(base64::DecodeError);

/// The bytes that the standard engine of `base64` reads from a text, or nothing
/// where it refuses the text.
pub uninterp spec fn base64_bytes(text: Seq<char>) -> Option<Seq<u8>>;

/// Calls `base64::Engine::decode` of `base64::prelude::BASE64_STANDARD`: the
/// result is `base64_bytes` of the text. Which error comes is left unsaid.
#[verifier::external_body]
fn decode_base64(text: &str) -> (r: Result<Vec<u8>, base64::DecodeError>)
    ensures
        r is Ok <==> base64_bytes(text@) is Some,
        r matches Ok(bytes) ==> base64_bytes(text@) == Some(bytes@),
{
    base64::prelude::BASE64_STANDARD.decode(text)
}

/// A recorded stream without the mark that ends it, where it has one.
pub open spec fn without_done(bytes: Seq<u8>) -> Seq<u8> {
    let done = encode_utf8("[DONE]"@);
    let trimmed = trimmed_end(bytes);
    if done.is_suffix_of(trimmed) {
        trimmed.take(trimmed.len() - done.len())
    } else {
        bytes
    }
}

/// The values that a stream gives, or the first fault.
pub open spec fn collected(outcomes: Seq<Outcome>) -> Result<Seq<Json>, Fault>
    decreases outcomes.len(),
{
    if outcomes.len() == 0 {
        Ok(Seq::empty())
    } else {
        match collected(outcomes.drop_last()) {
            Err(fault) => Err(fault),
            Ok(values) => match outcomes.last() {
                Outcome::Value(data) => Ok(values.push(json::json_value(data).unwrap())),
                Outcome::Fault(fault) => Err(fault),
            },
        }
    }
}

/// What the bytes of a field stand for: a JSON value, or the values of the events
/// of a recorded stream.
pub open spec fn decoded(bytes: Seq<u8>, as_sse: bool) -> Result<Json, CaptureFault> {
    if as_sse {
        match collected(
            Stream::start().feed_all::<serde_json::Value>(without_done(bytes)).1,
        ) {
            Ok(values) => Ok(Json::Array(values)),
            Err(fault) => Err(CaptureFault::NotEvents(fault)),
        }
    } else {
        match json::json_value(bytes) {
            Some(value) => Ok(value),
            None => Err(CaptureFault::NotJson),
        }
    }
}

/// What a field of a capture stands for.
pub open spec fn decoded_field(
    capture: Map<Seq<char>, Json>,
    key: Seq<char>,
    as_sse: bool,
) -> Result<Json, CaptureFault> {
    if !capture.contains_key(key) {
        Err(CaptureFault::MissingField(key))
    } else {
        match capture[key] {
            Json::Text(text) => match base64_bytes(text) {
                Some(bytes) => decoded(bytes, as_sse),
                None => Err(CaptureFault::NotBase64),
            },
            _ => Err(CaptureFault::NotText(key)),
        }
    }
}

/// Bytes without the whitespace at their end.
fn trim_end(bytes: &[u8]) -> (r: &[u8])
    ensures
        r@ == trimmed_end(bytes@),
{
    let mut end: usize = bytes.len();
    assert(bytes@.take(end as int) =~= bytes@);
    while end > 0 && space(bytes[end - 1])
        invariant
            end <= bytes@.len(),
            trimmed_end(bytes@) == trimmed_end(bytes@.take(end as int)),
        decreases end,
    {
        assert(bytes@.take(end as int).drop_last() =~= bytes@.take(end - 1));
        end = end - 1;
    }
    assert(bytes@.subrange(0, end as int) =~= bytes@.take(end as int));
    vstd::slice::slice_subrange(bytes, 0, end)
}

/// A recorded stream without the mark that ends it, where it has one.
fn strip_done(bytes: &[u8]) -> (r: &[u8])
    ensures
        r@ == without_done(bytes@),
{
    let done = "[DONE]".as_bytes();
    let trimmed = trim_end(bytes);
    if trimmed.len() >= done.len() {
        let at: usize = trimmed.len() - done.len();
        let tail = vstd::slice::slice_subrange(trimmed, at, trimmed.len());
        if text::same_bytes(tail, done) {
            assert(trimmed@.subrange(0, at as int) =~= trimmed@.take(at as int));
            return vstd::slice::slice_subrange(trimmed, 0, at);
        }
    }
    bytes
}

/// Whether the result at `k` is the first error.
spec fn is_first_error(
    results: Seq<Result<serde_json::Value, SSEError>>,
    k: int,
    error: SSEError,
) -> bool {
    &&& 0 <= k < results.len()
    &&& results[k] == Err::<serde_json::Value, SSEError>(error)
    &&& forall|i: int| 0 <= i < k ==> (#[trigger] results[i]) is Ok
}

/// The values among results, or the first error.
fn collect_values(results: Vec<Result<serde_json::Value, SSEError>>) -> (r: Result<
    Vec<serde_json::Value>,
    SSEError,
>)
    ensures
        match r {
            Ok(values) => values@.len() == results@.len() && forall|i: int|
                0 <= i < results@.len() ==> #[trigger] results@[i] == Ok::<
                    serde_json::Value,
                    SSEError,
                >(values@[i]),
            Err(error) => exists|k: int| #[trigger] is_first_error(results@, k, error),
        },
{
    let mut values: Vec<serde_json::Value> = Vec::new();
    for result in iter: results
        invariant
            iter.seq() == results@,
            values@.len() == iter.index(),
            forall|i: int|
                0 <= i < iter.index() ==> #[trigger] results@[i] == Ok::<
                    serde_json::Value,
                    SSEError,
                >(values@[i]),
    {
        assert(result == results@[iter.index() as int]);
        match result {
            Ok(value) => {
                values.push(value);
            },
            Err(error) => {
                assert(is_first_error(results@, iter.index() as int, error));
                return Err(error);
            },
        }
    }
    Ok(values)
}

pub(crate) proof fn lemma_collected_values(outcomes: Seq<Outcome>)
    requires
        forall|i: int| 0 <= i < outcomes.len() ==> (#[trigger] outcomes[i]) is Value,
    ensures
        collected(outcomes) matches Ok(values) && values.len() == outcomes.len() && forall|i: int|
            0 <= i < outcomes.len() ==> #[trigger] values[i] == json::json_value(
                outcomes[i]->Value_0,
            ).unwrap(),
    decreases outcomes.len(),
{
    if outcomes.len() > 0 {
        let last = outcomes.len() - 1;
        assert(outcomes[last] is Value);
        assert forall|i: int| 0 <= i < last implies (#[trigger] outcomes.drop_last()[i])
            is Value by {
            assert(outcomes[i] is Value);
        }
        lemma_collected_values(outcomes.drop_last());
        let before = collected(outcomes.drop_last())->Ok_0;
        let values = collected(outcomes)->Ok_0;
        assert forall|i: int| 0 <= i < outcomes.len() implies #[trigger] values[i]
            == json::json_value(outcomes[i]->Value_0).unwrap() by {
            if i < last {
                assert(before[i] == json::json_value(outcomes.drop_last()[i]->Value_0).unwrap());
            }
        }
    }
}

pub(crate) proof fn lemma_collected_fault(outcomes: Seq<Outcome>, k: int)
    requires
        0 <= k < outcomes.len(),
        outcomes[k] is Fault,
        forall|i: int| 0 <= i < k ==> (#[trigger] outcomes[i]) is Value,
    ensures
        collected(outcomes) == Err::<Seq<Json>, Fault>(outcomes[k]->Fault_0),
    decreases outcomes.len(),
{
    if k == outcomes.len() - 1 {
        assert forall|i: int| 0 <= i < k implies (#[trigger] outcomes.drop_last()[i]) is Value by {
            assert(outcomes[i] is Value);
        }
        lemma_collected_values(outcomes.drop_last());
    } else {
        assert forall|i: int| 0 <= i < k implies (#[trigger] outcomes.drop_last()[i]) is Value by {
            assert(outcomes[i] is Value);
        }
        lemma_collected_fault(outcomes.drop_last(), k);
    }
}

/// Reads the bytes of a field: a JSON value, or the events of a recorded stream.
pub fn decode_bytes(bytes: &[u8], as_sse: bool) -> (r: Result<serde_json::Value, CaptureError>)
    ensures
        match decoded(bytes@, as_sse) {
            Ok(value) => r matches Ok(r) && json::json_of(r) == value,
            Err(fault) => r matches Err(error) && error@ == fault,
        },
{
    if !as_sse {
        return match json::value_from_slice(bytes) {
            Ok(value) => Ok(value),
            Err(error) => Err(CaptureError::NotJson(error)),
        };
    }
    let body = strip_done(bytes);
    let mut buffer = SSEBuffer::default();
    let results = buffer.process_chunk::<serde_json::Value>(body);
    let ghost outcomes = Stream::start().feed_all::<serde_json::Value>(body@).1;
    match collect_values(results) {
        Ok(values) => {
            proof {
                assert forall|i: int| 0 <= i < outcomes.len() implies (#[trigger] outcomes[i])
                    is Value by {
                    assert(results@[i] is Ok);
                }
                lemma_collected_values(outcomes);
                let models = values@.map_values(|value: serde_json::Value| json::json_of(value));
                assert(models =~= collected(outcomes)->Ok_0) by {
                    assert forall|i: int| 0 <= i < models.len() implies models[i] == collected(
                        outcomes,
                    )->Ok_0[i] by {
                        assert(results@[i] is Ok);
                    }
                }
            }
            Ok(json::array_of(values))
        },
        Err(error) => {
            proof {
                let k = choose|k: int| #[trigger] is_first_error(results@, k, error);
                assert forall|i: int| 0 <= i < k implies (#[trigger] outcomes[i]) is Value by {
                    assert(results@[i] is Ok);
                }
                lemma_collected_fault(outcomes, k);
            }
            Err(CaptureError::NotEvents(error))
        },
    }
}

/// Puts in place of a field what it stands for. Where that cannot be read, the
/// capture stays as it is.
pub fn decode_entry(
    capture: &mut serde_json::Map<String, serde_json::Value>,
    key: &str,
    as_sse: bool,
) -> (r: Result<(), CaptureError>)
    ensures
        match decoded_field(json::members(*old(capture)), key@, as_sse) {
            Ok(value) => r is Ok && json::members(*final(capture)) == json::members(
                *old(capture),
            ).insert(key@, value),
            Err(fault) => r matches Err(error) && error@ == fault && *final(capture) == *old(
                capture,
            ),
        },
{
    let value = match json::member(capture, key) {
        Some(value) => value,
        None => {
            return Err(CaptureError::MissingField(key.to_owned()));
        },
    };
    let text = match json::text_of(value) {
        Some(text) => text,
        None => {
            return Err(CaptureError::NotText(key.to_owned()));
        },
    };
    let bytes = match decode_base64(text) {
        Ok(bytes) => bytes,
        Err(error) => {
            return Err(CaptureError::NotBase64(error));
        },
    };
    match decode_bytes(bytes.as_slice(), as_sse) {
        Ok(value) => {
            json::set_member(capture, key.to_owned(), value);
            Ok(())
        },
        Err(error) => Err(error),
    }
}

/// What is recorded of a capture: the capture as it is, or with its two bodies
/// decoded.
pub open spec fn decoded_capture(capture: Map<Seq<char>, Json>, decode: bool) -> Result<
    Map<Seq<char>, Json>,
    CaptureFault,
> {
    if !decode {
        Ok(capture)
    } else {
        match decoded_field(capture, "req_body"@, false) {
            Err(fault) => Err(fault),
            Ok(request) => {
                let with_request = capture.insert("req_body"@, request);
                match decoded_field(with_request, "resp_body"@, true) {
                    Err(fault) => Err(fault),
                    Ok(response) => Ok(with_request.insert("resp_body"@, response)),
                }
            },
        }
    }
}

/// What is recorded of a capture.
pub fn decode_capture(
    capture: serde_json::Map<String, serde_json::Value>,
    decode: bool,
) -> (r: Result<serde_json::Map<String, serde_json::Value>, CaptureError>)
    ensures
        match decoded_capture(json::members(capture), decode) {
            Ok(fields) => r matches Ok(r) && json::members(r) == fields,
            Err(fault) => r matches Err(error) && error@ == fault,
        },
{
    let mut capture = capture;
    if decode {
        if let Err(error) = decode_entry(&mut capture, "req_body", false) {
            return Err(error);
        }
        if let Err(error) = decode_entry(&mut capture, "resp_body", true) {
            return Err(error);
        }
    }
    Ok(capture)
}

/// What is recorded of the bytes of a capture.
pub open spec fn recorded(data: Seq<u8>, decode: bool) -> Result<
    Map<Seq<char>, Json>,
    CaptureFault,
> {
    match json::json_object(data) {
        Some(capture) => decoded_capture(capture, decode),
        None => Err(CaptureFault::NotAnObject),
    }
}

/// The record of an activity: the entry as it was reported, with its capture.
pub fn capture_record(entry: ActivityLogEntry, data: &[u8], config: &CaptureConfig) -> (r: Result<
    ActivityLogEntry,
    CaptureError,
>)
    ensures
        match recorded(data@, config.decode) {
            Ok(fields) => {
                &&& r matches Ok(record)
                &&& record == (ActivityLogEntry { capture: record.capture, ..entry })
                &&& record.capture matches Some(capture)
                &&& json::members(capture) == fields
            },
            Err(fault) => r matches Err(error) && error@ == fault,
        },
{
    let capture = match json::object_from_slice(data) {
        Ok(capture) => capture,
        Err(error) => {
            return Err(CaptureError::NotAnObject(error));
        },
    };
    match decode_capture(capture, config.decode) {
        Ok(capture) => {
            let mut record = entry;
            record.capture = Some(capture);
            Ok(record)
        },
        Err(error) => Err(error),
    }
}

/// How a record is written.
#[derive(Clone, Copy, Debug, PartialEq, Eq, Structural)]
pub struct RecordStyle {
    /// Whether the JSON is spread over lines.
    pub pretty: bool,
    /// Whether a newline follows the JSON.
    pub newline: bool,
}

/// How a record is written: to a file as the configuration says, and to the
/// standard output as one line.
pub fn record_style(config: &CaptureConfig, to_file: bool) -> (r: RecordStyle)
    ensures
        r.pretty == (to_file && config.pretty),
        r.newline == !to_file,
{
    RecordStyle { pretty: to_file && config.pretty, newline: !to_file }
}

} // verus!
