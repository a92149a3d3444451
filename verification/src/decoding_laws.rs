//! What holds of every capture, as it is decoded and recorded.

use vstd::prelude::*;
use vstd::utf8::{encode_utf8, is_ascii_chars_encode_utf8};

use crate::capture::{
    base64_bytes, capture_record, collected, decode_bytes, decode_capture, decode_entry,
    lemma_collected_fault, lemma_collected_values, record_style, without_done, CaptureError,
    RecordStyle,
};
use crate::config::CaptureConfig;
use crate::json::{json_object, json_of, json_value, members, Json};
use crate::models::ActivityLogEntry;
use crate::reading_laws::{
    all_sent, is_blank, is_white, lemma_keys, lemma_sent, lemma_trimmed_end, sent_bytes,
    trailing_whitespace_is_left_out, Sent,
};
use crate::sse::{all_show, shows, Outcome, Payload, SSEBuffer, SSEError, Stream};
use crate::stream_laws::{chunks_concatenate, in_line, unfinished_line_is_kept};
use crate::text::trimmed_end;

verus! {

/// Whether bytes are a stream and the mark that ends it, with whitespace behind it
/// or none.
pub open spec fn ends_in_mark(bytes: Seq<u8>, stream: Seq<u8>, blank: Seq<u8>) -> bool {
    is_blank(blank) && bytes == stream + encode_utf8("[DONE]"@) + blank
}

proof fn lemma_mark(bytes: Seq<u8>, stream: Seq<u8>, blank: Seq<u8>)
    requires
        ends_in_mark(bytes, stream, blank),
    ensures
        without_done(bytes) == stream,
{
    reveal_strlit("[DONE]");
    is_ascii_chars_encode_utf8("[DONE]"@);
    let done = encode_utf8("[DONE]"@);
    let marked = stream + done;
    assert(done[5] == "[DONE]"@[5] as u8);
    assert(marked.last() == done[5]);
    trailing_whitespace_is_left_out(marked, blank);
    assert(marked.subrange(marked.len() - done.len(), marked.len() as int) =~= done);
    assert(marked.take(marked.len() - done.len()) =~= stream);
}

proof fn lemma_no_mark(bytes: Seq<u8>)
    requires
        forall|stream: Seq<u8>, blank: Seq<u8>| !(#[trigger] ends_in_mark(bytes, stream, blank)),
    ensures
        without_done(bytes) == bytes,
{
    let done = encode_utf8("[DONE]"@);
    let trimmed = trimmed_end(bytes);
    if done.is_suffix_of(trimmed) {
        let blank = lemma_trimmed_end(bytes);
        let stream = trimmed.take(trimmed.len() - done.len());
        assert(trimmed =~= stream + done);
        assert(ends_in_mark(bytes, stream, blank));
    }
}

/// Whatever `decode_bytes` returns on bytes that are no stream is the JSON value that
/// they hold, whatever it is, and an error where they hold none.
pub proof fn json_is_decoded(bytes: &[u8], decoded_as: Result<serde_json::Value, CaptureError>)
    requires
        call_ensures(decode_bytes, (bytes, false), decoded_as),
    ensures
        json_value(bytes@) matches Some(held) ==> (decoded_as matches Ok(value) && json_of(value)
            == held),
        json_value(bytes@) is None ==> decoded_as matches Err(CaptureError::NotJson(_)),
{
    if json_value(bytes@) is None {
        let error = decoded_as->Err_0;
        assert(error@ is NotJson);
    }
}

/// Whatever `decode_bytes` returns on a recorded stream is the array of what
/// `SSEBuffer::process_chunk` returns on the stream without its mark, in the same
/// order, and the first error where there is one.
pub proof fn recorded_stream_is_processed(
    bytes: &[u8],
    stream: &[u8],
    blank: Seq<u8>,
    buffer: SSEBuffer,
    after: SSEBuffer,
    results: Vec<Result<serde_json::Value, SSEError>>,
    decoded_as: Result<serde_json::Value, CaptureError>,
)
    requires
        ends_in_mark(bytes@, stream@, blank) || (bytes@ == stream@ && forall|
            stream: Seq<u8>,
            blank: Seq<u8>,
        | !(#[trigger] ends_in_mark(bytes@, stream, blank))),
        call_ensures(<SSEBuffer as Default>::default, (), buffer),
        exists|b: &mut SSEBuffer|
            *b == buffer && *final(b) == after && #[trigger] call_ensures(
                SSEBuffer::process_chunk::<serde_json::Value>,
                (b, stream),
                results,
            ),
        call_ensures(decode_bytes, (bytes, true), decoded_as),
    ensures
        (forall|i: int| 0 <= i < results@.len() ==> (#[trigger] results@[i]) is Ok) ==> {
            &&& decoded_as matches Ok(value)
            &&& json_of(value) matches Json::Array(items)
            &&& items.len() == results@.len()
            &&& forall|i: int|
                0 <= i < items.len() ==> #[trigger] items[i] == json_of(results@[i]->Ok_0)
        },
        forall|k: int|
            0 <= k < results@.len() && (#[trigger] results@[k]) is Err && (forall|i: int|
                0 <= i < k ==> (#[trigger] results@[i]) is Ok) ==> {
                &&& decoded_as matches Err(CaptureError::NotEvents(error))
                &&& error@ == results@[k]->Err_0@
            },
{
    if ends_in_mark(bytes@, stream@, blank) {
        lemma_mark(bytes@, stream@, blank);
    } else {
        lemma_no_mark(bytes@);
    }
    let outcomes = Stream::start().feed_all::<serde_json::Value>(stream@).1;
    assert(all_show(results@, outcomes));
    if forall|i: int| 0 <= i < results@.len() ==> (#[trigger] results@[i]) is Ok {
        assert forall|i: int| 0 <= i < outcomes.len() implies (#[trigger] outcomes[i]) is Value by {
            assert(shows::<serde_json::Value>(results@[i], outcomes[i]));
        }
        lemma_collected_values(outcomes);
        let items = collected(outcomes)->Ok_0;
        assert forall|i: int| 0 <= i < items.len() implies #[trigger] items[i] == json_of(
            results@[i]->Ok_0,
        ) by {
            assert(shows::<serde_json::Value>(results@[i], outcomes[i]));
        }
    }
    assert forall|k: int|
        0 <= k < results@.len() && (#[trigger] results@[k]) is Err && (forall|i: int|
            0 <= i < k ==> (#[trigger] results@[i]) is Ok) implies {
        &&& decoded_as matches Err(CaptureError::NotEvents(error))
        &&& error@ == results@[k]->Err_0@
    } by {
        assert(shows::<serde_json::Value>(results@[k], outcomes[k]));
        assert forall|i: int| 0 <= i < k implies (#[trigger] outcomes[i]) is Value by {
            assert(shows::<serde_json::Value>(results@[i], outcomes[i]));
        }
        lemma_collected_fault(outcomes, k);
        assert(decoded_as->Err_0@ is NotEvents);
    }
}

/// Whatever `decode_entry` returns, a member that is a string in base64 becomes what
/// `decode_bytes` makes of the bytes that it stands for, and no other member
/// changes. Where there is nothing to be made, nothing changes, and what is wrong is
/// reported: only a missing member, another value than a string, base64 that cannot
/// be read, and what `decode_bytes` reports.
pub proof fn member_becomes_what_it_stands_for(
    before: serde_json::Map<String, serde_json::Value>,
    key: &str,
    as_sse: bool,
    after: serde_json::Map<String, serde_json::Value>,
    entry_decoded: Result<(), CaptureError>,
    bytes: &[u8],
    decoded_as: Result<serde_json::Value, CaptureError>,
)
    requires
        exists|capture: &mut serde_json::Map<String, serde_json::Value>|
            *capture == before && *final(capture) == after && #[trigger] call_ensures(
                decode_entry,
                (capture, key, as_sse),
                entry_decoded,
            ),
        call_ensures(decode_bytes, (bytes, as_sse), decoded_as),
    ensures
        entry_decoded is Err ==> members(after) == members(before),
        !members(before).contains_key(key@) ==> (entry_decoded matches Err(
            CaptureError::MissingField(name),
        ) && name@ == key@),
        members(before).contains_key(key@) ==> match members(before)[key@] {
            Json::Text(encoded) => {
                &&& base64_bytes(encoded) is None ==> (entry_decoded matches Err(
                    CaptureError::NotBase64(_),
                ))
                &&& base64_bytes(encoded) == Some(bytes@) ==> match decoded_as {
                    Ok(value) => {
                        &&& entry_decoded is Ok
                        &&& members(after) == members(before).insert(key@, json_of(value))
                    },
                    Err(error) => entry_decoded matches Err(reported) && reported@ == error@,
                }
            },
            _ => entry_decoded matches Err(CaptureError::NotText(name)) && name@ == key@,
        },
{
    if let Err(error) = entry_decoded {
        if !members(before).contains_key(key@) {
            assert(error@ is MissingField);
        } else if let Json::Text(encoded) = members(before)[key@] {
            if base64_bytes(encoded) is None {
                assert(error@ is NotBase64);
            }
        } else {
            assert(error@ is NotText);
        }
    }
}

/// Whatever `decode_entry` returns on a member that is no stream, a string in base64
/// of any JSON becomes the value of that JSON.
pub proof fn member_in_json_becomes_its_value(
    before: serde_json::Map<String, serde_json::Value>,
    key: &str,
    after: serde_json::Map<String, serde_json::Value>,
    entry_decoded: Result<(), CaptureError>,
    encoded: Seq<char>,
    bytes: Seq<u8>,
    value: Json,
)
    requires
        exists|capture: &mut serde_json::Map<String, serde_json::Value>|
            *capture == before && *final(capture) == after && #[trigger] call_ensures(
                decode_entry,
                (capture, key, false),
                entry_decoded,
            ),
        members(before).contains_key(key@),
        members(before)[key@] == Json::Text(encoded),
        base64_bytes(encoded) == Some(bytes),
        json_value(bytes) == Some(value),
    ensures
        entry_decoded is Ok,
        members(after) == members(before).insert(key@, value),
{
}

/// The bytes that a member stands for, where it is a string in base64.
pub open spec fn member_bytes(fields: Map<Seq<char>, Json>, key: Seq<char>) -> Option<Seq<u8>> {
    if fields.contains_key(key) {
        match fields[key] {
            Json::Text(encoded) => base64_bytes(encoded),
            _ => None,
        }
    } else {
        None
    }
}

/// Whether an error says why a member stands for no bytes.
pub open spec fn blames(error: CaptureError, fields: Map<Seq<char>, Json>, key: Seq<char>) -> bool {
    if !fields.contains_key(key) {
        error matches CaptureError::MissingField(name) && name@ == key
    } else {
        match fields[key] {
            Json::Text(_) => error is NotBase64,
            _ => error matches CaptureError::NotText(name) && name@ == key,
        }
    }
}

/// Whatever `decode_capture` returns, a capture stays as it is unless it is to be
/// decoded. Where it is, the request becomes the JSON that its base64 stands for and
/// the response what `decode_bytes` makes of its stream, and no other member
/// changes. It fails where one of the two cannot be decoded, and nowhere else; the
/// request counts first.
pub proof fn bodies_become_what_they_stand_for(
    capture: serde_json::Map<String, serde_json::Value>,
    decode: bool,
    capture_decoded: Result<serde_json::Map<String, serde_json::Value>, CaptureError>,
    response: &[u8],
    response_as: Result<serde_json::Value, CaptureError>,
)
    requires
        call_ensures(decode_capture, (capture, decode), capture_decoded),
        call_ensures(decode_bytes, (response, true), response_as),
    ensures
        ({
            let fields = members(capture);
            let request_bytes = member_bytes(fields, "req_body"@);
            let response_bytes = member_bytes(fields, "resp_body"@);
            if !decode {
                capture_decoded matches Ok(same) && members(same) == fields
            } else {
                match request_bytes {
                    None => capture_decoded matches Err(error) && blames(
                        error,
                        fields,
                        "req_body"@,
                    ),
                    Some(bytes) => match json_value(bytes) {
                        None => capture_decoded matches Err(CaptureError::NotJson(_)),
                        Some(request) => {
                            &&& response_bytes is None ==> (capture_decoded matches Err(error)
                                && blames(error, fields, "resp_body"@))
                            &&& response_bytes == Some(response@) ==> match response_as {
                                Ok(value) => {
                                    &&& capture_decoded matches Ok(changed)
                                    &&& members(changed) == fields.insert(
                                        "req_body"@,
                                        request,
                                    ).insert("resp_body"@, json_of(value))
                                },
                                Err(error) => capture_decoded matches Err(reported) && reported@
                                    == error@,
                            }
                        },
                    },
                }
            }
        }),
{
    reveal_strlit("req_body");
    reveal_strlit("resp_body");
    assert("req_body"@.len() != "resp_body"@.len());
    if let Err(error) = capture_decoded {
        let fault = error@;
        assert(fault is MissingField ==> error is MissingField);
        assert(fault is NotText ==> error is NotText);
        assert(fault is NotBase64 ==> error is NotBase64);
        assert(fault is NotJson ==> error is NotJson);
    }
}

/// Whatever `capture_record` returns, what was fetched has to be a JSON object, and
/// the record then is the entry, unchanged in every other field, with what
/// `decode_capture` makes of the object, or its error. Without decoding that is the
/// object as it was fetched.
pub proof fn record_holds_what_was_fetched(
    entry: ActivityLogEntry,
    data: &[u8],
    config: CaptureConfig,
    recorded_as: Result<ActivityLogEntry, CaptureError>,
    capture: serde_json::Map<String, serde_json::Value>,
    capture_decoded: Result<serde_json::Map<String, serde_json::Value>, CaptureError>,
)
    requires
        call_ensures(capture_record, (entry, data, &config), recorded_as),
        call_ensures(decode_capture, (capture, config.decode), capture_decoded),
    ensures
        json_object(data@) is None ==> recorded_as matches Err(CaptureError::NotAnObject(_)),
        json_object(data@) is Some && !config.decode ==> {
            &&& recorded_as matches Ok(record)
            &&& record.capture matches Some(held)
            &&& json_object(data@) == Some(members(held))
        },
        json_object(data@) == Some(members(capture)) ==> match capture_decoded {
            Ok(changed) => {
                &&& recorded_as matches Ok(record)
                &&& record.capture matches Some(held)
                &&& members(held) == members(changed)
            },
            Err(error) => recorded_as matches Err(reported) && reported@ == error@,
        },
        recorded_as matches Ok(record) ==> {
            &&& record.id == entry.id
            &&& record.timestamp == entry.timestamp
            &&& record.model == entry.model
            &&& record.req_path == entry.req_path
            &&& record.resp_content_type == entry.resp_content_type
            &&& record.resp_status_code == entry.resp_status_code
            &&& record.tokens == entry.tokens
            &&& record.duration_ms == entry.duration_ms
            &&& record.has_capture == entry.has_capture
        },
{
    if let Err(error) = recorded_as {
        assert(error@ is NotAnObject ==> error is NotAnObject);
    }
}

/// An event whose payload can be read does not end in the mark.
proof fn lemma_unmarked(before: Seq<u8>, event: Sent, stream: Seq<u8>, blank: Seq<u8>)
    requires
        event.is_possible(),
        <serde_json::Value as Payload>::accepts(event.payload),
    ensures
        !ends_in_mark(before + event.bytes(), stream, blank),
{
    let whole = before + event.bytes();
    if ends_in_mark(whole, stream, blank) {
        reveal_strlit("[DONE]");
        is_ascii_chars_encode_utf8("[DONE]"@);
        lemma_keys();
        let done = encode_utf8("[DONE]"@);
        assert(done[4] == "[DONE]"@[4] as u8);
        assert(done[5] == "[DONE]"@[5] as u8);
        let marked = stream + done;
        assert(marked.last() == done[5]);
        assert(marked[marked.len() - 2] == done[4]);
        trailing_whitespace_is_left_out(marked, blank);
        let lead = before + event.name_line() + encode_utf8("data"@) + seq![58u8];
        let trailing = lemma_trimmed_end(event.payload);
        let held = trimmed_end(event.payload);
        let ends = trailing + seq![10u8, 10u8];
        assert forall|i: int| 0 <= i < ends.len() implies is_white(#[trigger] ends[i]) by {
            if i < trailing.len() {
                assert(ends[i] == trailing[i]);
            }
        }
        if held.len() > 0 {
            let shown = lead + event.gap + held;
            assert(whole =~= shown + ends);
            assert(shown.last() == held.last());
            trailing_whitespace_is_left_out(shown, ends);
            if held.len() == 1 {
                if event.gap.len() > 0 {
                    assert(shown[shown.len() - 2] == event.gap[event.gap.len() - 1]);
                } else {
                    assert(shown[shown.len() - 2] == 58);
                }
            } else {
                assert(shown[shown.len() - 2] == held[held.len() - 2]);
            }
        } else {
            if event.payload.len() > 0 {
                assert(event.payload[0] == trailing[0]);
            }
            let gap = event.gap + ends;
            assert forall|i: int| 0 <= i < gap.len() implies is_white(#[trigger] gap[i]) by {
                if i < event.gap.len() {
                    assert(gap[i] == event.gap[i]);
                } else {
                    assert(gap[i] == ends[i - event.gap.len()]);
                }
            }
            assert(whole =~= lead + gap);
            assert(lead.last() == 58);
            trailing_whitespace_is_left_out(lead, gap);
        }
    }
}

/// Whatever `capture_record` returns with decoding, a fetched capture whose request
/// is any JSON in base64 and whose response is any recorded stream of readable
/// events in base64, with the mark at its end or without, is recorded: with the
/// value of the JSON, and with the values of all events in their order.
pub proof fn readable_captures_are_decoded(
    entry: ActivityLogEntry,
    data: &[u8],
    config: CaptureConfig,
    recorded_as: Result<ActivityLogEntry, CaptureError>,
    fields: Map<Seq<char>, Json>,
    request: Seq<u8>,
    events: Seq<Sent>,
    begun: Seq<u8>,
    blank: Seq<u8>,
    tail: Seq<u8>,
)
    requires
        call_ensures(capture_record, (entry, data, &config), recorded_as),
        config.decode,
        json_object(data@) == Some(fields),
        member_bytes(fields, "req_body"@) == Some(request),
        json_value(request) is Some,
        member_bytes(fields, "resp_body"@) == Some(sent_bytes(events) + tail),
        all_sent::<serde_json::Value>(events),
        tail.len() == 0 || (in_line(begun) && ends_in_mark(tail, begun, blank)),
    ensures
        recorded_as matches Ok(record) && record.capture is Some && members(record.capture->0)
            == fields.insert("req_body"@, json_value(request)->0).insert(
            "resp_body"@,
            Json::Array(
                Seq::new(events.len(), |i: int| json_value(events[i].payload)->0),
            ),
        ),
{
    reveal_strlit("req_body");
    reveal_strlit("resp_body");
    assert("req_body"@.len() != "resp_body"@.len());
    let sent = sent_bytes(events);
    let start = Stream::start();
    let left = if tail.len() == 0 {
        Seq::empty()
    } else {
        begun
    };
    assert(without_done(sent + tail) == sent + left) by {
        if tail.len() == 0 {
            assert(sent + tail =~= sent);
            assert(sent + left =~= sent);
            assert forall|stream: Seq<u8>, blank: Seq<u8>| !(#[trigger] ends_in_mark(
                sent,
                stream,
                blank,
            )) by {
                if events.len() > 0 {
                    let last = events[events.len() - 1];
                    lemma_unmarked(sent_bytes(events.drop_last()), last, stream, blank);
                } else {
                    reveal_strlit("[DONE]");
                    is_ascii_chars_encode_utf8("[DONE]"@);
                }
            }
            lemma_no_mark(sent);
        } else {
            assert(sent + tail =~= (sent + begun) + encode_utf8("[DONE]"@) + blank);
            lemma_mark(sent + tail, sent + begun, blank);
        }
    }
    let outcomes = Seq::new(events.len(), |i: int| Outcome::Value(events[i].payload));
    lemma_sent::<serde_json::Value>(events);
    chunks_concatenate::<serde_json::Value>(start, sent, left);
    unfinished_line_is_kept::<serde_json::Value>(start, left);
    assert(outcomes + Seq::<Outcome>::empty() =~= outcomes);
    lemma_collected_values(outcomes);
    let items = Seq::new(events.len(), |i: int| json_value(events[i].payload)->0);
    assert(collected(outcomes)->Ok_0 =~= items) by {
        assert forall|i: int| 0 <= i < items.len() implies collected(outcomes)->Ok_0[i]
            == items[i] by {
            assert(outcomes[i] == Outcome::Value(events[i].payload));
            assert(events[i].is_possible());
        }
    }
}

/// Whatever `record_style` returns, only a record in a file is spread over lines,
/// where the configuration says so, and only one on the standard output ends in a
/// newline.
pub proof fn records_on_the_standard_output_are_lines(
    config: CaptureConfig,
    to_file: bool,
    style: RecordStyle,
)
    requires
        call_ensures(record_style, (&config, to_file), style),
    ensures
        to_file ==> style.pretty == config.pretty && !style.newline,
        !to_file ==> !style.pretty && style.newline,
{
}

} // verus!
