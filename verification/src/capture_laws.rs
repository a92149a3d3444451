//! What holds of every capture.

use vstd::prelude::*;
use vstd::utf8::{encode_utf8, is_ascii_chars_encode_utf8};

use crate::capture::{
    base64_bytes, collected, decoded, decoded_capture, decoded_field, file_name, without_done,
    CaptureFault,
};
use crate::json::{json_value, Json};
use crate::models::{year_text, Moment};
use crate::sse::{Fault, Outcome, Stream, COLON, NEWLINE};
use crate::stream_laws::{
    all_readable, chunks_concatenate, in_line, key_line, message, messages,
    messages_give_their_payloads, name_line, unfinished_line_is_kept,
};
use crate::text;
use crate::text::{is_space, trimmed_end, trimmed_start};

verus! {

/// Whether two moments lie in the same minute.
pub open spec fn same_minute(left: Moment, right: Moment) -> bool {
    &&& left.year == right.year
    &&& left.month == right.month
    &&& left.day == right.day
    &&& left.hour == right.hour
    &&& left.minute == right.minute
}

/// Whether a character does not stand in a text.
spec fn lacks(characters: Seq<char>, c: char) -> bool {
    forall|i: int| 0 <= i < characters.len() ==> characters[i] != c
}

proof fn lemma_year_text(year: int)
    ensures
        year_text(year).len() > 0,
        lacks(year_text(year), '_'),
        year < 0 <==> year_text(year)[0] == '-',
        year > 9999 <==> year_text(year)[0] == '+',
        0 <= year <= 9999 ==> text::number(year_text(year)) == year,
        year < 0 ==> text::number(year_text(year).drop_first()) == -year,
        year > 9999 ==> text::number(year_text(year).drop_first()) == year,
{
    let size = if year < 0 {
        (-year) as nat
    } else {
        year as nat
    };
    text::padded_reads_back(size, 4);
    let numeral = text::padded(size, 4);
    assert('0' <= numeral[0] <= '9');
    if year < 0 || year > 9999 {
        assert(year_text(year).drop_first() =~= numeral);
        assert forall|i: int| 0 <= i < year_text(year).len() implies year_text(year)[i] != '_' by {
            if i > 0 {
                assert('0' <= numeral[i - 1] <= '9');
            }
        }
    }
}

/// The parts of the text of a moment.
proof fn lemma_minute_text(moment: Moment)
    requires
        moment.in_calendar(),
    ensures
        ({
            let written = moment.minute_text();
            let n = written.len() - 12;
            &&& n > 0
            &&& written.take(n) == year_text(moment.year)
            &&& text::number(written.subrange(n + 1, n + 3)) == moment.month
            &&& text::number(written.subrange(n + 4, n + 6)) == moment.day
            &&& text::number(written.subrange(n + 7, n + 9)) == moment.hour
            &&& text::number(written.subrange(n + 10, n + 12)) == moment.minute
            &&& lacks(written, '_')
        }),
{
    let year = year_text(moment.year);
    let month = text::padded(moment.month as nat, 2);
    let day = text::padded(moment.day as nat, 2);
    let hour = text::padded(moment.hour as nat, 2);
    let minute = text::padded(moment.minute as nat, 2);
    lemma_year_text(moment.year);
    text::padded_reads_back(moment.month as nat, 2);
    text::padded_reads_back(moment.day as nat, 2);
    text::padded_reads_back(moment.hour as nat, 2);
    text::padded_reads_back(moment.minute as nat, 2);
    let written = moment.minute_text();
    let n = year.len() as int;
    assert(written.len() == n + 12);
    assert(written.take(n) =~= year);
    assert(written.subrange(n + 1, n + 3) =~= month);
    assert(written.subrange(n + 4, n + 6) =~= day);
    assert(written.subrange(n + 7, n + 9) =~= hour);
    assert(written.subrange(n + 10, n + 12) =~= minute);
    assert forall|i: int| 0 <= i < written.len() implies written[i] != '_' by {
        if i < n {
            assert(written[i] == year[i]);
        } else if n + 1 <= i < n + 3 {
            assert(written[i] == month[i - n - 1]);
        } else if n + 4 <= i < n + 6 {
            assert(written[i] == day[i - n - 4]);
        } else if n + 7 <= i < n + 9 {
            assert(written[i] == hour[i - n - 7]);
        } else if n + 10 <= i {
            assert(written[i] == minute[i - n - 10]);
        }
    }
}

/// Captures with different ids, or of different minutes, have different files.
pub proof fn file_names_differ(left: Moment, left_id: int, right: Moment, right_id: int)
    requires
        left.in_calendar(),
        right.in_calendar(),
        file_name(left, left_id) == file_name(right, right_id),
    ensures
        left_id == right_id,
        same_minute(left, right),
{
    reveal_strlit("_");
    reveal_strlit(".json");
    lemma_minute_text(left);
    lemma_minute_text(right);
    let name = file_name(left, left_id);
    let first = left.minute_text();
    let second = right.minute_text();
    assert(name[first.len() as int] == '_');
    assert(name[second.len() as int] == '_');
    if first.len() < second.len() {
        assert(name[first.len() as int] == second[first.len() as int]);
    }
    if second.len() < first.len() {
        assert(name[second.len() as int] == first[second.len() as int]);
    }
    assert(first =~= name.take(first.len() as int));
    assert(second =~= name.take(second.len() as int));
    let left_numeral = text::padded_integer(left_id, 4);
    let right_numeral = text::padded_integer(right_id, 4);
    assert(left_numeral =~= name.subrange(first.len() as int + 1, name.len() - 5));
    assert(right_numeral =~= name.subrange(first.len() as int + 1, name.len() - 5));
    text::padded_integers_differ(left_id, right_id, 4);
    lemma_year_text(left.year);
    lemma_year_text(right.year);
}

/// Whether bytes are whitespace only.
pub open spec fn all_space(bytes: Seq<u8>) -> bool {
    forall|i: int| 0 <= i < bytes.len() ==> is_space(#[trigger] bytes[i])
}

proof fn lemma_trimmed_end(bytes: Seq<u8>, spaces: Seq<u8>)
    requires
        all_space(spaces),
    ensures
        trimmed_end(bytes + spaces) == trimmed_end(bytes),
    decreases spaces.len(),
{
    if spaces.len() == 0 {
        assert(bytes + spaces =~= bytes);
    } else {
        let whole = bytes + spaces;
        assert(whole.last() == spaces[spaces.len() - 1]);
        assert(whole.drop_last() =~= bytes + spaces.drop_last());
        lemma_trimmed_end(bytes, spaces.drop_last());
    }
}

/// The mark at the end of a recorded stream is taken off, with the whitespace
/// behind it, and nothing else is.
pub proof fn done_mark_is_taken_off(body: Seq<u8>, spaces: Seq<u8>)
    requires
        all_space(spaces),
    ensures
        without_done(body + encode_utf8("[DONE]"@) + spaces) == body,
{
    reveal_strlit("[DONE]");
    is_ascii_chars_encode_utf8("[DONE]"@);
    let done = encode_utf8("[DONE]"@);
    let marked = body + done;
    assert(done[5] == "[DONE]"@[5] as u8);
    assert(marked.last() == done[5]);
    lemma_trimmed_end(marked, spaces);
    assert(trimmed_end(marked) == marked);
    assert(marked.subrange(marked.len() - done.len(), marked.len() as int) =~= done);
    assert(marked.take(marked.len() - done.len()) =~= body);
}

/// The values of events.
pub open spec fn values(events: Seq<(bool, Seq<u8>)>) -> Seq<Json> {
    events.map_values(|event: (bool, Seq<u8>)| json_value(trimmed_start(event.1)).unwrap())
}

proof fn lemma_collected(events: Seq<(bool, Seq<u8>)>)
    ensures
        collected(events.map_values(|event: (bool, Seq<u8>)| Outcome::Value(trimmed_start(event.1)))) == Ok::<
            Seq<Json>,
            Fault,
        >(values(events)),
    decreases events.len(),
{
    let value = |event: (bool, Seq<u8>)| Outcome::Value(trimmed_start(event.1));
    if events.len() == 0 {
        assert(values(events) =~= Seq::<Json>::empty());
    } else {
        lemma_collected(events.drop_last());
        assert(events.map_values(value).drop_last() =~= events.drop_last().map_values(value));
        assert(values(events) =~= values(events.drop_last()).push(
            json_value(trimmed_start(events.last().1)).unwrap(),
        ));
    }
}

/// Bytes that are not whitespace only keep what stands before them.
proof fn lemma_trimmed_behind(before: Seq<u8>, bytes: Seq<u8>)
    requires
        !all_space(bytes),
    ensures
        trimmed_end(before + bytes) == before + trimmed_end(bytes),
    decreases bytes.len(),
{
    let whole = before + bytes;
    assert(bytes.len() > 0);
    assert(whole.last() == bytes.last());
    if is_space(bytes.last()) {
        assert(whole.drop_last() =~= before + bytes.drop_last());
        assert(!all_space(bytes.drop_last())) by {
            let i = choose|i: int| 0 <= i < bytes.len() && !is_space(#[trigger] bytes[i]);
            assert(bytes.drop_last()[i] == bytes[i]);
        }
        lemma_trimmed_behind(before, bytes.drop_last());
    }
}

/// Bytes are the whitespace at their beginning and what follows it.
proof fn lemma_trimmed_start(bytes: Seq<u8>) -> (spaces: Seq<u8>)
    ensures
        all_space(spaces),
        bytes == spaces + trimmed_start(bytes),
        trimmed_start(bytes).len() > 0 ==> !is_space(trimmed_start(bytes)[0]),
    decreases bytes.len(),
{
    if bytes.len() > 0 && is_space(bytes[0]) {
        let rest = lemma_trimmed_start(bytes.drop_first());
        let spaces = seq![bytes[0]] + rest;
        assert forall|i: int| 0 <= i < spaces.len() implies is_space(#[trigger] spaces[i]) by {
            if i > 0 {
                assert(spaces[i] == rest[i - 1]);
            }
        }
        assert(bytes =~= seq![bytes[0]] + bytes.drop_first());
        assert(bytes =~= spaces + trimmed_start(bytes));
        spaces
    } else {
        assert(bytes =~= Seq::<u8>::empty() + trimmed_start(bytes));
        Seq::empty()
    }
}

/// Whether bytes end in the mark that ends a recorded stream.
pub open spec fn is_marked(bytes: Seq<u8>) -> bool {
    encode_utf8("[DONE]"@).is_suffix_of(trimmed_end(bytes))
}

/// The bytes of the mark.
proof fn lemma_mark()
    ensures
        ({
            let done = encode_utf8("[DONE]"@);
            &&& done.len() == 6
            &&& done[4] == 69
            &&& done[5] == 93
            &&& in_line(done)
        }),
{
    reveal_strlit("[DONE]");
    is_ascii_chars_encode_utf8("[DONE]"@);
    let done = encode_utf8("[DONE]"@);
    assert(forall|i: int| 0 <= i < done.len() ==> done[i] == "[DONE]"@[i] as u8);
}

/// A payload that can be read does not end in the mark, nor does its event.
proof fn lemma_message_is_unmarked(before: Seq<u8>, named: bool, data: Seq<u8>)
    requires
        <serde_json::Value as crate::sse::Payload>::accepts(trimmed_start(data)),
    ensures
        !is_marked(before + message(named, data)),
{
    lemma_mark();
    reveal_strlit("data");
    is_ascii_chars_encode_utf8("data"@);
    let key = encode_utf8("data"@) + seq![COLON];
    let ends = seq![NEWLINE, NEWLINE];
    let head = before + name_line(named);
    let whole = before + message(named, data);
    assert(whole =~= head + (key + (seq![32u8] + data)) + ends);
    lemma_trimmed_end(head + (key + (seq![32u8] + data)), ends);
    let spaces = lemma_trimmed_start(data);
    let payload = trimmed_start(data);
    let gap = seq![32u8] + spaces;
    assert forall|i: int| 0 <= i < gap.len() implies is_space(#[trigger] gap[i]) by {
        if i > 0 {
            assert(gap[i] == spaces[i - 1]);
        }
    }
    let lead = head + key + gap;
    assert(head + (key + (seq![32u8] + data)) =~= lead + payload);
    let end = trimmed_end(whole);
    if payload.len() > 0 {
        assert(!all_space(payload)) by {
            assert(!is_space(payload[0]));
        }
        lemma_trimmed_behind(lead, payload);
        let tail = trimmed_end(payload);
        assert(end == lead + tail);
        if tail.len() == 1 {
            assert(end[end.len() - 2] == gap[gap.len() - 1]);
        }
    } else {
        assert(lead + payload =~= head + key + gap);
        lemma_trimmed_end(head + key, gap);
        assert((head + key).last() == COLON);
        assert(end.last() == COLON);
    }
    if is_marked(whole) {
        let done = encode_utf8("[DONE]"@);
        assert(end.subrange(end.len() - 6, end.len() as int) == done);
        assert(end[end.len() - 1] == done[5]);
        assert(end[end.len() - 2] == done[4]);
    }
}

proof fn lemma_messages_are_unmarked(events: Seq<(bool, Seq<u8>)>, rest: Seq<u8>)
    requires
        all_readable::<serde_json::Value>(events),
        in_line(rest),
        !is_marked(rest),
    ensures
        !is_marked(messages(events) + rest),
{
    let sent = messages(events);
    let done = encode_utf8("[DONE]"@);
    lemma_mark();
    if all_space(rest) {
        lemma_trimmed_end(sent, rest);
        if events.len() > 0 {
            let event = events[events.len() - 1];
            lemma_message_is_unmarked(messages(events.drop_last()), event.0, event.1);
        }
    } else {
        lemma_trimmed_behind(sent, rest);
        let tail = trimmed_end(rest);
        let end = sent + tail;
        if done.is_suffix_of(end) {
            if tail.len() < 6 {
                assert(sent.last() == NEWLINE);
                assert(end.subrange(end.len() - 6, end.len() as int)[5 - tail.len()]
                    == sent.last());
            } else {
                assert(end.subrange(end.len() - 6, end.len() as int) =~= tail.subrange(
                    tail.len() - 6,
                    tail.len() as int,
                ));
            }
        }
    }
}

/// A recorded stream of events stands for the array of their values, in their
/// order. A line that does not end adds nothing, unless it is the mark.
pub proof fn recorded_stream_is_an_array(events: Seq<(bool, Seq<u8>)>, rest: Seq<u8>)
    requires
        all_readable::<serde_json::Value>(events),
        in_line(rest),
        !is_marked(rest),
    ensures
        decoded(messages(events) + rest, true) == Ok::<Json, CaptureFault>(
            Json::Array(values(events)),
        ),
{
    lemma_messages_are_unmarked(events, rest);
    lemma_stream(events, rest);
}

/// A recorded stream with the mark that ends it stands for the same array as
/// without the mark, whether the mark stands alone or begins on a line.
pub proof fn marked_stream_is_an_array(
    events: Seq<(bool, Seq<u8>)>,
    rest: Seq<u8>,
    spaces: Seq<u8>,
)
    requires
        all_readable::<serde_json::Value>(events),
        in_line(rest),
        all_space(spaces),
    ensures
        decoded(messages(events) + rest + encode_utf8("[DONE]"@) + spaces, true) == Ok::<
            Json,
            CaptureFault,
        >(Json::Array(values(events))),
{
    done_mark_is_taken_off(messages(events) + rest, spaces);
    lemma_stream(events, rest);
}

proof fn lemma_stream(events: Seq<(bool, Seq<u8>)>, rest: Seq<u8>)
    requires
        all_readable::<serde_json::Value>(events),
        in_line(rest),
    ensures
        collected(Stream::start().feed_all::<serde_json::Value>(messages(events) + rest).1) == Ok::<
            Seq<Json>,
            Fault,
        >(values(events)),
{
    let outcomes = events.map_values(|event: (bool, Seq<u8>)| Outcome::Value(trimmed_start(event.1)));
    messages_give_their_payloads::<serde_json::Value>(events);
    unfinished_line_is_kept::<serde_json::Value>(Stream::start(), rest);
    chunks_concatenate::<serde_json::Value>(Stream::start(), messages(events), rest);
    assert(outcomes + Seq::<Outcome>::empty() =~= outcomes);
    lemma_collected(events);
}

/// A field that holds a recorded stream in base64 becomes the array of the values
/// of its events, in their order, and the same array whether the stream just ends,
/// or ends in the mark, or in an event whose payload is the mark.
pub proof fn field_of_events_is_an_array(
    capture: Map<Seq<char>, Json>,
    key: Seq<char>,
    encoded: Seq<char>,
    events: Seq<(bool, Seq<u8>)>,
    tail: Seq<u8>,
)
    requires
        capture.contains_key(key),
        capture[key] == Json::Text(encoded),
        base64_bytes(encoded) == Some(messages(events) + tail),
        all_readable::<serde_json::Value>(events),
        tail == Seq::<u8>::empty() || tail == encode_utf8("[DONE]"@) || tail == message(
            false,
            encode_utf8("[DONE]"@),
        ),
    ensures
        decoded_field(capture, key, true) == Ok::<Json, CaptureFault>(Json::Array(values(events))),
{
    let sent = messages(events);
    let done = encode_utf8("[DONE]"@);
    let nothing = Seq::<u8>::empty();
    lemma_mark();
    if tail == nothing {
        recorded_stream_is_an_array(events, nothing);
    } else if tail == done {
        marked_stream_is_an_array(events, nothing, nothing);
        assert(sent + nothing + done + nothing =~= sent + tail);
    } else {
        reveal_strlit("data");
        is_ascii_chars_encode_utf8("data"@);
        let key_bytes = encode_utf8("data"@);
        assert(forall|i: int| 0 <= i < key_bytes.len() ==> key_bytes[i] == "data"@[i] as u8);
        let begun = key_line("data"@, nothing);
        let ends = seq![NEWLINE, NEWLINE];
        assert(in_line(begun));
        marked_stream_is_an_array(events, begun, ends);
        assert(sent + begun + done + ends =~= sent + tail);
    }
}

/// Decoding changes the two bodies of a capture only: no field comes or goes, and
/// the others stay as they are.
pub proof fn decoding_keeps_other_fields(capture: Map<Seq<char>, Json>, decode: bool)
    ensures
        !decode ==> decoded_capture(capture, decode) == Ok::<
            Map<Seq<char>, Json>,
            CaptureFault,
        >(capture),
        decoded_capture(capture, decode) matches Ok(fields) ==> {
            &&& fields.dom() == capture.dom()
            &&& forall|key: Seq<char>|
                key != "req_body"@ && key != "resp_body"@ && capture.contains_key(key)
                    ==> #[trigger] fields[key] == capture[key]
        },
{
    reveal_strlit("req_body");
    reveal_strlit("resp_body");
    if let Ok(fields) = decoded_capture(capture, decode) {
        assert(fields.dom() =~= capture.dom());
    }
}

/// A capture is decoded where both of its bodies can be, each for itself. The
/// request then is the JSON value that its base64 stands for, and the response
/// the array of the values of its events.
pub proof fn bodies_are_decoded(capture: Map<Seq<char>, Json>)
    ensures
        decoded_capture(capture, true) is Ok <==> {
            &&& decoded_field(capture, "req_body"@, false) is Ok
            &&& decoded_field(capture, "resp_body"@, true) is Ok
        },
        decoded_capture(capture, true) matches Ok(fields) ==> {
            &&& capture["req_body"@] matches Json::Text(request)
            &&& base64_bytes(request) matches Some(request_bytes)
            &&& json_value(request_bytes) == Some(fields["req_body"@])
            &&& capture["resp_body"@] matches Json::Text(response)
            &&& base64_bytes(response) matches Some(response_bytes)
            &&& decoded(response_bytes, true) == Ok::<Json, CaptureFault>(fields["resp_body"@])
            &&& fields["resp_body"@] is Array
        },
{
    reveal_strlit("req_body");
    reveal_strlit("resp_body");
    assert("req_body"@.len() != "resp_body"@.len());
}

} // verus!
