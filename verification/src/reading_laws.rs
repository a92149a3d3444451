//! What holds of every line and of every chunk, as they are read.

use vstd::prelude::*;
use vstd::utf8::{
    decode_utf8, encode_utf8, encode_utf8_valid_utf8, is_ascii_chars_encode_utf8, valid_utf8,
};

use crate::json::{json_of, json_value};
use crate::sse::{
    all_show, field, line_step, position, read_line, settle, shows, stream_step, Line,
    Outcome, Payload, SSEBuffer, SSEError, SSEState, Stream, StreamAction, StreamEvent,
};
use crate::stream_laws::{
    chunks_concatenate, given, in_line, lemma_position_after, line_is_read_at_its_end,
    unfinished_line_is_kept,
};
use crate::text::{is_space, trimmed_end, trimmed_start};

verus! {

/// Whether a byte is a tab, a line feed, a form feed, a carriage return or a space.
pub open spec fn is_white(byte: u8) -> bool {
    byte == 9 || byte == 10 || byte == 12 || byte == 13 || byte == 32
}

/// Whether all bytes are whitespace.
pub open spec fn is_blank(bytes: Seq<u8>) -> bool {
    forall|i: int| 0 <= i < bytes.len() ==> is_white(#[trigger] bytes[i])
}

/// Whether bytes do not begin with whitespace.
pub open spec fn begins_dark(bytes: Seq<u8>) -> bool {
    bytes.len() > 0 ==> !is_white(bytes[0])
}

/// Whitespace before bytes that do not begin with any is left out, and nothing
/// else.
pub proof fn leading_whitespace_is_left_out(blank: Seq<u8>, bytes: Seq<u8>)
    requires
        is_blank(blank),
        begins_dark(bytes),
    ensures
        trimmed_start(blank + bytes) == bytes,
    decreases blank.len(),
{
    if blank.len() == 0 {
        assert(blank + bytes =~= bytes);
    } else {
        assert((blank + bytes)[0] == blank[0]);
        assert((blank + bytes).drop_first() =~= blank.drop_first() + bytes);
        leading_whitespace_is_left_out(blank.drop_first(), bytes);
    }
}

/// Whitespace behind bytes that do not end with any is left out, and nothing else.
pub proof fn trailing_whitespace_is_left_out(bytes: Seq<u8>, blank: Seq<u8>)
    requires
        is_blank(blank),
        bytes.len() > 0 ==> !is_white(bytes.last()),
    ensures
        trimmed_end(bytes + blank) == bytes,
    decreases blank.len(),
{
    if blank.len() == 0 {
        assert(bytes + blank =~= bytes);
    } else {
        assert((bytes + blank).last() == blank[blank.len() - 1]);
        assert((bytes + blank).drop_last() =~= bytes + blank.drop_last());
        trailing_whitespace_is_left_out(bytes, blank.drop_last());
    }
}

/// The key of a line is what stands before its first colon, and the value all that
/// stands behind it, without the whitespace at its beginning. No whitespace needs
/// to stand there.
pub proof fn field_is_split_at_its_colon(key: Seq<u8>, blank: Seq<u8>, value: Seq<u8>)
    requires
        forall|i: int| 0 <= i < key.len() ==> key[i] != 58,
        is_blank(blank),
        begins_dark(value),
    ensures
        field(key + seq![58u8] + blank + value) == Some((key, value)),
        field(key + seq![58u8] + value) == Some((key, value)),
{
    lemma_field(key, blank, value);
    lemma_field(key, Seq::empty(), value);
    assert(key + seq![58u8] + Seq::<u8>::empty() + value =~= key + seq![58u8] + value);
}

proof fn lemma_field(key: Seq<u8>, blank: Seq<u8>, value: Seq<u8>)
    requires
        forall|i: int| 0 <= i < key.len() ==> key[i] != 58,
        is_blank(blank),
        begins_dark(value),
    ensures
        field(key + seq![58u8] + blank + value) == Some((key, value)),
{
    let rest = blank + value;
    let line = key + seq![58u8] + blank + value;
    assert(line =~= key + seq![58u8] + rest);
    lemma_position_after(key, 58, rest);
    assert(line.take(key.len() as int) =~= key);
    assert(line.skip(key.len() as int + 1) =~= rest);
    leading_whitespace_is_left_out(blank, value);
}

/// A line in which no byte is a colon has no key.
pub proof fn line_without_a_colon_has_no_key(line: Seq<u8>)
    requires
        forall|i: int| 0 <= i < line.len() ==> line[i] != 58,
    ensures
        field(line) is None,
{
    lemma_no_position(line);
}

proof fn lemma_no_position(line: Seq<u8>)
    requires
        forall|i: int| 0 <= i < line.len() ==> line[i] != 58,
    ensures
        position(line, 58) is None,
    decreases line.len(),
{
    if line.len() > 0 {
        lemma_no_position(line.drop_first());
    }
}

/// Whether two states are the same, payload and all.
pub open spec fn same_state(left: SSEState, right: SSEState) -> bool {
    match (left, right) {
        (SSEState::Idle, SSEState::Idle) => true,
        (SSEState::Collecting, SSEState::Collecting) => true,
        (SSEState::Collected(data), SSEState::Collected(other)) => data@ == other@,
        (SSEState::Skipping, SSEState::Skipping) => true,
        _ => false,
    }
}

/// Whatever `read_line` returns on an empty line, it hands on a payload that was
/// collected, ends an event that is passed over, and reports an event without a
/// payload.
pub proof fn empty_line_is_read(before: SSEState, after: SSEState, line: &[u8], read: Line)
    requires
        line@.len() == 0,
        exists|state: &mut SSEState|
            *state == before && *final(state) == after && #[trigger] call_ensures(
                read_line,
                (state, line),
                read,
            ),
    ensures
        match before {
            SSEState::Collected(_) => read is Payload && same_state(after, before),
            SSEState::Skipping => read is Quiet && after is Idle,
            _ => {
                &&& read matches Line::Fault(SSEError::EmptyLine(state))
                &&& same_state(state, before)
                &&& after is Idle
            },
        },
{
}

/// Whatever `read_line` returns on a line of an event that is passed over, the line
/// gives nothing and changes nothing, whatever it holds.
pub proof fn skipped_line_is_read(before: SSEState, after: SSEState, line: &[u8], read: Line)
    requires
        before is Skipping,
        line@.len() > 0,
        exists|state: &mut SSEState|
            *state == before && *final(state) == after && #[trigger] call_ensures(
                read_line,
                (state, line),
                read,
            ),
    ensures
        read is Quiet,
        after is Skipping,
{
}

/// Whatever `read_line` returns on a line without a colon, the whole line is
/// reported, and nothing changes.
pub proof fn line_without_a_colon_is_read(
    before: SSEState,
    after: SSEState,
    line: &[u8],
    read: Line,
)
    requires
        !(before is Skipping),
        line@.len() > 0,
        forall|i: int| 0 <= i < line@.len() ==> line@[i] != 58,
        exists|state: &mut SSEState|
            *state == before && *final(state) == after && #[trigger] call_ensures(
                read_line,
                (state, line),
                read,
            ),
    ensures
        read matches Line::Fault(SSEError::NoKey(shown)) && shown@ == line@,
        same_state(after, before),
{
    line_without_a_colon_has_no_key(line@);
}

/// Whatever `read_line` returns on a line with a key and a value, the line names an
/// event, holds a payload, or is reported. A value is all that stands behind the
/// colon, less the whitespace at its beginning.
pub proof fn line_with_a_colon_is_read(
    before: SSEState,
    after: SSEState,
    line: &[u8],
    read: Line,
    key: Seq<u8>,
    blank: Seq<u8>,
    value: Seq<u8>,
)
    requires
        !(before is Skipping),
        line@ == key + seq![58u8] + blank + value,
        forall|i: int| 0 <= i < key.len() ==> key[i] != 58,
        is_blank(blank),
        begins_dark(value),
        exists|state: &mut SSEState|
            *state == before && *final(state) == after && #[trigger] call_ensures(
                read_line,
                (state, line),
                read,
            ),
    ensures
        !valid_utf8(key) ==> {
            &&& read matches Line::Fault(SSEError::KeyNotText(_))
            &&& same_state(after, before)
        },
        key == encode_utf8("event"@) ==> if before is Idle {
            &&& read is Quiet
            &&& value == encode_utf8("message"@) ==> after is Collecting
            &&& value != encode_utf8("message"@) ==> after is Skipping
        } else {
            &&& read matches Line::Fault(SSEError::UnexpectedEvent)
            &&& same_state(after, before)
        },
        key == encode_utf8("data"@) ==> match before {
            SSEState::Collected(_) => {
                &&& read matches Line::Fault(SSEError::UnexpectedData(state))
                &&& same_state(state, before)
                &&& same_state(after, before)
            },
            _ => {
                &&& read is Quiet
                &&& after matches SSEState::Collected(data)
                &&& data@ == value
            },
        },
        valid_utf8(key) && key != encode_utf8("event"@) && key != encode_utf8("data"@) ==> {
            &&& read matches Line::Fault(SSEError::UnexpectedKey(name))
            &&& name@ == decode_utf8(key)
            &&& same_state(after, before)
        },
{
    lemma_keys();
    field_is_split_at_its_colon(key, blank, value);
}

pub(crate) proof fn lemma_keys()
    ensures
        valid_utf8(encode_utf8("event"@)),
        valid_utf8(encode_utf8("data"@)),
        encode_utf8("event"@).len() == 5,
        encode_utf8("data"@).len() == 4,
        in_line(encode_utf8("event"@)),
        in_line(encode_utf8("data"@)),
        in_line(encode_utf8("message"@)),
        begins_dark(encode_utf8("message"@)),
        forall|i: int| 0 <= i < 5 ==> encode_utf8("event"@)[i] != 58,
        forall|i: int| 0 <= i < 4 ==> encode_utf8("data"@)[i] != 58,
{
    reveal_strlit("event");
    reveal_strlit("data");
    reveal_strlit("message");
    encode_utf8_valid_utf8("event"@);
    encode_utf8_valid_utf8("data"@);
    is_ascii_chars_encode_utf8("event"@);
    is_ascii_chars_encode_utf8("data"@);
    is_ascii_chars_encode_utf8("message"@);
    assert(forall|i: int| 0 <= i < 5 ==> encode_utf8("event"@)[i] == "event"@[i] as u8);
    assert(forall|i: int| 0 <= i < 4 ==> encode_utf8("data"@)[i] == "data"@[i] as u8);
    assert(forall|i: int| 0 <= i < 7 ==> encode_utf8("message"@)[i] == "message"@[i] as u8);
}

/// Whatever `settle` returns, a payload that was read ends its event, and one that
/// could not be read leaves everything as it is.
pub proof fn payload_is_settled<T>(
    before: SSEState,
    after: SSEState,
    read: Result<T, serde_json::Error>,
    settled: Result<T, SSEError>,
)
    requires
        exists|state: &mut SSEState|
            *state == before && *final(state) == after && #[trigger] call_ensures(
                settle::<T>,
                (state, read),
                settled,
            ),
    ensures
        read matches Ok(value) ==> settled == Ok::<T, SSEError>(value) && after is Idle,
        read matches Err(error) ==> settled == Err::<T, SSEError>(SSEError::BadPayload(error))
            && after == before,
{
}

/// Whatever `SSEBuffer::parse_line` returns is what `read_line` returns on the same
/// line, but that a payload is read as well: one that can be read is given and ends
/// its event, and one that cannot is reported and stays.
pub proof fn line_is_parsed_as_it_is_read<T: Payload>(
    before: SSEState,
    line: &[u8],
    after_read: SSEState,
    read: Line,
    after: SSEState,
    parsed: Result<Option<T>, SSEError>,
)
    requires
        exists|state: &mut SSEState|
            *state == before && *final(state) == after_read && #[trigger] call_ensures(
                read_line,
                (state, line),
                read,
            ),
        exists|state: &mut SSEState|
            *state == before && *final(state) == after && #[trigger] call_ensures(
                SSEBuffer::parse_line::<T>,
                (state, line),
                parsed,
            ),
    ensures
        match read {
            Line::Quiet => (parsed matches Ok(None)) && same_state(after, after_read),
            Line::Fault(error) => {
                &&& parsed matches Err(reported)
                &&& reported@ == error@
                &&& same_state(after, after_read)
            },
            Line::Payload => {
                &&& before matches SSEState::Collected(data)
                &&& line@.len() == 0
                &&& T::accepts(data@) ==> {
                    &&& parsed matches Ok(Some(value))
                    &&& value.stands_for(data@)
                    &&& after is Idle
                }
                &&& !T::accepts(data@) ==> {
                    &&& parsed matches Err(SSEError::BadPayload(_))
                    &&& same_state(after, before)
                }
            },
        },
{
}

/// A JSON payload is read wherever it holds a JSON value, and as that value. (A text
/// that ends in a closing bracket right behind a capital letter holds none.)
pub proof fn json_payloads_are_read(data: Seq<u8>, value: serde_json::Value)
    ensures
        <serde_json::Value as Payload>::accepts(data) ==> json_value(data) is Some,
        json_value(data) is Some && !<serde_json::Value as Payload>::accepts(data) ==> {
            exists|text: Seq<u8>, letter: u8, blank: Seq<u8>|
                65 <= letter <= 90 && is_blank(blank) && data == #[trigger] (text.push(letter).push(
                    93u8,
                ) + blank)
        },
        value.stands_for(data) <==> json_value(data) == Some(json_of(value)),
{
    if json_value(data) is Some && !<serde_json::Value as Payload>::accepts(data) {
        let blank = lemma_trimmed_end(data);
        let end = trimmed_end(data);
        let text = end.take(end.len() - 2);
        let letter = end[end.len() - 2];
        assert(data =~= text.push(letter).push(93u8) + blank);
    }
}

pub(crate) proof fn lemma_trimmed_end(bytes: Seq<u8>) -> (blank: Seq<u8>)
    ensures
        is_blank(blank),
        bytes == trimmed_end(bytes) + blank,
        trimmed_end(bytes).len() > 0 ==> !is_white(trimmed_end(bytes).last()),
    decreases bytes.len(),
{
    if bytes.len() > 0 && is_space(bytes.last()) {
        let blank = lemma_trimmed_end(bytes.drop_last());
        assert(bytes =~= bytes.drop_last().push(bytes.last()));
        assert(bytes =~= trimmed_end(bytes) + blank.push(bytes.last()));
        blank.push(bytes.last())
    } else {
        assert(bytes =~= trimmed_end(bytes) + Seq::<u8>::empty());
        Seq::empty()
    }
}

/// An event with a payload, as a server may send it. The line that names it as a
/// message may be missing, and whitespace may stand behind each colon or not.
pub struct Sent {
    /// The whitespace before the name, where the event is named.
    pub named: Option<Seq<u8>>,
    /// The whitespace before the payload.
    pub gap: Seq<u8>,
    pub payload: Seq<u8>,
}

impl Sent {
    /// Whether the parts are what they are to be, and each stays on its line.
    pub open spec fn is_possible(self) -> bool {
        &&& self.named matches Some(gap) ==> is_blank(gap) && in_line(gap)
        &&& is_blank(self.gap)
        &&& in_line(self.gap)
        &&& begins_dark(self.payload)
        &&& in_line(self.payload)
    }

    /// The line that names the event, with its end, where there is one.
    pub open spec fn name_line(self) -> Seq<u8> {
        match self.named {
            Some(gap) => encode_utf8("event"@) + seq![58u8] + gap + encode_utf8("message"@)
                + seq![10u8],
            None => Seq::empty(),
        }
    }

    /// The bytes of the event.
    pub open spec fn bytes(self) -> Seq<u8> {
        self.name_line() + (encode_utf8("data"@) + seq![58u8] + self.gap + self.payload) + seq![
            10u8,
            10u8,
        ]
    }
}

/// The bytes of events, one after the other.
pub open spec fn sent_bytes(events: Seq<Sent>) -> Seq<u8>
    decreases events.len(),
{
    if events.len() == 0 {
        Seq::empty()
    } else {
        sent_bytes(events.drop_last()) + events.last().bytes()
    }
}

/// Whether all events are possible and hold payloads that can be read.
pub open spec fn all_sent<T: Payload>(events: Seq<Sent>) -> bool {
    forall|i: int|
        0 <= i < events.len() ==> (#[trigger] events[i]).is_possible() && T::accepts(
            events[i].payload,
        )
}

/// An event gives the value of its payload, whatever whitespace stands behind its
/// colons, and the stream stands between two events again.
pub proof fn sent_event_gives_its_payload<T: Payload>(event: Sent)
    requires
        event.is_possible(),
        T::accepts(event.payload),
    ensures
        Stream::start().feed_all::<T>(event.bytes()) == (
            Stream::start(),
            seq![Outcome::Value(event.payload)],
        ),
{
    lemma_keys();
    let start = Stream::start();
    let nothing = Seq::<Outcome>::empty();
    let first = event.name_line();
    let named_stream = start.feed_all::<T>(first).0;
    if let Some(gap) = event.named {
        let name = encode_utf8("message"@);
        let line = encode_utf8("event"@) + seq![58u8] + gap + name;
        lemma_field(encode_utf8("event"@), gap, name);
        assert(in_line(line));
        assert(first =~= line + seq![10u8]);
        line_is_read_at_its_end::<T>(start, line);
        assert(start.line + line =~= line);
    }
    assert(start.feed_all::<T>(first).1 == nothing);
    assert(named_stream.line == Seq::<u8>::empty());
    let second = encode_utf8("data"@) + seq![58u8] + event.gap + event.payload;
    lemma_field(encode_utf8("data"@), event.gap, event.payload);
    assert(in_line(second));
    line_is_read_at_its_end::<T>(named_stream, second);
    assert(named_stream.line + second =~= second);
    chunks_concatenate::<T>(start, first, second + seq![10u8]);
    let both = first + (second + seq![10u8]);
    let middle = start.feed_all::<T>(both).0;
    assert(start.feed_all::<T>(both).1 =~= nothing);
    line_is_read_at_its_end::<T>(middle, Seq::empty());
    assert(Seq::<u8>::empty() + seq![10u8] =~= seq![10u8]);
    assert(middle.line + Seq::<u8>::empty() =~= Seq::<u8>::empty());
    chunks_concatenate::<T>(start, both, seq![10u8]);
    assert(both + seq![10u8] =~= event.bytes());
    let last = given(line_step::<T>(middle.mode, Seq::empty()).1);
    assert(nothing + last =~= last);
}

pub(crate) proof fn lemma_sent<T: Payload>(events: Seq<Sent>)
    requires
        all_sent::<T>(events),
    ensures
        Stream::start().feed_all::<T>(sent_bytes(events)) == (
            Stream::start(),
            Seq::new(events.len(), |i: int| Outcome::Value(events[i].payload)),
        ),
    decreases events.len(),
{
    let given_now = Seq::new(events.len(), |i: int| Outcome::Value(events[i].payload));
    if events.len() == 0 {
        assert(given_now =~= Seq::<Outcome>::empty());
    } else {
        let earlier = events.drop_last();
        let last = events[events.len() - 1];
        assert forall|i: int| 0 <= i < earlier.len() implies (#[trigger] earlier[i]).is_possible()
            && T::accepts(earlier[i].payload) by {
            assert(events[i] == earlier[i]);
        }
        lemma_sent::<T>(earlier);
        sent_event_gives_its_payload::<T>(last);
        chunks_concatenate::<T>(Stream::start(), sent_bytes(earlier), last.bytes());
        assert(given_now =~= Seq::new(
            earlier.len(),
            |i: int| Outcome::Value(earlier[i].payload),
        ) + seq![Outcome::Value(last.payload)]);
    }
}

/// Whatever `SSEBuffer::process_chunk` returns on two chunks of a stream, wherever
/// it is cut, the results are the values of the payloads of its events, each once
/// and in their order, and what `SSEBuffer::parse_line` returns on a line that
/// comes between two events, unless that is nothing. A line that has not ended
/// gives nothing.
pub proof fn chunks_give_their_events<T: Payload>(
    events: Seq<Sent>,
    line: &[u8],
    rest: Seq<u8>,
    buffer: SSEBuffer,
    first: &[u8],
    results: Vec<Result<T, SSEError>>,
    middle: SSEBuffer,
    second: &[u8],
    more: Vec<Result<T, SSEError>>,
    last: SSEBuffer,
    after: SSEState,
    parsed: Result<Option<T>, SSEError>,
)
    requires
        all_sent::<T>(events),
        in_line(line@),
        in_line(rest),
        first@ + second@ == sent_bytes(events) + (line@ + seq![10u8]) + rest,
        call_ensures(<SSEBuffer as Default>::default, (), buffer),
        exists|b: &mut SSEBuffer|
            *b == buffer && *final(b) == middle && #[trigger] call_ensures(
                SSEBuffer::process_chunk::<T>,
                (b, first),
                results,
            ),
        exists|b: &mut SSEBuffer|
            *b == middle && *final(b) == last && #[trigger] call_ensures(
                SSEBuffer::process_chunk::<T>,
                (b, second),
                more,
            ),
        exists|state: &mut SSEState|
            *state == SSEState::Idle && *final(state) == after && #[trigger] call_ensures(
                SSEBuffer::parse_line::<T>,
                (state, line),
                parsed,
            ),
    ensures
        ({
            let all = results@ + more@;
            let n = events.len() as int;
            &&& forall|i: int|
                0 <= i < n ==> (#[trigger] all[i] matches Ok(value) && value.stands_for(
                    events[i].payload,
                ))
            &&& match parsed {
                Ok(None) => all.len() == n,
                Ok(Some(_)) => all.len() == n + 1 && all[n] is Ok,
                Err(error) => all.len() == n + 1 && (all[n] matches Err(shown) && shown@
                    == error@),
            }
        }),
{
    let start = Stream::start();
    let sent = sent_bytes(events);
    let whole = line@ + seq![10u8];
    let n = events.len() as int;
    let payloads = Seq::new(events.len(), |i: int| Outcome::Value(events[i].payload));
    lemma_sent::<T>(events);
    line_is_read_at_its_end::<T>(start, line@);
    assert(start.line + line@ =~= line@);
    chunks_concatenate::<T>(start, sent, whole);
    chunks_concatenate::<T>(start, sent + whole, rest);
    let ended = start.feed_all::<T>(sent + whole).0;
    unfinished_line_is_kept::<T>(ended, rest);
    let outcomes = start.feed_all::<T>(first@ + second@).1;
    let tail = given(line_step::<T>(start.mode, line@).1);
    assert(outcomes =~= payloads + tail);
    chunks_concatenate::<T>(start, first@, second@);
    assert(middle@ == start.feed_all::<T>(first@).0);
    let early = start.feed_all::<T>(first@).1;
    let late = start.feed_all::<T>(first@).0.feed_all::<T>(second@).1;
    assert(all_show(results@, early));
    assert(all_show(more@, late));
    let all = results@ + more@;
    assert(all.len() == outcomes.len());
    assert forall|i: int| 0 <= i < all.len() implies shows::<T>(#[trigger] all[i], outcomes[i]) by {
        if i < early.len() {
            assert(all[i] == results@[i]);
        } else {
            assert(all[i] == more@[i - early.len()]);
        }
    }
    assert forall|i: int| 0 <= i < n implies (#[trigger] all[i] matches Ok(value)
        && value.stands_for(events[i].payload)) by {
        assert(outcomes[i] == payloads[i]);
    }
    if tail.len() > 0 {
        assert(outcomes[n] == tail[0]);
        assert(shows::<T>(all[n], outcomes[n]));
    }
}

/// Whatever `SSEBuffer::process_chunk` returns, a message gives the same whether
/// whitespace stands behind its colons or not: one value, that of its payload.
pub proof fn whitespace_behind_colons_is_immaterial<T: Payload>(
    event: Sent,
    buffer: SSEBuffer,
    chunk: &[u8],
    results: Vec<Result<T, SSEError>>,
    after: SSEBuffer,
)
    requires
        event.is_possible(),
        T::accepts(event.payload),
        chunk@ == event.bytes(),
        call_ensures(<SSEBuffer as Default>::default, (), buffer),
        exists|b: &mut SSEBuffer|
            *b == buffer && *final(b) == after && #[trigger] call_ensures(
                SSEBuffer::process_chunk::<T>,
                (b, chunk),
                results,
            ),
    ensures
        results@.len() == 1,
        results@[0] matches Ok(value) && value.stands_for(event.payload),
        after@ == buffer@,
{
    sent_event_gives_its_payload::<T>(event);
    assert(shows::<T>(results@[0], Outcome::Value(event.payload)));
}

/// Whether two results are of one payload, or report the same.
pub open spec fn same_result<T: Payload>(
    left: Result<T, SSEError>,
    right: Result<T, SSEError>,
) -> bool {
    match (left, right) {
        (Ok(value), Ok(other)) => exists|data: Seq<u8>| #[trigger]
            value.stands_for(data) && other.stands_for(data),
        (Err(error), Err(other)) => error@ == other@,
        _ => false,
    }
}

/// Whether results are those of lines, in their order, without the lines that give
/// nothing.
pub open spec fn collects<T: Payload>(
    results: Seq<Result<T, SSEError>>,
    parsed: Seq<Result<Option<T>, SSEError>>,
) -> bool
    decreases parsed.len(),
{
    if parsed.len() == 0 {
        results.len() == 0
    } else {
        match parsed.last() {
            Ok(None) => collects(results, parsed.drop_last()),
            Ok(Some(value)) => {
                &&& results.len() > 0
                &&& same_result(results.last(), Ok(value))
                &&& collects(results.drop_last(), parsed.drop_last())
            },
            Err(error) => {
                &&& results.len() > 0
                &&& same_result(results.last(), Err(error))
                &&& collects(results.drop_last(), parsed.drop_last())
            },
        }
    }
}

/// The bytes of lines, each with its end.
pub open spec fn line_bytes(lines: Seq<&[u8]>) -> Seq<u8>
    decreases lines.len(),
{
    if lines.len() == 0 {
        Seq::empty()
    } else {
        line_bytes(lines.drop_last()) + (lines.last()@ + seq![10u8])
    }
}

/// Whether a line leads from a state to a state and is parsed so.
spec fn is_parsed<T: Payload>(
    before: SSEState,
    line: &[u8],
    after: SSEState,
    parsed: Result<Option<T>, SSEError>,
) -> bool {
    &&& after@ == line_step::<T>(before@, line@).0
    &&& match line_step::<T>(before@, line@).1 {
        None => parsed matches Ok(None),
        Some(Outcome::Value(data)) => parsed matches Ok(Some(value)) && value.stands_for(data),
        Some(Outcome::Fault(fault)) => parsed matches Err(error) && error@ == fault,
    }
}

proof fn lemma_lines<T: Payload>(
    lines: Seq<&[u8]>,
    states: Seq<SSEState>,
    parsed: Seq<Result<Option<T>, SSEError>>,
    results: Seq<Result<T, SSEError>>,
)
    requires
        states.len() == lines.len() + 1,
        parsed.len() == lines.len(),
        states[0] is Idle,
        forall|i: int| 0 <= i < lines.len() ==> in_line((#[trigger] lines[i])@),
        forall|i: int|
            0 <= i < lines.len() ==> #[trigger] is_parsed(
                states[i],
                lines[i],
                states[i + 1],
                parsed[i],
            ),
        all_show(results, Stream::start().feed_all::<T>(line_bytes(lines)).1),
    ensures
        Stream::start().feed_all::<T>(line_bytes(lines)).0 == (Stream {
            mode: states.last()@,
            line: Seq::empty(),
        }),
        collects(results, parsed),
    decreases lines.len(),
{
    let start = Stream::start();
    if lines.len() > 0 {
        let n = lines.len() - 1;
        let earlier = lines.drop_last();
        let line = lines[n];
        assert(in_line(line@));
        assert(is_parsed(states[n], lines[n], states[n + 1], parsed[n]));
        assert forall|i: int| 0 <= i < earlier.len() implies in_line((#[trigger] earlier[i])@) by {
            assert(earlier[i] == lines[i]);
        }
        assert forall|i: int| 0 <= i < earlier.len() implies #[trigger] is_parsed(
            states.drop_last()[i],
            earlier[i],
            states.drop_last()[i + 1],
            parsed.drop_last()[i],
        ) by {
            assert(is_parsed(states[i], lines[i], states[i + 1], parsed[i]));
        }
        let (before, outcomes) = start.feed_all::<T>(line_bytes(earlier));
        let whole = line@ + seq![10u8];
        chunks_concatenate::<T>(start, line_bytes(earlier), whole);
        line_is_read_at_its_end::<T>(before, line@);
        let tail = before.feed_all::<T>(whole).1;
        let all = start.feed_all::<T>(line_bytes(lines)).1;
        assert(all == outcomes + tail);
        let rest = results.take(outcomes.len() as int);
        assert forall|i: int| 0 <= i < rest.len() implies shows::<T>(
            #[trigger] rest[i],
            outcomes[i],
        ) by {
            assert(shows::<T>(results[i], all[i]));
        }
        lemma_lines(earlier, states.drop_last(), parsed.drop_last(), rest);
        assert(before.line + line@ =~= line@);
        match line_step::<T>(states[n]@, line@).1 {
            None => {
                assert(rest =~= results);
            },
            Some(outcome) => {
                assert(tail.len() == 1);
                assert(all[outcomes.len() as int] == outcome);
                assert(rest =~= results.drop_last());
                assert(shows::<T>(results[results.len() - 1], all[results.len() - 1]));
            },
        }
    } else {
        assert(results.len() == 0);
    }
}

/// Whatever `SSEBuffer::process_chunk` returns on two chunks of a stream, wherever
/// it is cut, the results are what `SSEBuffer::parse_line` returns on its lines, one
/// after the other from the beginning on. A line that has not ended gives nothing.
pub proof fn chunks_are_read_line_by_line<T: Payload>(
    lines: Seq<&[u8]>,
    states: Seq<SSEState>,
    parsed: Seq<Result<Option<T>, SSEError>>,
    rest: Seq<u8>,
    buffer: SSEBuffer,
    first: &[u8],
    results: Vec<Result<T, SSEError>>,
    middle: SSEBuffer,
    second: &[u8],
    more: Vec<Result<T, SSEError>>,
    last: SSEBuffer,
)
    requires
        states.len() == lines.len() + 1,
        parsed.len() == lines.len(),
        states[0] is Idle,
        forall|i: int| 0 <= i < lines.len() ==> in_line((#[trigger] lines[i])@),
        forall|i: int|
            0 <= i < lines.len() ==> exists|state: &mut SSEState|
                *state == states[i] && *final(state) == states[i + 1] && #[trigger] call_ensures(
                    SSEBuffer::parse_line::<T>,
                    (state, #[trigger] lines[i]),
                    parsed[i],
                ),
        in_line(rest),
        first@ + second@ == line_bytes(lines) + rest,
        call_ensures(<SSEBuffer as Default>::default, (), buffer),
        exists|b: &mut SSEBuffer|
            *b == buffer && *final(b) == middle && #[trigger] call_ensures(
                SSEBuffer::process_chunk::<T>,
                (b, first),
                results,
            ),
        exists|b: &mut SSEBuffer|
            *b == middle && *final(b) == last && #[trigger] call_ensures(
                SSEBuffer::process_chunk::<T>,
                (b, second),
                more,
            ),
    ensures
        collects(results@ + more@, parsed),
{
    let start = Stream::start();
    assert forall|i: int| 0 <= i < lines.len() implies #[trigger] is_parsed(
        states[i],
        lines[i],
        states[i + 1],
        parsed[i],
    ) by {
        assert(in_line(lines[i]@));
    }
    let ended = start.feed_all::<T>(line_bytes(lines)).0;
    chunks_concatenate::<T>(start, line_bytes(lines), rest);
    unfinished_line_is_kept::<T>(ended, rest);
    chunks_concatenate::<T>(start, first@, second@);
    let early = start.feed_all::<T>(first@).1;
    let late = start.feed_all::<T>(first@).0.feed_all::<T>(second@).1;
    let outcomes = start.feed_all::<T>(line_bytes(lines)).1;
    assert(outcomes =~= early + late);
    assert(all_show(results@, early));
    assert(all_show(more@, late));
    let all = results@ + more@;
    assert forall|i: int| 0 <= i < all.len() implies shows::<T>(#[trigger] all[i], outcomes[i]) by {
        if i < early.len() {
            assert(all[i] == results@[i]);
        } else {
            assert(all[i] == more@[i - early.len()]);
        }
    }
    lemma_lines(lines, states, parsed, all);
}

/// The bytes of chunks, one after the other.
pub open spec fn joined(chunks: Seq<&[u8]>) -> Seq<u8>
    decreases chunks.len(),
{
    if chunks.len() == 0 {
        Seq::empty()
    } else {
        joined(chunks.drop_last()) + chunks.last()@
    }
}

/// The results of chunks, one after the other.
pub open spec fn joined_results<T>(results: Seq<Vec<Result<T, SSEError>>>) -> Seq<
    Result<T, SSEError>,
>
    decreases results.len(),
{
    if results.len() == 0 {
        Seq::empty()
    } else {
        joined_results(results.drop_last()) + results.last()@
    }
}

/// Whether a chunk leads from a buffer to a buffer, with these results.
spec fn is_processed<T: Payload>(
    before: SSEBuffer,
    chunk: &[u8],
    after: SSEBuffer,
    results: Vec<Result<T, SSEError>>,
) -> bool {
    &&& after@ == before@.feed_all::<T>(chunk@).0
    &&& all_show(results@, before@.feed_all::<T>(chunk@).1)
}

proof fn lemma_chunks<T: Payload>(
    chunks: Seq<&[u8]>,
    buffers: Seq<SSEBuffer>,
    results: Seq<Vec<Result<T, SSEError>>>,
)
    requires
        buffers.len() == chunks.len() + 1,
        results.len() == chunks.len(),
        buffers[0]@ == Stream::start(),
        forall|i: int|
            0 <= i < chunks.len() ==> #[trigger] is_processed(
                buffers[i],
                chunks[i],
                buffers[i + 1],
                results[i],
            ),
    ensures
        buffers.last()@ == Stream::start().feed_all::<T>(joined(chunks)).0,
        all_show(joined_results(results), Stream::start().feed_all::<T>(joined(chunks)).1),
    decreases chunks.len(),
{
    let start = Stream::start();
    if chunks.len() > 0 {
        let n = chunks.len() - 1;
        let earlier = chunks.drop_last();
        assert forall|i: int| 0 <= i < earlier.len() implies #[trigger] is_processed(
            buffers.drop_last()[i],
            earlier[i],
            buffers.drop_last()[i + 1],
            results.drop_last()[i],
        ) by {
            assert(is_processed(buffers[i], chunks[i], buffers[i + 1], results[i]));
        }
        lemma_chunks(earlier, buffers.drop_last(), results.drop_last());
        assert(is_processed(buffers[n], chunks[n], buffers[n + 1], results[n]));
        chunks_concatenate::<T>(start, joined(earlier), chunks[n]@);
        let early = start.feed_all::<T>(joined(earlier)).1;
        let late = buffers[n]@.feed_all::<T>(chunks[n]@).1;
        let outcomes = start.feed_all::<T>(joined(chunks)).1;
        assert(outcomes == early + late);
        let before = joined_results(results.drop_last());
        let all = joined_results(results);
        assert forall|i: int| 0 <= i < all.len() implies shows::<T>(
            #[trigger] all[i],
            outcomes[i],
        ) by {
            if i < early.len() {
                assert(all[i] == before[i]);
            } else {
                assert(all[i] == results[n]@[i - early.len()]);
            }
        }
    }
}

/// Whatever `SSEBuffer::process_chunk` returns on the chunks of a stream, however
/// many they are and wherever it is cut, the results are what
/// `SSEBuffer::parse_line` returns on its lines, one after the other from the
/// beginning on. A line that has not ended gives nothing.
pub proof fn any_chunks_are_read_line_by_line<T: Payload>(
    lines: Seq<&[u8]>,
    states: Seq<SSEState>,
    parsed: Seq<Result<Option<T>, SSEError>>,
    rest: Seq<u8>,
    chunks: Seq<&[u8]>,
    buffers: Seq<SSEBuffer>,
    results: Seq<Vec<Result<T, SSEError>>>,
)
    requires
        states.len() == lines.len() + 1,
        parsed.len() == lines.len(),
        states[0] is Idle,
        forall|i: int| 0 <= i < lines.len() ==> in_line((#[trigger] lines[i])@),
        forall|i: int|
            0 <= i < lines.len() ==> exists|state: &mut SSEState|
                *state == states[i] && *final(state) == states[i + 1] && #[trigger] call_ensures(
                    SSEBuffer::parse_line::<T>,
                    (state, #[trigger] lines[i]),
                    parsed[i],
                ),
        in_line(rest),
        joined(chunks) == line_bytes(lines) + rest,
        buffers.len() == chunks.len() + 1,
        results.len() == chunks.len(),
        call_ensures(<SSEBuffer as Default>::default, (), buffers[0]),
        forall|i: int|
            0 <= i < chunks.len() ==> exists|b: &mut SSEBuffer|
                *b == buffers[i] && *final(b) == buffers[i + 1] && #[trigger] call_ensures(
                    SSEBuffer::process_chunk::<T>,
                    (b, #[trigger] chunks[i]),
                    results[i],
                ),
    ensures
        collects(joined_results(results), parsed),
{
    let start = Stream::start();
    assert forall|i: int| 0 <= i < lines.len() implies #[trigger] is_parsed(
        states[i],
        lines[i],
        states[i + 1],
        parsed[i],
    ) by {
        assert(in_line(lines[i]@));
    }
    assert forall|i: int| 0 <= i < chunks.len() implies #[trigger] is_processed(
        buffers[i],
        chunks[i],
        buffers[i + 1],
        results[i],
    ) by {
        assert(chunks[i]@.len() >= 0);
    }
    lemma_chunks(chunks, buffers, results);
    let ended = start.feed_all::<T>(line_bytes(lines)).0;
    chunks_concatenate::<T>(start, line_bytes(lines), rest);
    unfinished_line_is_kept::<T>(ended, rest);
    let outcomes = start.feed_all::<T>(line_bytes(lines)).1;
    assert(outcomes + Seq::<Outcome>::empty() =~= outcomes);
    lemma_lines(lines, states, parsed, joined_results(results));
}

/// Whatever a copy of a state is, it is the same state.
pub proof fn copied_states_are_the_same(state: SSEState, copy: SSEState)
    requires
        call_ensures(<SSEState as Clone>::clone, (&state,), copy),
    ensures
        same_state(copy, state),
{
}

/// Whatever `stream_step` returns, the end of the stream and a signal to stop finish
/// it, and a failure is reported. Nothing changes then.
pub proof fn stream_goes_on_with_chunks_only<T: Payload>(
    before: SSEBuffer,
    event: StreamEvent,
    after: SSEBuffer,
    action: StreamAction<T>,
)
    requires
        exists|b: &mut SSEBuffer|
            *b == before && *final(b) == after && #[trigger] call_ensures(
                stream_step::<T>,
                (b, event),
                action,
            ),
    ensures
        match event {
            StreamEvent::Chunk(_) => action is Handle,
            StreamEvent::End => action is Finish && after == before,
            StreamEvent::Cancelled => action is Finish && after == before,
            StreamEvent::Failure => action is Fail && after == before,
        },
{
}

/// Whatever `stream_step` returns on a chunk is what `SSEBuffer::process_chunk`
/// returns on it.
pub proof fn stream_step_processes_its_chunk<T: Payload>(
    before: SSEBuffer,
    chunk: &[u8],
    after: SSEBuffer,
    action: StreamAction<T>,
    after_chunk: SSEBuffer,
    results: Vec<Result<T, SSEError>>,
)
    requires
        exists|b: &mut SSEBuffer|
            *b == before && *final(b) == after && #[trigger] call_ensures(
                stream_step::<T>,
                (b, StreamEvent::Chunk(chunk)),
                action,
            ),
        exists|b: &mut SSEBuffer|
            *b == before && *final(b) == after_chunk && #[trigger] call_ensures(
                SSEBuffer::process_chunk::<T>,
                (b, chunk),
                results,
            ),
    ensures
        action matches StreamAction::Handle(handled) && handled@.len() == results@.len()
            && forall|i: int|
            0 <= i < results@.len() ==> same_result(#[trigger] results@[i], handled@[i]),
        after@ == after_chunk@,
{
    let outcomes = before@.feed_all::<T>(chunk@).1;
    if let StreamAction::Handle(handled) = action {
        assert forall|i: int| 0 <= i < results@.len() implies same_result(
            #[trigger] results@[i],
            handled@[i],
        ) by {
            assert(shows::<T>(results@[i], outcomes[i]));
            assert(shows::<T>(handled@[i], outcomes[i]));
        }
    }
}

} // verus!
