//! What holds of every stream of events.

use vstd::prelude::*;
use vstd::utf8::{encode_utf8, encode_utf8_valid_utf8, is_ascii_chars_encode_utf8};

use crate::sse::{
    field, line_step, position, Fault, Mode, Outcome, Payload, Stream, COLON, NEWLINE,
};
use crate::text::trimmed_start;

verus! {

/// Bytes give the same whether they come in one chunk or in two, wherever they
/// are cut.
pub proof fn chunks_concatenate<T: Payload>(stream: Stream, first: Seq<u8>, second: Seq<u8>)
    ensures
        stream.feed_all::<T>(first + second).0 == stream.feed_all::<T>(first).0.feed_all::<T>(second).0,
        stream.feed_all::<T>(first + second).1 == stream.feed_all::<T>(first).1 + stream.feed_all::<T>(
            first,
        ).0.feed_all::<T>(second).1,
    decreases second.len(),
{
    if second.len() == 0 {
        assert(first + second =~= first);
        assert(stream.feed_all::<T>(first).1 + Seq::<Outcome>::empty() =~= stream.feed_all::<T>(first).1);
    } else {
        assert((first + second).drop_last() =~= first + second.drop_last());
        assert((first + second).last() == second.last());
        chunks_concatenate::<T>(stream, first, second.drop_last());
        let middle = stream.feed_all::<T>(first);
        let rest = middle.0.feed_all::<T>(second.drop_last());
        match rest.0.feed::<T>(second.last()).1 {
            Some(outcome) => {
                assert((middle.1 + rest.1).push(outcome) =~= middle.1 + rest.1.push(outcome));
            },
            None => {},
        }
    }
}

/// The stream after chunks that come one after the other, and what they give.
pub open spec fn feed_chunks<T: Payload>(stream: Stream, chunks: Seq<Seq<u8>>) -> (
    Stream,
    Seq<Outcome>,
)
    decreases chunks.len(),
{
    if chunks.len() == 0 {
        (stream, Seq::empty())
    } else {
        let (before, outcomes) = feed_chunks::<T>(stream, chunks.drop_last());
        let (after, more) = before.feed_all::<T>(chunks.last());
        (after, outcomes + more)
    }
}

/// Bytes give the same whatever the chunks are in which they come.
pub proof fn chunking_is_immaterial<T: Payload>(stream: Stream, chunks: Seq<Seq<u8>>)
    ensures
        feed_chunks::<T>(stream, chunks) == stream.feed_all::<T>(chunks.flatten()),
    decreases chunks.len(),
{
    if chunks.len() == 0 {
        assert(chunks.flatten() =~= Seq::<u8>::empty());
    } else {
        chunking_is_immaterial::<T>(stream, chunks.drop_last());
        assert(chunks.flatten() == chunks.drop_last().flatten() + chunks.last()) by {
            chunks.drop_last().lemma_flatten_push(chunks.last());
            assert(chunks.drop_last().push(chunks.last()) =~= chunks);
        }
        chunks_concatenate::<T>(stream, chunks.drop_last().flatten(), chunks.last());
    }
}

/// Whether bytes do not end a line.
pub open spec fn in_line(bytes: Seq<u8>) -> bool {
    forall|i: int| 0 <= i < bytes.len() ==> bytes[i] != NEWLINE
}

/// Bytes that do not end a line give nothing, and are kept.
pub proof fn unfinished_line_is_kept<T: Payload>(stream: Stream, bytes: Seq<u8>)
    requires
        in_line(bytes),
    ensures
        stream.feed_all::<T>(bytes) == (
            Stream { mode: stream.mode, line: stream.line + bytes },
            Seq::<Outcome>::empty(),
        ),
    decreases bytes.len(),
{
    if bytes.len() == 0 {
        assert(stream.line + bytes =~= stream.line);
    } else {
        unfinished_line_is_kept::<T>(stream, bytes.drop_last());
        assert((stream.line + bytes.drop_last()).push(bytes.last()) =~= stream.line + bytes);
    }
}

/// What one outcome or none gives.
pub open spec fn given(outcome: Option<Outcome>) -> Seq<Outcome> {
    match outcome {
        Some(outcome) => seq![outcome],
        None => Seq::empty(),
    }
}

/// A line gives what it says, whatever came before it.
pub proof fn line_is_read_at_its_end<T: Payload>(stream: Stream, line: Seq<u8>)
    requires
        in_line(line),
    ensures
        stream.feed_all::<T>(line + seq![NEWLINE]).0 == (Stream {
            mode: line_step::<T>(stream.mode, stream.line + line).0,
            line: Seq::empty(),
        }),
        stream.feed_all::<T>(line + seq![NEWLINE]).1 == given(
            line_step::<T>(stream.mode, stream.line + line).1,
        ),
{
    unfinished_line_is_kept::<T>(stream, line);
    assert((line + seq![NEWLINE]).drop_last() =~= line);
    assert((line + seq![NEWLINE]).last() == NEWLINE);
    match line_step::<T>(stream.mode, stream.line + line).1 {
        Some(outcome) => {
            assert(Seq::<Outcome>::empty().push(outcome) =~= seq![outcome]);
        },
        None => {},
    }
}

pub(crate) proof fn lemma_position_after(key: Seq<u8>, byte: u8, rest: Seq<u8>)
    requires
        forall|i: int| 0 <= i < key.len() ==> key[i] != byte,
    ensures
        position(key + seq![byte] + rest, byte) == Some(key.len() as int),
    decreases key.len(),
{
    let bytes = key + seq![byte] + rest;
    if key.len() == 0 {
        assert(bytes[0] == byte);
    } else {
        lemma_position_after(key.drop_first(), byte, rest);
        assert(bytes[0] == key[0]);
        assert(bytes.drop_first() =~= key.drop_first() + seq![byte] + rest);
    }
}

/// A line with a key and a value, without its end.
pub open spec fn key_line(key: Seq<char>, value: Seq<u8>) -> Seq<u8> {
    encode_utf8(key) + seq![COLON, 32u8] + value
}

/// A `message` event with a payload, as it stands in a stream. The line that names
/// the event may be missing.
pub open spec fn message(named: bool, data: Seq<u8>) -> Seq<u8> {
    name_line(named) + (key_line("data"@, data) + seq![NEWLINE]) + seq![NEWLINE]
}

/// The line that names a `message` event, where it has one.
pub open spec fn name_line(named: bool) -> Seq<u8> {
    if named {
        key_line("event"@, encode_utf8("message"@)) + seq![NEWLINE]
    } else {
        Seq::empty()
    }
}

proof fn lemma_key_line(key: Seq<char>, value: Seq<u8>)
    requires
        key == "event"@ || key == "data"@,
        in_line(value),
    ensures
        in_line(key_line(key, value)),
        key_line(key, value).len() > 0,
        field(key_line(key, value)) == Some((encode_utf8(key), trimmed_start(value))),
        encode_utf8("event"@) != encode_utf8("data"@),
{
    reveal_strlit("event");
    reveal_strlit("data");
    is_ascii_chars_encode_utf8("event"@);
    is_ascii_chars_encode_utf8("data"@);
    let bytes = encode_utf8(key);
    assert(forall|i: int| 0 <= i < key.len() ==> bytes[i] == key[i] as u8);
    assert(forall|i: int| 0 <= i < bytes.len() ==> bytes[i] != COLON && bytes[i] != NEWLINE);
    let line = key_line(key, value);
    let rest = seq![32u8] + value;
    assert(line =~= bytes + seq![COLON] + rest);
    lemma_position_after(bytes, COLON, rest);
    assert(line.take(bytes.len() as int) =~= bytes);
    assert(line.skip(bytes.len() as int + 1) =~= rest);
    assert(rest.drop_first() =~= value);
}

proof fn lemma_message_name()
    ensures
        in_line(encode_utf8("message"@)),
        trimmed_start(encode_utf8("message"@)) == encode_utf8("message"@),
{
    reveal_strlit("message");
    is_ascii_chars_encode_utf8("message"@);
    let name = encode_utf8("message"@);
    assert(forall|i: int| 0 <= i < name.len() ==> name[i] == "message"@[i] as u8);
}

/// What the empty line at the end of a `message` event makes of its payload.
proof fn lemma_message<T: Payload>(named: bool, data: Seq<u8>)
    requires
        in_line(data),
    ensures
        ({
            let payload = Mode::Collected(trimmed_start(data));
            let (mode, outcome) = line_step::<T>(payload, Seq::empty());
            Stream::start().feed_all::<T>(message(named, data)) == (
                Stream { mode, line: Seq::empty() },
                given(outcome),
            )
        }),
{
    encode_utf8_valid_utf8("event"@);
    encode_utf8_valid_utf8("data"@);
    lemma_message_name();
    lemma_key_line("event"@, encode_utf8("message"@));
    lemma_key_line("data"@, data);
    let nothing = Seq::<Outcome>::empty();
    let start = Stream::start();
    let first = name_line(named);
    let named_stream = start.feed_all::<T>(first).0;
    if named {
        let line = key_line("event"@, encode_utf8("message"@));
        line_is_read_at_its_end::<T>(start, line);
        assert(start.line + line =~= line);
    }
    assert(start.feed_all::<T>(first).1 == nothing);
    assert(named_stream.line == Seq::<u8>::empty());
    let second = key_line("data"@, data);
    line_is_read_at_its_end::<T>(named_stream, second);
    assert(named_stream.line + second =~= second);
    chunks_concatenate::<T>(start, first, second + seq![NEWLINE]);
    let both = first + (second + seq![NEWLINE]);
    let middle = start.feed_all::<T>(both).0;
    let payload = Mode::Collected(trimmed_start(data));
    assert(middle == Stream { mode: payload, line: Seq::empty() });
    assert(start.feed_all::<T>(both).1 =~= nothing);
    line_is_read_at_its_end::<T>(middle, Seq::empty());
    assert(Seq::<u8>::empty() + seq![NEWLINE] =~= seq![NEWLINE]);
    assert(middle.line + Seq::<u8>::empty() =~= Seq::<u8>::empty());
    chunks_concatenate::<T>(start, both, seq![NEWLINE]);
    let last = given(line_step::<T>(payload, Seq::empty()).1);
    assert(nothing + last =~= last);
}

/// A `message` event gives the value of its payload, without the whitespace before
/// it, and nothing else, and the stream stands between two events again.
pub proof fn message_gives_its_payload<T: Payload>(named: bool, data: Seq<u8>)
    requires
        in_line(data),
        T::accepts(trimmed_start(data)),
    ensures
        Stream::start().feed_all::<T>(message(named, data)) == (
            Stream::start(),
            seq![Outcome::Value(trimmed_start(data))],
        ),
{
    lemma_message::<T>(named, data);
}

/// A `message` event with a payload that cannot be read gives one fault, and the
/// stream still stands in the event.
pub proof fn bad_payload_is_a_fault<T: Payload>(named: bool, data: Seq<u8>)
    requires
        in_line(data),
        !T::accepts(trimmed_start(data)),
    ensures
        Stream::start().feed_all::<T>(message(named, data)) == (
            Stream { mode: Mode::Collected(trimmed_start(data)), line: Seq::empty() },
            seq![Outcome::Fault(Fault::BadPayload)],
        ),
{
    lemma_message::<T>(named, data);
}

/// `message` events as they stand in a stream, one after the other.
pub open spec fn messages(events: Seq<(bool, Seq<u8>)>) -> Seq<u8>
    decreases events.len(),
{
    if events.len() == 0 {
        Seq::empty()
    } else {
        messages(events.drop_last()) + message(events.last().0, events.last().1)
    }
}

/// Whether the payloads of all events can stand on a line and be read.
pub open spec fn all_readable<T: Payload>(events: Seq<(bool, Seq<u8>)>) -> bool {
    forall|i: int|
        0 <= i < events.len() ==> in_line((#[trigger] events[i]).1) && T::accepts(
            trimmed_start(events[i].1),
        )
}

/// `message` events give the values of their payloads, each once and in their
/// order.
pub proof fn messages_give_their_payloads<T: Payload>(events: Seq<(bool, Seq<u8>)>)
    requires
        all_readable::<T>(events),
    ensures
        Stream::start().feed_all::<T>(messages(events)) == (
            Stream::start(),
            events.map_values(|event: (bool, Seq<u8>)| Outcome::Value(trimmed_start(event.1))),
        ),
    decreases events.len(),
{
    let value = |event: (bool, Seq<u8>)| Outcome::Value(trimmed_start(event.1));
    if events.len() == 0 {
        assert(events.map_values(value) =~= Seq::<Outcome>::empty());
    } else {
        let (named, data) = events.last();
        assert(events[events.len() - 1] == (named, data));
        assert forall|i: int| 0 <= i < events.len() - 1 implies in_line(
            (#[trigger] events.drop_last()[i]).1,
        ) && T::accepts(trimmed_start(events.drop_last()[i].1)) by {
            assert(events[i] == events.drop_last()[i]);
        }
        messages_give_their_payloads::<T>(events.drop_last());
        message_gives_its_payload::<T>(named, data);
        chunks_concatenate::<T>(
            Stream::start(),
            messages(events.drop_last()),
            message(named, data),
        );
        assert(events.map_values(value) =~= events.drop_last().map_values(value) + seq![
            Outcome::Value(trimmed_start(data)),
        ]);
    }
}

/// Lines as they stand in a stream.
pub open spec fn lines(texts: Seq<Seq<u8>>) -> Seq<u8>
    decreases texts.len(),
{
    if texts.len() == 0 {
        Seq::empty()
    } else {
        lines(texts.drop_last()) + (texts.last() + seq![NEWLINE])
    }
}

proof fn lemma_skipping<T: Payload>(texts: Seq<Seq<u8>>)
    requires
        forall|i: int|
            0 <= i < texts.len() ==> (#[trigger] texts[i]).len() > 0 && in_line(texts[i]),
    ensures
        (Stream { mode: Mode::Skipping, line: Seq::empty() }).feed_all::<T>(lines(texts)) == (
            Stream { mode: Mode::Skipping, line: Seq::empty() },
            Seq::<Outcome>::empty(),
        ),
    decreases texts.len(),
{
    let skipping = Stream { mode: Mode::Skipping, line: Seq::empty() };
    if texts.len() > 0 {
        lemma_skipping::<T>(texts.drop_last());
        line_is_read_at_its_end::<T>(skipping, texts.last());
        assert(skipping.line + texts.last() =~= texts.last());
        chunks_concatenate::<T>(
            skipping,
            lines(texts.drop_last()),
            texts.last() + seq![NEWLINE],
        );
        assert(Seq::<Outcome>::empty() + Seq::<Outcome>::empty() =~= Seq::<Outcome>::empty());
    }
}

/// An event of any other name gives nothing, whatever its lines hold, and the
/// stream stands between two events again.
pub proof fn other_events_are_passed_over<T: Payload>(name: Seq<u8>, texts: Seq<Seq<u8>>)
    requires
        in_line(name),
        trimmed_start(name) != encode_utf8("message"@),
        forall|i: int|
            0 <= i < texts.len() ==> (#[trigger] texts[i]).len() > 0 && in_line(texts[i]),
    ensures
        Stream::start().feed_all::<T>(
            key_line("event"@, name) + seq![NEWLINE] + lines(texts) + seq![NEWLINE],
        ) == (Stream::start(), Seq::<Outcome>::empty()),
{
    let start = Stream::start();
    let first = key_line("event"@, name);
    let skipping = Stream { mode: Mode::Skipping, line: Seq::empty() };
    encode_utf8_valid_utf8("event"@);
    lemma_key_line("event"@, name);
    line_is_read_at_its_end::<T>(start, first);
    assert(start.line + first =~= first);
    lemma_skipping::<T>(texts);
    chunks_concatenate::<T>(start, first + seq![NEWLINE], lines(texts));
    line_is_read_at_its_end::<T>(skipping, Seq::empty());
    assert(Seq::<u8>::empty() + seq![NEWLINE] =~= seq![NEWLINE]);
    assert(skipping.line + Seq::<u8>::empty() =~= Seq::<u8>::empty());
    chunks_concatenate::<T>(start, first + seq![NEWLINE] + lines(texts), seq![NEWLINE]);
    assert(Seq::<Outcome>::empty() + Seq::<Outcome>::empty() =~= Seq::<Outcome>::empty());
}

/// An empty line brings every stream back between two events, but for one whose
/// payload cannot be read.
pub proof fn empty_line_ends_an_event<T: Payload>(mode: Mode)
    ensures
        line_step::<T>(mode, Seq::empty()).0 is Idle <==> !(mode matches Mode::Collected(data)
            && !T::accepts(data)),
{
}

/// Once a payload cannot be read, no bytes bring the stream out of its event: all
/// that they give are faults.
pub proof fn bad_payload_holds_the_stream<T: Payload>(
    line: Seq<u8>,
    data: Seq<u8>,
    bytes: Seq<u8>,
)
    requires
        !T::accepts(data),
    ensures
        ({
            let (stream, outcomes) = (Stream { mode: Mode::Collected(data), line }).feed_all::<T>(bytes);
            &&& stream.mode == Mode::Collected(data)
            &&& forall|i: int| 0 <= i < outcomes.len() ==> (#[trigger] outcomes[i]) is Fault
        }),
    decreases bytes.len(),
{
    if bytes.len() > 0 {
        bad_payload_holds_the_stream::<T>(line, data, bytes.drop_last());
    }
}

} // verus!
