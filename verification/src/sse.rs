//! Server-sent events: lines of bytes, cut anywhere into chunks, and the JSON
//! payloads that they carry.

use vstd::prelude::*;
use vstd::utf8::{decode_utf8, encode_utf8, valid_utf8};

pub use crate::connection::backoff_delay;
use crate::json;
use crate::text;
use crate::text::{same_bytes, space, trimmed_start};

verus! {

/// The byte that ends a line.
pub const NEWLINE: u8 = 10;

/// The byte that ends the key of a line.
pub const COLON: u8 = 58;

/// A value that is read from the payload of an event, and from nothing else.
///
/// Where a type does not say how, its values are read by some function of the
/// payload, of which nothing more is known.
pub trait Payload: Sized {
    /// Whether a payload can be read.
    open spec fn accepts(data: Seq<u8>) -> bool {
        let read: spec_fn(Seq<u8>) -> Option<Self> = vstd::pervasive::arbitrary();
        read(data) is Some
    }

    /// Whether this value is what a payload stands for.
    open spec fn stands_for(self, data: Seq<u8>) -> bool {
        let read: spec_fn(Seq<u8>) -> Option<Self> = vstd::pervasive::arbitrary();
        read(data) == Some(self)
    }

    /// Reads a payload.
    fn decode(data: &[u8]) -> (r: Result<Self, serde_json::Error>)
        ensures
            r is Ok <==> Self::accepts(data@),
            r matches Ok(value) ==> value.stands_for(data@),
    ;
}

impl Payload for serde_json::Value {
    /// A JSON text, which never ends in a closing bracket directly behind a capital
    /// letter.
    open spec fn accepts(data: Seq<u8>) -> bool {
        json::json_value(data) is Some && !json::ends_behind_a_capital(data)
    }

    open spec fn stands_for(self, data: Seq<u8>) -> bool {
        json::json_value(data) == Some(json::json_of(self))
    }

    fn decode(data: &[u8]) -> (r: Result<Self, serde_json::Error>) {
        json::value_from_slice(data)
    }
}

/// Where in an event a stream stands.
pub enum Mode {
    /// Between two events.
    Idle,
    /// In an event to be read, before its payload.
    Collecting,
    /// In an event to be read, behind its payload.
    Collected(Seq<u8>),
    /// In an event that is passed over.
    Skipping,
}

/// Where in an event a stream stands.
#[derive(Debug)]
pub enum SSEState {
    Idle,
    Collecting,
    Collected(Vec<u8>),
    Skipping,
}

impl View for SSEState {
    type V = Mode;

    open spec fn view(&self) -> Mode {
        match self {
            SSEState::Idle => Mode::Idle,
            SSEState::Collecting => Mode::Collecting,
            SSEState::Collected(data) => Mode::Collected(data@),
            SSEState::Skipping => Mode::Skipping,
        }
    }
}

impl Clone for SSEState {
    fn clone(&self) -> (r: Self)
        ensures
            r@ == self@,
    {
        match self {
            SSEState::Idle => SSEState::Idle,
            SSEState::Collecting => SSEState::Collecting,
            SSEState::Collected(data) => SSEState::Collected(copied(data.as_slice())),
            SSEState::Skipping => SSEState::Skipping,
        }
    }
}

/// What is wrong with a line.
pub enum Fault {
    /// An event ends that has no payload.
    EmptyLine(Mode),
    /// A line without a colon.
    NoKey(Seq<u8>),
    /// A key that is no text.
    KeyNotText,
    /// An event begins inside another one.
    UnexpectedEvent,
    /// A second payload.
    UnexpectedData(Mode),
    /// A key other than `event` and `data`.
    UnexpectedKey(Seq<char>),
    /// A payload that cannot be read.
    BadPayload,
}

/// What is wrong with a line.
#[derive(Debug)]
pub enum SSEError {
    EmptyLine(SSEState),
    NoKey(Vec<u8>),
    KeyNotText(std::str::Utf8Error),
    UnexpectedEvent,
    UnexpectedData(SSEState),
    UnexpectedKey(String),
    BadPayload(serde_json::Error),
}

impl View for SSEError {
    type V = Fault;

    open spec fn view(&self) -> Fault {
        match self {
            SSEError::EmptyLine(state) => Fault::EmptyLine(state@),
            SSEError::NoKey(line) => Fault::NoKey(line@),
            SSEError::KeyNotText(_) => Fault::KeyNotText,
            SSEError::UnexpectedEvent => Fault::UnexpectedEvent,
            SSEError::UnexpectedData(state) => Fault::UnexpectedData(state@),
            SSEError::UnexpectedKey(key) => Fault::UnexpectedKey(key@),
            SSEError::BadPayload(_) => Fault::BadPayload,
        }
    }
}

/// The text of a mode in a report.
pub open spec fn mode_text(mode: Mode) -> Seq<char> {
    match mode {
        Mode::Idle => "Idle"@,
        Mode::Collecting => "Collecting"@,
        Mode::Collected(data) => "Collected("@ + "["@ + text::listed(data) + "]"@ + ")"@,
        Mode::Skipping => "Skipping"@,
    }
}

/// The text of a fault in a report.
pub open spec fn fault_text(fault: Fault) -> Seq<char> {
    match fault {
        Fault::EmptyLine(mode) => "SSE loop: Unexpected empty line in mode "@ + mode_text(mode),
        Fault::NoKey(line) => "SSE loop: Unable to parse line "@ + "["@ + text::listed(line)
            + "]"@,
        Fault::KeyNotText => "from_utf8(key)"@,
        Fault::UnexpectedEvent => "Unexpected 'event'"@,
        Fault::UnexpectedData(mode) => "Unexpected 'data' in state "@ + mode_text(mode),
        Fault::UnexpectedKey(key) => "Unexpected key "@ + key,
        Fault::BadPayload => "Error parsing SSEEnvelope"@,
    }
}

/// Appends the text of a state.
fn push_state(out: &mut String, state: &SSEState)
    ensures
        final(out)@ == old(out)@ + mode_text(state@),
{
    match state {
        SSEState::Idle => {
            out.append("Idle");
        },
        SSEState::Collecting => {
            out.append("Collecting");
        },
        SSEState::Collected(data) => {
            out.append("Collected(");
            text::push_list(out, data.as_slice());
            out.append(")");
            assert(out@ =~= old(out)@ + mode_text(state@));
        },
        SSEState::Skipping => {
            out.append("Skipping");
        },
    }
}

impl SSEError {
    /// What is reported of the error.
    pub fn message(&self) -> (r: String)
        ensures
            r@ == fault_text(self@),
    {
        match self {
            SSEError::EmptyLine(state) => {
                let mut message = "SSE loop: Unexpected empty line in mode ".to_owned();
                push_state(&mut message, state);
                message
            },
            SSEError::NoKey(line) => {
                let mut message = "SSE loop: Unable to parse line ".to_owned();
                text::push_list(&mut message, line.as_slice());
                message
            },
            SSEError::KeyNotText(_) => "from_utf8(key)".to_owned(),
            SSEError::UnexpectedEvent => "Unexpected 'event'".to_owned(),
            SSEError::UnexpectedData(state) => {
                let mut message = "Unexpected 'data' in state ".to_owned();
                push_state(&mut message, state);
                message
            },
            SSEError::UnexpectedKey(key) => {
                let mut message = "Unexpected key ".to_owned();
                message.append(key.as_str());
                message
            },
            SSEError::BadPayload(_) => "Error parsing SSEEnvelope".to_owned(),
        }
    }
}

/// Why bytes are no UTF-8.
#[verifier::external_type_specification]
#[verifier::external_body]
pub struct ExUtf8Error(std::str::Utf8Error);

/// `std::str::from_utf8` gives the text that the bytes encode, and fails exactly
/// where they are no UTF-8.
pub assume_specification[ std::str::from_utf8 ](bytes: &[u8]) -> (r: Result<
    &str,
    std::str::Utf8Error,
>)
    ensures
        r is Ok <==> valid_utf8(bytes@),
        r matches Ok(text) ==> text@ == decode_utf8(bytes@),
;

/// Where a byte first stands.
pub open spec fn position(bytes: Seq<u8>, byte: u8) -> Option<int>
    decreases bytes.len(),
{
    if bytes.len() == 0 {
        None
    } else if bytes[0] == byte {
        Some(0)
    } else {
        match position(bytes.drop_first(), byte) {
            Some(at) => Some(at + 1),
            None => None,
        }
    }
}

/// The key of a line and its value, where the line has a colon.
pub open spec fn field(line: Seq<u8>) -> Option<(Seq<u8>, Seq<u8>)> {
    match position(line, COLON) {
        Some(at) => Some((line.take(at), trimmed_start(line.skip(at + 1)))),
        None => None,
    }
}

/// What a line gives.
pub enum LineEvent {
    /// Nothing yet.
    Quiet,
    /// The payload of an event that ends.
    Payload(Seq<u8>),
    /// A fault.
    Fault(Fault),
}

/// Where the stream stands after a line, before the payload that the line gives
/// is read, and what the line gives.
pub open spec fn line_read(mode: Mode, line: Seq<u8>) -> (Mode, LineEvent) {
    if line.len() == 0 {
        match mode {
            Mode::Collected(data) => (mode, LineEvent::Payload(data)),
            Mode::Skipping => (Mode::Idle, LineEvent::Quiet),
            _ => (Mode::Idle, LineEvent::Fault(Fault::EmptyLine(mode))),
        }
    } else if mode is Skipping {
        (mode, LineEvent::Quiet)
    } else {
        match field(line) {
            None => (mode, LineEvent::Fault(Fault::NoKey(line))),
            Some((key, value)) => if !valid_utf8(key) {
                (mode, LineEvent::Fault(Fault::KeyNotText))
            } else if key == encode_utf8("event"@) {
                if mode is Idle {
                    if value == encode_utf8("message"@) {
                        (Mode::Collecting, LineEvent::Quiet)
                    } else {
                        (Mode::Skipping, LineEvent::Quiet)
                    }
                } else {
                    (mode, LineEvent::Fault(Fault::UnexpectedEvent))
                }
            } else if key == encode_utf8("data"@) {
                match mode {
                    Mode::Collected(_) => (mode, LineEvent::Fault(Fault::UnexpectedData(mode))),
                    _ => (Mode::Collected(value), LineEvent::Quiet),
                }
            } else {
                (mode, LineEvent::Fault(Fault::UnexpectedKey(decode_utf8(key))))
            },
        }
    }
}

/// What a line gives once its payload is read.
pub enum Outcome {
    /// The value that a payload stands for.
    Value(Seq<u8>),
    /// A fault.
    Fault(Fault),
}

/// Where the stream stands after a line, and what the line gives. A payload that
/// cannot be read leaves the stream where it is.
pub open spec fn line_step<T: Payload>(mode: Mode, line: Seq<u8>) -> (Mode, Option<Outcome>) {
    let (after, event) = line_read(mode, line);
    match event {
        LineEvent::Quiet => (after, None),
        LineEvent::Fault(fault) => (after, Some(Outcome::Fault(fault))),
        LineEvent::Payload(data) => if T::accepts(data) {
            (Mode::Idle, Some(Outcome::Value(data)))
        } else {
            (after, Some(Outcome::Fault(Fault::BadPayload)))
        },
    }
}

/// Whether a result is what a line gives.
pub open spec fn shows<T: Payload>(result: Result<T, SSEError>, outcome: Outcome) -> bool {
    match outcome {
        Outcome::Value(data) => result matches Ok(value) && value.stands_for(data),
        Outcome::Fault(fault) => result matches Err(error) && error@ == fault,
    }
}

/// What a line gives, before its payload is read.
pub enum Line {
    Quiet,
    /// The payload is the one that was collected.
    Payload,
    Fault(SSEError),
}

/// Whether a line gives an event.
pub open spec fn gives(line: Line, event: LineEvent) -> bool {
    match event {
        LineEvent::Quiet => line is Quiet,
        LineEvent::Payload(_) => line is Payload,
        LineEvent::Fault(fault) => line matches Line::Fault(error) && error@ == fault,
    }
}

proof fn lemma_position_some(bytes: Seq<u8>, byte: u8, at: int)
    requires
        0 <= at < bytes.len(),
        bytes[at] == byte,
        forall|j: int| 0 <= j < at ==> bytes[j] != byte,
    ensures
        position(bytes, byte) == Some(at),
    decreases at,
{
    if at > 0 {
        assert(forall|j: int| 0 <= j < at - 1 ==> bytes.drop_first()[j] == bytes[j + 1]);
        lemma_position_some(bytes.drop_first(), byte, at - 1);
    }
}

proof fn lemma_position_none(bytes: Seq<u8>, byte: u8)
    requires
        forall|j: int| 0 <= j < bytes.len() ==> bytes[j] != byte,
    ensures
        position(bytes, byte) is None,
    decreases bytes.len(),
{
    if bytes.len() > 0 {
        lemma_position_none(bytes.drop_first(), byte);
    }
}

/// A copy of bytes.
fn copied(bytes: &[u8]) -> (r: Vec<u8>)
    ensures
        r@ == bytes@,
{
    let mut copy: Vec<u8> = Vec::new();
    copy.extend_from_slice(bytes);
    assert(copy@ =~= bytes@);
    copy
}

/// Where a byte first stands.
fn find(bytes: &[u8], byte: u8) -> (r: Option<usize>)
    ensures
        match r {
            Some(at) => at < bytes@.len() && position(bytes@, byte) == Some(at as int),
            None => position(bytes@, byte) is None,
        },
{
    let mut i: usize = 0;
    while i < bytes.len()
        invariant
            i <= bytes@.len(),
            forall|j: int| 0 <= j < i ==> bytes@[j] != byte,
        decreases bytes@.len() - i,
    {
        if bytes[i] == byte {
            proof {
                lemma_position_some(bytes@, byte, i as int);
            }
            return Some(i);
        }
        i = i + 1;
    }
    proof {
        lemma_position_none(bytes@, byte);
    }
    None
}

/// Bytes without the whitespace at their beginning.
fn trim_start(bytes: &[u8]) -> (r: &[u8])
    ensures
        r@ == trimmed_start(bytes@),
{
    let mut i: usize = 0;
    assert(bytes@.skip(0) =~= bytes@);
    while i < bytes.len() && space(bytes[i])
        invariant
            i <= bytes@.len(),
            trimmed_start(bytes@) == trimmed_start(bytes@.skip(i as int)),
        decreases bytes@.len() - i,
    {
        assert(bytes@.skip(i as int).drop_first() =~= bytes@.skip(i + 1));
        i = i + 1;
    }
    assert(bytes@.subrange(i as int, bytes@.len() as int) =~= bytes@.skip(i as int));
    vstd::slice::slice_subrange(bytes, i, bytes.len())
}

/// Reads a line, up to the payload that it may give.
pub fn read_line(state: &mut SSEState, line: &[u8]) -> (r: Line)
    ensures
        final(state)@ == line_read(old(state)@, line@).0,
        gives(r, line_read(old(state)@, line@).1),
{
    if line.len() == 0 {
        return match state {
            SSEState::Collected(_) => Line::Payload,
            SSEState::Skipping => {
                *state = SSEState::Idle;
                Line::Quiet
            },
            _ => {
                let before = state.clone();
                *state = SSEState::Idle;
                Line::Fault(SSEError::EmptyLine(before))
            },
        };
    }
    if let SSEState::Skipping = state {
        return Line::Quiet;
    }
    let at = match find(line, COLON) {
        Some(at) => at,
        None => {
            return Line::Fault(SSEError::NoKey(copied(line)));
        },
    };
    assert(line@.subrange(0, at as int) =~= line@.take(at as int));
    assert(line@.subrange(at + 1, line@.len() as int) =~= line@.skip(at + 1));
    let key_bytes = vstd::slice::slice_subrange(line, 0, at);
    let value = trim_start(vstd::slice::slice_subrange(line, at + 1, line.len()));
    let key = match std::str::from_utf8(key_bytes) {
        Ok(key) => key,
        Err(error) => {
            return Line::Fault(SSEError::KeyNotText(error));
        },
    };
    if same_bytes(key_bytes, "event".as_bytes()) {
        if let SSEState::Idle = state {
            *state = if same_bytes(value, "message".as_bytes()) {
                SSEState::Collecting
            } else {
                SSEState::Skipping
            };
            Line::Quiet
        } else {
            Line::Fault(SSEError::UnexpectedEvent)
        }
    } else if same_bytes(key_bytes, "data".as_bytes()) {
        match state {
            SSEState::Collected(_) => Line::Fault(SSEError::UnexpectedData(state.clone())),
            _ => {
                *state = SSEState::Collected(copied(value));
                Line::Quiet
            },
        }
    } else {
        Line::Fault(SSEError::UnexpectedKey(key.to_owned()))
    }
}

/// Ends the event whose payload was read, or leaves it where the payload could
/// not be read.
pub fn settle<T>(state: &mut SSEState, read: Result<T, serde_json::Error>) -> (r: Result<
    T,
    SSEError,
>)
    ensures
        match read {
            Ok(value) => final(state)@ is Idle && r == Ok::<T, SSEError>(value),
            Err(error) => *final(state) == *old(state) && r == Err::<T, SSEError>(
                SSEError::BadPayload(error),
            ),
        },
{
    match read {
        Ok(value) => {
            *state = SSEState::Idle;
            Ok(value)
        },
        Err(error) => Err(SSEError::BadPayload(error)),
    }
}

/// A stream: where it stands, and the bytes of the line that has not ended yet.
#[verifier::ext_equal]
pub struct Stream {
    pub mode: Mode,
    pub line: Seq<u8>,
}

impl Stream {
    /// A stream at its beginning.
    pub open spec fn start() -> Stream {
        Stream { mode: Mode::Idle, line: Seq::empty() }
    }

    /// The stream after one more byte, and what the byte gives.
    pub open spec fn feed<T: Payload>(self, byte: u8) -> (Stream, Option<Outcome>) {
        if byte == NEWLINE {
            let (mode, outcome) = line_step::<T>(self.mode, self.line);
            (Stream { mode, line: Seq::empty() }, outcome)
        } else {
            (Stream { mode: self.mode, line: self.line.push(byte) }, None)
        }
    }

    /// The stream after more bytes, and what they give, in their order.
    pub open spec fn feed_all<T: Payload>(self, bytes: Seq<u8>) -> (Stream, Seq<Outcome>)
        decreases bytes.len(),
    {
        if bytes.len() == 0 {
            (self, Seq::empty())
        } else {
            let (before, outcomes) = self.feed_all::<T>(bytes.drop_last());
            let (after, outcome) = before.feed::<T>(bytes.last());
            (
                after,
                match outcome {
                    Some(outcome) => outcomes.push(outcome),
                    None => outcomes,
                },
            )
        }
    }
}

/// Whether results are what bytes give.
pub open spec fn all_show<T: Payload>(
    results: Seq<Result<T, SSEError>>,
    outcomes: Seq<Outcome>,
) -> bool {
    &&& results.len() == outcomes.len()
    &&& forall|i: int|
        0 <= i < results.len() ==> shows::<T>(#[trigger] results[i], outcomes[i])
}

/// Reads events from a stream that comes in chunks.
#[derive(Debug)]
pub struct SSEBuffer {
    state: SSEState,
    line: Vec<u8>,
}

impl View for SSEBuffer {
    type V = Stream;

    closed spec fn view(&self) -> Stream {
        Stream { mode: self.state@, line: self.line@ }
    }
}

impl Default for SSEBuffer {
    fn default() -> (r: Self)
        ensures
            r@ == Stream::start(),
    {
        let buffer = SSEBuffer { state: SSEState::Idle, line: Vec::new() };
        assert(buffer@ =~= Stream::start());
        buffer
    }
}

/// Appends bytes.
fn extend(line: &mut Vec<u8>, bytes: &[u8])
    ensures
        final(line)@ == old(line)@ + bytes@,
{
    line.extend_from_slice(bytes);
    assert(line@ =~= old(line)@ + bytes@);
}

impl SSEBuffer {
    /// Reads a line: the value of the event that ends with it, if one does.
    pub fn parse_line<T: Payload>(state: &mut SSEState, line: &[u8]) -> (r: Result<
        Option<T>,
        SSEError,
    >)
        ensures
            final(state)@ == line_step::<T>(old(state)@, line@).0,
            match line_step::<T>(old(state)@, line@).1 {
                None => r matches Ok(None),
                Some(Outcome::Value(data)) => r matches Ok(Some(value)) && value.stands_for(data),
                Some(Outcome::Fault(fault)) => r matches Err(error) && error@ == fault,
            },
    {
        match read_line(state, line) {
            Line::Quiet => Ok(None),
            Line::Fault(error) => Err(error),
            Line::Payload => {
                let read = match state {
                    SSEState::Collected(data) => T::decode(data.as_slice()),
                    _ => {
                        return Ok(None);
                    },
                };
                match settle(state, read) {
                    Ok(value) => Ok(Some(value)),
                    Err(error) => Err(error),
                }
            },
        }
    }

    /// Reads a chunk of the stream: the values of the events that end in it and
    /// the faults of its lines, in their order. A line that the chunk does not end
    /// is kept for the next chunk.
    pub fn process_chunk<T: Payload>(&mut self, chunk: &[u8]) -> (r: Vec<Result<T, SSEError>>)
        ensures
            final(self)@ == old(self)@.feed_all::<T>(chunk@).0,
            all_show(r@, old(self)@.feed_all::<T>(chunk@).1),
    {
        let ghost begin = self@;
        let mut results: Vec<Result<T, SSEError>> = Vec::new();
        let mut start: usize = 0;
        let mut i: usize = 0;
        assert(chunk@.take(0) =~= Seq::<u8>::empty());
        assert(self.line@ + chunk@.subrange(0, 0) =~= self.line@);
        while i < chunk.len()
            invariant
                start <= i <= chunk@.len(),
                ({
                    let (stream, outcomes) = begin.feed_all::<T>(chunk@.take(i as int));
                    &&& stream.mode == self.state@
                    &&& stream.line == self.line@ + chunk@.subrange(start as int, i as int)
                    &&& all_show(results@, outcomes)
                }),
            decreases chunk@.len() - i,
        {
            proof {
                assert(chunk@.take(i + 1).drop_last() =~= chunk@.take(i as int));
                assert(chunk@.take(i + 1).last() == chunk@[i as int]);
            }
            if chunk[i] == NEWLINE {
                extend(&mut self.line, vstd::slice::slice_subrange(chunk, start, i));
                let mut line: Vec<u8> = Vec::new();
                std::mem::swap(&mut line, &mut self.line);
                start = i + 1;
                match Self::parse_line::<T>(&mut self.state, line.as_slice()) {
                    Ok(Some(value)) => {
                        results.push(Ok(value));
                    },
                    Ok(None) => {},
                    Err(error) => {
                        results.push(Err(error));
                    },
                }
                assert(self.line@ + chunk@.subrange(start as int, i + 1) =~= Seq::<u8>::empty());
            } else {
                assert(self.line@ + chunk@.subrange(start as int, i + 1) =~= (self.line@
                    + chunk@.subrange(start as int, i as int)).push(chunk@[i as int]));
            }
            i = i + 1;
        }
        extend(&mut self.line, vstd::slice::slice_subrange(chunk, start, i));
        assert(chunk@.take(i as int) =~= chunk@);
        assert(self@ =~= begin.feed_all::<T>(chunk@).0);
        results
    }
}

/// What happens to a stream.
#[derive(Debug)]
pub enum StreamEvent<'a> {
    /// A chunk comes.
    Chunk(&'a [u8]),
    /// The stream comes to its end.
    End,
    /// The stream breaks.
    Failure,
    /// The tool is told to stop.
    Cancelled,
}

/// What is done next.
#[derive(Debug)]
pub enum StreamAction<T> {
    /// Take up the results, in their order, and wait for the next chunk.
    Handle(Vec<Result<T, SSEError>>),
    /// Leave the stream.
    Finish,
    /// Leave the stream, and report why it broke.
    Fail,
}

/// What is done next with a stream.
pub fn stream_step<T: Payload>(buffer: &mut SSEBuffer, event: StreamEvent) -> (r: StreamAction<T>)
    ensures
        match event {
            StreamEvent::Chunk(chunk) => {
                &&& r matches StreamAction::Handle(results)
                &&& all_show(results@, old(buffer)@.feed_all::<T>(chunk@).1)
                &&& final(buffer)@ == old(buffer)@.feed_all::<T>(chunk@).0
            },
            StreamEvent::Failure => r is Fail && *final(buffer) == *old(buffer),
            _ => r is Finish && *final(buffer) == *old(buffer),
        },
{
    match event {
        StreamEvent::Chunk(chunk) => StreamAction::Handle(buffer.process_chunk::<T>(chunk)),
        StreamEvent::Failure => StreamAction::Fail,
        StreamEvent::End => StreamAction::Finish,
        StreamEvent::Cancelled => StreamAction::Finish,
    }
}

} // verus!
