//! The connection to the proxy: what is asked of it, which answers are taken, and
//! when a lost connection is tried again.

use vstd::prelude::*;

use crate::config::CaptureConfig;
use crate::text;

verus! {

/// The status of an answer that is taken.
pub const OK: u16 = 200;

/// How long an answer to a request for a capture is waited for.
pub const CAPTURE_TIMEOUT_SECONDS: u64 = 30;

/// The delay from which lost connections are counted.
pub const FIRST_BACKOFF_SECONDS: i64 = 2;

/// The longest delay before a lost connection is tried again.
pub const MAX_BACKOFF_SECONDS: i64 = 60;

/// What a request holds.
#[verifier::ext_equal]
pub struct Request {
    pub url: Seq<char>,
    pub headers: Seq<(Seq<char>, Seq<char>)>,
    pub timeout_seconds: Option<u64>,
}

/// A request to be sent with the method GET.
#[derive(Debug)]
pub struct HttpRequest {
    pub url: String,
    pub headers: Vec<(String, String)>,
    pub timeout_seconds: Option<u64>,
}

impl View for HttpRequest {
    type V = Request;

    open spec fn view(&self) -> Request {
        Request {
            url: self.url@,
            headers: self.headers@.map_values(|header: (String, String)| (header.0@, header.1@)),
            timeout_seconds: self.timeout_seconds,
        }
    }
}

/// The headers that show the API key, where there is one.
pub open spec fn authorization(api_key: Seq<char>) -> Seq<(Seq<char>, Seq<char>)> {
    if api_key.len() == 0 {
        Seq::empty()
    } else {
        seq![("Authorization"@, "Bearer "@ + api_key)]
    }
}

/// The request for the capture of an activity.
pub open spec fn capture_request_of(server_url: Seq<char>, api_key: Seq<char>, id: int) -> Request {
    Request {
        url: server_url + "/api/captures/"@ + text::integer(id),
        headers: authorization(api_key),
        timeout_seconds: Some(CAPTURE_TIMEOUT_SECONDS),
    }
}

/// The request for the stream of events.
pub open spec fn events_request_of(server_url: Seq<char>, api_key: Seq<char>) -> Request {
    Request {
        url: server_url + "/api/events"@,
        headers: seq![
            ("Accept"@, "text/event-stream"@),
            ("Cache-Control"@, "no-cache"@),
            ("Connection"@, "keep-alive"@),
        ] + authorization(api_key),
        timeout_seconds: None,
    }
}

impl HttpRequest {
    /// Adds a header.
    fn header(&mut self, name: &str, value: String)
        ensures
            final(self)@ == (Request {
                url: old(self)@.url,
                headers: old(self)@.headers.push((name@, value@)),
                timeout_seconds: old(self)@.timeout_seconds,
            }),
    {
        self.headers.push((name.to_owned(), value));
        assert(self@.headers =~= old(self)@.headers.push((name@, value@)));
    }

    /// Adds the header that shows the API key, where there is one.
    fn authorize(&mut self, api_key: &str)
        ensures
            final(self)@ == (Request {
                url: old(self)@.url,
                headers: old(self)@.headers + authorization(api_key@),
                timeout_seconds: old(self)@.timeout_seconds,
            }),
    {
        if api_key.is_empty() {
            assert(old(self)@.headers + authorization(api_key@) =~= old(self)@.headers);
        } else {
            let mut value = "Bearer ".to_owned();
            value.append(api_key);
            self.header("Authorization", value);
            assert(self@.headers =~= old(self)@.headers + authorization(api_key@));
        }
    }
}

/// The request for the capture of an activity.
pub fn capture_request(server_url: &str, api_key: &str, id: i64) -> (r: HttpRequest)
    ensures
        r@ == capture_request_of(server_url@, api_key@, id as int),
{
    let mut url = server_url.to_owned();
    url.append("/api/captures/");
    text::push_integer(&mut url, id);
    let mut request = HttpRequest {
        url,
        headers: Vec::new(),
        timeout_seconds: Some(CAPTURE_TIMEOUT_SECONDS),
    };
    request.authorize(api_key);
    assert(request@ =~= capture_request_of(server_url@, api_key@, id as int));
    request
}

/// The request for the stream of events.
pub fn events_request(config: &CaptureConfig) -> (r: HttpRequest)
    ensures
        r@ == events_request_of(config.url@, config.api_key@),
{
    let mut url = config.url.as_str().to_owned();
    url.append("/api/events");
    let mut request = HttpRequest { url, headers: Vec::new(), timeout_seconds: None };
    request.header("Accept", "text/event-stream".to_owned());
    request.header("Cache-Control", "no-cache".to_owned());
    request.header("Connection", "keep-alive".to_owned());
    request.authorize(config.api_key.as_str());
    assert(request@ =~= events_request_of(config.url@, config.api_key@));
    request
}

/// Whether the answer to a request for a capture is taken, and what is reported
/// where it is not.
pub fn check_capture_status(id: i64, status: u16, status_text: &str) -> (r: Result<(), String>)
    ensures
        r is Ok <==> status == OK,
        r matches Err(message) ==> message@ == "capture "@ + text::integer(id as int)
            + " returned status "@ + status_text@,
{
    if status == OK {
        return Ok(());
    }
    let mut message = "capture ".to_owned();
    text::push_integer(&mut message, id);
    message.append(" returned status ");
    message.append(status_text);
    Err(message)
}

/// The delay from which the next one is counted, once an answer to the request for
/// the stream of events has come.
pub open spec fn backoff_answered(status: u16, backoff: int) -> int {
    if status == OK {
        FIRST_BACKOFF_SECONDS as int
    } else {
        backoff
    }
}

/// Whether the answer to the request for the stream of events is taken, and what
/// is reported where it is not. Where it is, delays are counted from the first
/// one again.
pub fn check_events_status(status: u16, status_text: &str, backoff_seconds: &mut i64) -> (r: Result<
    (),
    String,
>)
    ensures
        r is Ok <==> status == OK,
        r matches Err(message) ==> message@ == "SSE endpoint returned status "@ + status_text@,
        *final(backoff_seconds) == backoff_answered(status, *old(backoff_seconds) as int),
{
    if status == OK {
        *backoff_seconds = FIRST_BACKOFF_SECONDS;
        return Ok(());
    }
    let mut message = "SSE endpoint returned status ".to_owned();
    message.append(status_text);
    Err(message)
}

/// The nanoseconds of a duration, as `std::time::Duration::as_nanos` gives them.
pub uninterp spec fn nanoseconds(duration: std::time::Duration) -> nat;

/// `std::time::Duration::from_secs` gives the duration of so many whole seconds.
pub assume_specification[ std::time::Duration::from_secs ](seconds: u64) -> (r:
    std::time::Duration)
    ensures
        nanoseconds(r) == seconds * 1_000_000_000,
;

/// The delay that follows a delay: twice as long, up to the longest one.
pub open spec fn next_backoff(seconds: int) -> int {
    if 2 * seconds > MAX_BACKOFF_SECONDS {
        MAX_BACKOFF_SECONDS as int
    } else {
        2 * seconds
    }
}

/// A number of seconds as an unsigned number: below zero, it counts down from the
/// largest one.
pub open spec fn unsigned(seconds: int) -> int {
    if seconds < 0 {
        seconds + 0x1_0000_0000_0000_0000
    } else {
        seconds
    }
}

/// Goes on to the next delay, and gives it.
pub fn backoff_delay(backoff_seconds: &mut i64) -> (r: std::time::Duration)
    requires
        i64::MIN <= 2 * *old(backoff_seconds) <= i64::MAX,
    ensures
        *final(backoff_seconds) == next_backoff(*old(backoff_seconds) as int),
        nanoseconds(r) == unsigned(*final(backoff_seconds) as int) * 1_000_000_000,
{
    *backoff_seconds = *backoff_seconds * 2;
    if *backoff_seconds > MAX_BACKOFF_SECONDS {
        *backoff_seconds = MAX_BACKOFF_SECONDS;
    }
    let seconds: i64 = *backoff_seconds;
    assert(seconds < 0 ==> seconds as u64 == seconds + 0x1_0000_0000_0000_0000) by (bit_vector);
    std::time::Duration::from_secs(
        #[verifier::truncate]
        (seconds as u64),
    )
}

/// What happens to the tool.
#[derive(Clone, Copy, Debug)]
pub enum RunEvent {
    /// It can connect.
    Ready { cancelled: bool },
    /// A connection was closed, or was lost or not made.
    Ended { closed: bool, cancelled: bool },
}

/// What the tool does next.
#[derive(Debug)]
pub enum RunAction {
    /// Connect.
    Connect,
    /// Wait, and be ready again.
    Wait(std::time::Duration),
    /// Come to an end.
    Stop,
}

/// What the tool does next. A wait is held in seconds.
pub enum Step {
    Connect,
    Wait(int),
    Stop,
}

/// Whether an action is a step.
pub open spec fn takes_step(action: RunAction, step: Step) -> bool {
    match step {
        Step::Connect => action is Connect,
        Step::Wait(seconds) => action matches RunAction::Wait(delay) && nanoseconds(delay)
            == seconds * 1_000_000_000,
        Step::Stop => action is Stop,
    }
}

/// The delay from which the next one is counted, and what the tool does next. A
/// connection that was closed is made again after the first delay, and one that
/// was lost after the delay that follows the last one.
pub open spec fn next_step(event: RunEvent, backoff: int) -> (int, Step) {
    match event {
        RunEvent::Ready { cancelled } => if cancelled {
            (backoff, Step::Stop)
        } else {
            (backoff, Step::Connect)
        },
        RunEvent::Ended { closed, cancelled } => if cancelled {
            (backoff, Step::Stop)
        } else if closed {
            (backoff, Step::Wait(FIRST_BACKOFF_SECONDS as int))
        } else {
            (next_backoff(backoff), Step::Wait(unsigned(next_backoff(backoff))))
        },
    }
}

/// What the tool does next. A connection that was closed is made again after the
/// first delay, and one that was lost after a delay that grows.
pub fn run_step(event: RunEvent, backoff_seconds: &mut i64) -> (r: RunAction)
    requires
        event == (RunEvent::Ended { closed: false, cancelled: false }) ==> i64::MIN <= 2 * *old(
            backoff_seconds,
        ) <= i64::MAX,
    ensures
        *final(backoff_seconds) == next_step(event, *old(backoff_seconds) as int).0,
        takes_step(r, next_step(event, *old(backoff_seconds) as int).1),
{
    match event {
        RunEvent::Ready { cancelled } => if cancelled {
            RunAction::Stop
        } else {
            RunAction::Connect
        },
        RunEvent::Ended { closed, cancelled } => if cancelled {
            RunAction::Stop
        } else if closed {
            RunAction::Wait(std::time::Duration::from_secs(FIRST_BACKOFF_SECONDS as u64))
        } else {
            RunAction::Wait(backoff_delay(backoff_seconds))
        },
    }
}

} // verus!
