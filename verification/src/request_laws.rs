//! What holds of every request, of every answer and of every delay.

use vstd::prelude::*;

use crate::config::CaptureConfig;
use crate::connection::{
    backoff_delay, capture_request, check_capture_status, check_events_status, events_request,
    nanoseconds, run_step, HttpRequest, RunAction, RunEvent,
};
use crate::text::integer;
use crate::text_laws::{integers_are_integers, is_integer, numerals_tell_numbers_apart};

verus! {

/// Whether the headers from the one at `from` on show an API key: there is none
/// where the key is empty, and otherwise the one header that holds the whole key.
pub open spec fn shows_key(headers: Seq<(String, String)>, from: int, api_key: Seq<char>) -> bool {
    if api_key.len() == 0 {
        headers.len() == from
    } else {
        &&& headers.len() == from + 1
        &&& headers[from].0@ == "Authorization"@
        &&& headers[from].1@.len() == "Bearer "@.len() + api_key.len()
        &&& headers[from].1@.take("Bearer "@.len() as int) == "Bearer "@
        &&& headers[from].1@.skip("Bearer "@.len() as int) == api_key
    }
}

proof fn lemma_shown(request: HttpRequest, named: Seq<(Seq<char>, Seq<char>)>, api_key: Seq<char>)
    requires
        request@.headers == named + if api_key.len() == 0 {
            Seq::empty()
        } else {
            seq![("Authorization"@, "Bearer "@ + api_key)]
        },
    ensures
        shows_key(request.headers@, named.len() as int, api_key),
        forall|i: int|
            0 <= i < named.len() ==> (#[trigger] request.headers@[i]).0@ == named[i].0
                && request.headers@[i].1@ == named[i].1,
{
    let headers = request.headers@;
    assert(request@.headers.len() == headers.len());
    assert forall|i: int| 0 <= i < headers.len() implies request@.headers[i] == (
        (#[trigger] headers[i]).0@,
        headers[i].1@,
    ) by {}
    if api_key.len() > 0 {
        let at = named.len() as int;
        assert(request@.headers[at] == ("Authorization"@, "Bearer "@ + api_key));
        assert(headers[at].1@.take("Bearer "@.len() as int) =~= "Bearer "@);
        assert(headers[at].1@.skip("Bearer "@.len() as int) =~= api_key);
    }
}

/// Whatever `capture_request` returns asks the server for the capture with that id,
/// shows the whole API key, where there is one, and nothing else, and waits for
/// half a minute.
pub proof fn captures_are_asked_for(
    server_url: &str,
    api_key: &str,
    id: i64,
    request: HttpRequest,
)
    requires
        call_ensures(capture_request, (server_url, api_key, id), request),
    ensures
        (server_url@ + "/api/captures/"@).is_prefix_of(request.url@),
        is_integer(
            request.url@.skip((server_url@ + "/api/captures/"@).len() as int),
            id as int,
            1,
        ),
        shows_key(request.headers@, 0, api_key@),
        request.timeout_seconds == Some(30u64),
{
    let base = server_url@ + "/api/captures/"@;
    integers_are_integers(id as int, 1);
    assert(request@.url == base + integer(id as int));
    assert(request.url@.skip(base.len() as int) =~= integer(id as int));
    assert(base =~= request.url@.subrange(0, base.len() as int));
    assert(request@.headers =~= Seq::empty() + request@.headers);
    lemma_shown(request, Seq::empty(), api_key@);
}

/// Whatever `events_request` returns asks the server for its stream of events, as a
/// stream that is kept open and not cached, shows the whole API key, where there is
/// one, and nothing else, and waits without end.
pub proof fn events_are_asked_for(config: CaptureConfig, request: HttpRequest)
    requires
        call_ensures(events_request, (&config,), request),
    ensures
        request.url@ == config.url@ + "/api/events"@,
        request.headers@.len() >= 3,
        request.headers@[0].0@ == "Accept"@,
        request.headers@[0].1@ == "text/event-stream"@,
        request.headers@[1].0@ == "Cache-Control"@,
        request.headers@[1].1@ == "no-cache"@,
        request.headers@[2].0@ == "Connection"@,
        request.headers@[2].1@ == "keep-alive"@,
        shows_key(request.headers@, 3, config.api_key@),
        request.timeout_seconds is None,
{
    let named = seq![
        ("Accept"@, "text/event-stream"@),
        ("Cache-Control"@, "no-cache"@),
        ("Connection"@, "keep-alive"@),
    ];
    assert(request@.url == request.url@);
    lemma_shown(request, named, config.api_key@);
    assert(named[0] == ("Accept"@, "text/event-stream"@));
    assert(request.headers@[0].0@ == named[0].0 && request.headers@[0].1@ == named[0].1);
    assert(request.headers@[1].0@ == named[1].0 && request.headers@[1].1@ == named[1].1);
    assert(request.headers@[2].0@ == named[2].0 && request.headers@[2].1@ == named[2].1);
}

/// Two requests of one server for captures that have the same URL ask for the same
/// capture, and two that show the same headers show the same API key.
pub proof fn requests_tell_captures_and_keys_apart(
    server_url: &str,
    api_key: &str,
    id: i64,
    request: HttpRequest,
    other_key: &str,
    other_id: i64,
    other: HttpRequest,
)
    requires
        call_ensures(capture_request, (server_url, api_key, id), request),
        call_ensures(capture_request, (server_url, other_key, other_id), other),
    ensures
        request.url@ == other.url@ ==> id == other_id,
        request.headers@ == other.headers@ ==> api_key@ == other_key@,
{
    captures_are_asked_for(server_url, api_key, id, request);
    captures_are_asked_for(server_url, other_key, other_id, other);
    if request.url@ == other.url@ {
        let base = server_url@ + "/api/captures/"@;
        numerals_tell_numbers_apart(
            request.url@.skip(base.len() as int),
            id as int,
            other_id as int,
            1,
            1,
        );
    }
    if request.headers@ == other.headers@ && api_key@.len() == 0 {
        assert(api_key@ =~= other_key@);
    }
}

/// Two requests for events that show the same headers show the same API key.
pub proof fn event_requests_tell_keys_apart(
    config: CaptureConfig,
    request: HttpRequest,
    other_config: CaptureConfig,
    other: HttpRequest,
)
    requires
        call_ensures(events_request, (&config,), request),
        call_ensures(events_request, (&other_config,), other),
    ensures
        request.headers@ == other.headers@ ==> config.api_key@ == other_config.api_key@,
        request.url@ == other.url@ ==> config.url@ == other_config.url@,
{
    events_are_asked_for(config, request);
    events_are_asked_for(other_config, other);
    if request.headers@ == other.headers@ && config.api_key@.len() == 0 {
        assert(config.api_key@ =~= other_config.api_key@);
    }
    if request.url@ == other.url@ {
        let path = "/api/events"@;
        assert(config.url@ =~= request.url@.take(request.url@.len() - path.len()));
        assert(other_config.url@ =~= other.url@.take(other.url@.len() - path.len()));
    }
}

/// Whatever `check_capture_status` returns, an answer is taken where its status is
/// 200, and otherwise the id of the capture and the status are reported.
pub proof fn other_capture_answers_are_reported(
    id: i64,
    status: u16,
    status_text: &str,
    checked: Result<(), String>,
)
    requires
        call_ensures(check_capture_status, (id, status, status_text), checked),
    ensures
        checked is Ok <==> status == 200,
        checked matches Err(message) ==> exists|numeral: Seq<char>| #[trigger]
            is_integer(numeral, id as int, 1) && message@ == "capture "@ + numeral
                + " returned status "@ + status_text@,
{
    integers_are_integers(id as int, 1);
}

/// Whatever `check_events_status` returns, an answer is taken where its status is
/// 200, and delays are counted from two seconds then. Otherwise the status is
/// reported, and the delay stays.
pub proof fn other_event_answers_are_reported(
    status: u16,
    status_text: &str,
    before: i64,
    after: i64,
    checked: Result<(), String>,
)
    requires
        exists|backoff: &mut i64|
            *backoff == before && *final(backoff) == after && #[trigger] call_ensures(
                check_events_status,
                (status, status_text, backoff),
                checked,
            ),
    ensures
        checked is Ok <==> status == 200,
        checked is Ok ==> after == 2,
        checked matches Err(message) ==> after == before && message@
            == "SSE endpoint returned status "@ + status_text@,
{
}

/// Whatever `backoff_delay` returns, a delay is twice the last one, or sixty seconds
/// where that is less, and that is how long it lasts.
pub proof fn delays_double(before: i64, after: i64, delay: std::time::Duration)
    requires
        exists|backoff: &mut i64|
            *backoff == before && *final(backoff) == after && #[trigger] call_ensures(
                backoff_delay,
                (backoff,),
                delay,
            ),
    ensures
        after <= 60,
        after == 60 || after == before + before,
        before + before <= 60 ==> after == before + before,
        before + before >= 60 ==> after == 60,
        after >= 0 ==> nanoseconds(delay) == after * 1_000_000_000,
        after < 0 ==> nanoseconds(delay) == (0x1_0000_0000_0000_0000 + after) * 1_000_000_000,
{
}

/// Whatever `run_step` returns, a tool that is cancelled stops, and one that is not
/// connects when it is ready. A connection that was closed is made again after two
/// seconds. One that was lost is made again after twice the last delay, or sixty
/// seconds where that is less. Only a loss changes the delay.
pub proof fn steps_follow_events(event: RunEvent, before: i64, after: i64, action: RunAction)
    requires
        exists|backoff: &mut i64|
            *backoff == before && *final(backoff) == after && #[trigger] call_ensures(
                run_step,
                (event, backoff),
                action,
            ),
    ensures
        match event {
            RunEvent::Ready { cancelled: true } => action is Stop && after == before,
            RunEvent::Ended { closed: _, cancelled: true } => action is Stop && after == before,
            RunEvent::Ready { cancelled: false } => action is Connect && after == before,
            RunEvent::Ended { closed: true, cancelled: false } => {
                &&& action matches RunAction::Wait(delay)
                &&& nanoseconds(delay) == 2_000_000_000
                &&& after == before
            },
            RunEvent::Ended { closed: false, cancelled: false } => {
                &&& action matches RunAction::Wait(delay)
                &&& after >= 0 ==> nanoseconds(delay) == after * 1_000_000_000
                &&& after < 0 ==> nanoseconds(delay) == (0x1_0000_0000_0000_0000 + after)
                    * 1_000_000_000
                &&& before + before <= 60 ==> after == before + before
                &&& before + before >= 60 ==> after == 60
            },
        },
{
}

} // verus!
