use llama_capture::config::CaptureConfig;
use llama_capture::connection::{
    capture_request, check_capture_status, check_events_status, events_request, run_step,
    HttpRequest, RunAction, RunEvent,
};
use llama_capture::sse::backoff_delay;
use std::time::Duration;

fn header<'a>(request: &'a HttpRequest, name: &str) -> Option<&'a str> {
    request
        .headers
        .iter()
        .find(|(key, _)| key == name)
        .map(|(_, value)| value.as_str())
}

#[test]
fn test_backoff_delay_doubles() {
    let mut bs = 2;
    let d = backoff_delay(&mut bs);
    assert_eq!(d, Duration::from_secs(4));
    assert_eq!(bs, 4);
}

#[test]
fn test_backoff_delay_caps_at_60() {
    let mut bs = 60;
    let d = backoff_delay(&mut bs);
    assert_eq!(d, Duration::from_secs(60));
    assert_eq!(bs, 60);
}

#[test]
fn test_backoff_delay_from_32() {
    let mut bs = 32;
    let d = backoff_delay(&mut bs);
    assert_eq!(d, Duration::from_secs(60));
    assert_eq!(bs, 60);
}

#[test]
fn test_backoff_delay_from_1() {
    let mut bs = 1;
    let d = backoff_delay(&mut bs);
    assert_eq!(d, Duration::from_secs(2));
    assert_eq!(bs, 2);
}

#[test]
fn backoff_delay_at_its_edges() {
    let mut bs = 30;
    assert_eq!(backoff_delay(&mut bs), Duration::from_secs(60));
    let mut bs = 31;
    assert_eq!(backoff_delay(&mut bs), Duration::from_secs(60));
    let mut bs = 0;
    assert_eq!(backoff_delay(&mut bs), Duration::from_secs(0));
    let mut bs = -1;
    assert_eq!(backoff_delay(&mut bs), Duration::from_secs(u64::MAX - 1));
    assert_eq!(bs, -2);
}

#[test]
fn losses_back_off_exponentially() {
    let mut bs = 2;
    let mut delays = Vec::new();
    for _ in 0..7 {
        match run_step(RunEvent::Ended { closed: false, cancelled: false }, &mut bs) {
            RunAction::Wait(delay) => delays.push(delay.as_secs()),
            other => panic!("{other:?}"),
        }
    }
    assert_eq!(delays, vec![4, 8, 16, 32, 60, 60, 60]);
}

#[test]
fn waits_follow_the_attempts() {
    // The status of the answer, whether the stream came to its end, and the wait.
    let attempts = [
        (None, false, 4),
        (Some(503), false, 8),
        (None, false, 16),
        (Some(200), false, 4),
        (Some(401), false, 8),
        (Some(200), true, 2),
        (None, false, 4),
    ];
    let mut bs = 2;
    for (status, closed, wait) in attempts {
        if let Some(status) = status {
            let taken = check_events_status(status, "status", &mut bs);
            assert_eq!(taken.is_ok(), status == 200);
        }
        match run_step(RunEvent::Ended { closed, cancelled: false }, &mut bs) {
            RunAction::Wait(delay) => assert_eq!(delay, Duration::from_secs(wait)),
            other => panic!("{other:?}"),
        }
    }
}

#[test]
fn only_a_loss_doubles_the_backoff() {
    let mut bs = i64::MAX;
    assert!(matches!(run_step(RunEvent::Ready { cancelled: false }, &mut bs), RunAction::Connect));
    for closed in [true, false] {
        run_step(RunEvent::Ended { closed, cancelled: true }, &mut bs);
    }
    assert!(matches!(
        run_step(RunEvent::Ended { closed: true, cancelled: false }, &mut bs),
        RunAction::Wait(delay) if delay == Duration::from_secs(2)
    ));
    assert_eq!(bs, i64::MAX);
}

#[test]
fn a_new_connection_resets_the_backoff() {
    let mut bs = 60;
    assert_eq!(check_events_status(200, "200 OK", &mut bs), Ok(()));
    assert_eq!(bs, 2);
    assert!(matches!(
        run_step(RunEvent::Ended { closed: true, cancelled: false }, &mut bs),
        RunAction::Wait(delay) if delay == Duration::from_secs(2)
    ));
    assert_eq!(bs, 2);
}

#[test]
fn cancelling_stops_the_run() {
    let mut bs = 8;
    assert!(matches!(run_step(RunEvent::Ready { cancelled: false }, &mut bs), RunAction::Connect));
    assert!(matches!(run_step(RunEvent::Ready { cancelled: true }, &mut bs), RunAction::Stop));
    for closed in [true, false] {
        let event = RunEvent::Ended { closed, cancelled: true };
        assert!(matches!(run_step(event, &mut bs), RunAction::Stop));
    }
    assert_eq!(bs, 8);
}

#[test]
fn refused_event_stream_is_reported() {
    let mut bs = 16;
    assert_eq!(
        check_events_status(401, "401 Unauthorized", &mut bs),
        Err("SSE endpoint returned status 401 Unauthorized".to_string())
    );
    assert_eq!(bs, 16);
}

#[test]
fn test_fetch_capture_error_on_non_200() {
    assert_eq!(
        check_capture_status(1, 404, "404 Not Found"),
        Err("capture 1 returned status 404 Not Found".to_string())
    );
    assert!(check_capture_status(1, 201, "201 Created").is_err());
    assert_eq!(check_capture_status(1, 200, "200 OK"), Ok(()));
}

#[test]
fn test_fetch_capture_with_api_key() {
    let request = capture_request("http://127.0.0.1:80", "secret-key", 99);
    assert_eq!(request.url, "http://127.0.0.1:80/api/captures/99");
    assert_eq!(header(&request, "Authorization"), Some("Bearer secret-key"));
    assert_eq!(request.timeout_seconds, Some(30));
}

#[test]
fn test_fetch_capture_without_api_key() {
    let request = capture_request("http://127.0.0.1:80", "", 99);
    assert_eq!(request.url, "http://127.0.0.1:80/api/captures/99");
    assert_eq!(header(&request, "Authorization"), None);
    assert!(request.headers.is_empty());
}

#[test]
fn capture_urls_hold_any_id() {
    let url = |id| capture_request("u", "", id).url;
    assert_eq!(url(0), "u/api/captures/0");
    assert_eq!(url(-7), "u/api/captures/-7");
    assert_eq!(url(i64::MAX), "u/api/captures/9223372036854775807");
    assert_eq!(url(i64::MIN), "u/api/captures/-9223372036854775808");
}

#[test]
fn events_are_asked_for_as_a_stream() {
    let mut cfg = CaptureConfig {
        url: "http://localhost:8080".to_string(),
        output: "-".to_string(),
        api_key: "k".to_string(),
        decode: false,
        pretty: false,
    };
    let request = events_request(&cfg);
    assert_eq!(request.url, "http://localhost:8080/api/events");
    assert_eq!(header(&request, "Accept"), Some("text/event-stream"));
    assert_eq!(header(&request, "Cache-Control"), Some("no-cache"));
    assert_eq!(header(&request, "Connection"), Some("keep-alive"));
    assert_eq!(header(&request, "Authorization"), Some("Bearer k"));
    assert_eq!(request.timeout_seconds, None);
    cfg.api_key = String::new();
    assert_eq!(events_request(&cfg).headers.len(), 3);
}
