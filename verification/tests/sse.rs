use llama_capture::metrics::metrics_data;
use llama_capture::models::SSEEnvelope;
use llama_capture::sse::{
    read_line, settle, stream_step, Line, Payload, SSEBuffer, SSEError, SSEState, StreamAction,
    StreamEvent,
};
use serde_json::Value;

/// An envelope that is read from the payload of an event.
struct Envelope(SSEEnvelope);

impl Payload for Envelope {
    fn decode(data: &[u8]) -> Result<Self, serde_json::Error> {
        let value: Value = serde_json::from_slice(data)?;
        Ok(Envelope(SSEEnvelope {
            type_: serde_json::from_value(value["type"].clone())?,
            data: serde_json::from_value(value["data"].clone())?,
        }))
    }
}

fn sse_data_line(payload: &str) -> String {
    format!("event: message\ndata: {}\n\n", payload)
}

fn envelopes(buf: &mut SSEBuffer, chunk: &[u8]) -> Vec<Result<SSEEnvelope, SSEError>> {
    buf.process_chunk::<Envelope>(chunk)
        .into_iter()
        .map(|result| result.map(|envelope| envelope.0))
        .collect()
}

#[test]
fn test_sse_buffer_parses_envelope() {
    let mut buf = SSEBuffer::default();
    let payload = r#"{"type":"metrics","data":"[{\"id\":1}]"}"#;
    let lines = sse_data_line(payload);
    let results = envelopes(&mut buf, lines.as_bytes());
    assert_eq!(results.len(), 1);
    let env = results[0].as_ref().unwrap();
    assert_eq!(env.type_, "metrics");
    assert_eq!(env.data, r#"[{"id":1}]"#);
}

#[test]
fn test_sse_buffer_splits_across_chunks() {
    let mut buf = SSEBuffer::default();
    let payload = r#"{"type":"metrics","data":"[]"}"#;
    let lines = sse_data_line(payload);
    let mid = lines.len() / 2;
    let chunk1 = &lines[..mid];
    let chunk2 = &lines[mid..];

    let r1 = envelopes(&mut buf, chunk1.as_bytes());
    assert_eq!(r1.len(), 0);
    let r2 = envelopes(&mut buf, chunk2.as_bytes());
    assert_eq!(r2.len(), 1);
    let env = r2[0].as_ref().unwrap();
    assert_eq!(env.type_, "metrics");
}

#[test]
fn test_sse_buffer_skips_non_message_event() {
    let mut buf = SSEBuffer::default();
    let lines = "event: other\ndata: ignored\n\n";
    let results = envelopes(&mut buf, lines.as_bytes());
    assert_eq!(results.len(), 0);
}

#[test]
fn test_sse_buffer_multiple_events() {
    let mut buf = SSEBuffer::default();
    let lines = "event: message\ndata: {\"type\":\"a\",\"data\":\"1\"}\n\nevent: message\ndata: {\"type\":\"b\",\"data\":\"2\"}\n\n";
    let results = envelopes(&mut buf, lines.as_bytes());
    assert_eq!(results.len(), 2);
    assert_eq!(results[0].as_ref().unwrap().type_, "a");
    assert_eq!(results[1].as_ref().unwrap().type_, "b");
}

#[test]
fn test_sse_buffer_unexpected_empty_line() {
    let mut buf = SSEBuffer::default();
    let res = buf.process_chunk::<Value>(b"\n");
    assert!(res.len() == 1 && res[0].is_err());
    assert_eq!(
        res[0].as_ref().unwrap_err().message(),
        "SSE loop: Unexpected empty line in mode Idle"
    );
}

#[test]
fn test_sse_buffer_unparseable_line() {
    let mut buf = SSEBuffer::default();
    let res = buf.process_chunk::<Value>(b"event: message\ndata: {}\ngarbage\n");
    let err = res.iter().find(|r| r.is_err());
    assert!(err.is_some());
    assert_eq!(
        err.unwrap().as_ref().unwrap_err().message(),
        "SSE loop: Unable to parse line [103, 97, 114, 98, 97, 103, 101]"
    );
}

#[test]
fn test_sse_buffer_unexpected_event() {
    let mut buf = SSEBuffer::default();
    let res = buf.process_chunk::<Value>(b"event: message\nevent: other\n");
    let err = res.iter().find(|r| r.is_err());
    assert!(err.is_some());
    assert_eq!(err.unwrap().as_ref().unwrap_err().message(), "Unexpected 'event'");
}

#[test]
fn test_sse_buffer_unexpected_data_state() {
    let mut buf = SSEBuffer::default();
    let res = buf.process_chunk::<Value>(b"event: message\ndata: {}\ndata: more\n");
    let err = res.iter().find(|r| r.is_err());
    assert!(err.is_some());
    assert_eq!(
        err.unwrap().as_ref().unwrap_err().message(),
        "Unexpected 'data' in state Collected([123, 125])"
    );
}

#[test]
fn test_sse_buffer_unknown_key() {
    let mut buf = SSEBuffer::default();
    let res = buf.process_chunk::<Value>(b"event: message\nfoo: bar\n");
    let err = res.iter().find(|r| r.is_err());
    assert!(err.is_some());
    assert_eq!(err.unwrap().as_ref().unwrap_err().message(), "Unexpected key foo");
}

#[test]
fn empty_line_before_the_payload() {
    let mut buf = SSEBuffer::default();
    let res = buf.process_chunk::<Value>(b"event: message\n\ndata: 1\n\n");
    assert_eq!(res.len(), 2);
    assert_eq!(
        res[0].as_ref().unwrap_err().message(),
        "SSE loop: Unexpected empty line in mode Collecting"
    );
    assert_eq!(res[1].as_ref().unwrap(), &Value::from(1));
}

#[test]
fn keys_have_to_be_utf8() {
    let mut buf = SSEBuffer::default();
    let res = buf.process_chunk::<Value>(b"\xff: x\n\xc3\xa9: x\n");
    assert_eq!(res.len(), 2);
    assert!(matches!(res[0], Err(SSEError::KeyNotText(_))));
    assert_eq!(res[0].as_ref().unwrap_err().message(), "from_utf8(key)");
    assert_eq!(res[1].as_ref().unwrap_err().message(), "Unexpected key é");
}

#[test]
fn values_lose_leading_whitespace_only() {
    let mut buf = SSEBuffer::default();
    let res = buf.process_chunk::<Value>(b"event:\t \x0c\rmessage\ndata:  \"a:b\" \n\n");
    assert_eq!(res.len(), 1);
    assert_eq!(res[0].as_ref().unwrap(), &Value::from("a:b"));
    let res = buf.process_chunk::<Value>(b"event: message \nfoo\n\n");
    assert_eq!(res.len(), 0);
}

#[test]
fn payload_needs_no_event_line() {
    let mut buf = SSEBuffer::default();
    let res = buf.process_chunk::<Value>(b"data: [1]\n\ndata: 2\n\n");
    let values: Vec<Value> = res.into_iter().map(|r| r.unwrap()).collect();
    assert_eq!(values, vec![Value::from(vec![1]), Value::from(2)]);
}

#[test]
fn unreadable_payload_holds_the_stream() {
    let mut buf = SSEBuffer::default();
    let res = buf.process_chunk::<Value>(b"data: {\n\nevent: message\ndata: 1\n\n");
    let messages: Vec<String> = res.into_iter().map(|r| r.unwrap_err().message()).collect();
    assert_eq!(
        messages,
        vec![
            "Error parsing SSEEnvelope",
            "Unexpected 'event'",
            "Unexpected 'data' in state Collected([123])",
            "Error parsing SSEEnvelope",
        ]
    );
}

#[test]
fn skipped_event_ends_at_its_empty_line() {
    let mut buf = SSEBuffer::default();
    let res = buf.process_chunk::<Value>(b"event: ping\n??\nevent: message\n\ndata: 1\n\n");
    assert_eq!(res.len(), 1);
    assert_eq!(res[0].as_ref().unwrap(), &Value::from(1));
}

#[test]
fn every_cut_gives_the_same() {
    let text = b"event: message\ndata: {\"a\":1}\n\noops\n\nevent: x\ny: z\n\ndata: 2\n\ndata: 3";
    let show = |results: Vec<Result<Value, SSEError>>| -> Vec<String> {
        results
            .into_iter()
            .map(|r| match r {
                Ok(value) => value.to_string(),
                Err(error) => error.message(),
            })
            .collect()
    };
    let whole = show(SSEBuffer::default().process_chunk::<Value>(text));
    assert_eq!(whole.len(), 4);
    for cut in 0..text.len() {
        for second in cut..text.len() {
            let mut buf = SSEBuffer::default();
            let mut parts = show(buf.process_chunk::<Value>(&text[..cut]));
            parts.extend(show(buf.process_chunk::<Value>(&text[cut..second])));
            parts.extend(show(buf.process_chunk::<Value>(&text[second..])));
            assert_eq!(parts, whole);
        }
    }
}

#[test]
fn lines_are_read_up_to_their_payload() {
    let mut state = SSEState::Idle;
    assert!(matches!(read_line(&mut state, b"data: abc"), Line::Quiet));
    assert!(matches!(&state, SSEState::Collected(data) if data == b"abc"));
    assert!(matches!(read_line(&mut state, b""), Line::Payload));
    assert!(matches!(&state, SSEState::Collected(data) if data == b"abc"));
    let refused = serde_json::from_slice::<Value>(b"abc");
    assert!(matches!(settle(&mut state, refused), Err(SSEError::BadPayload(_))));
    assert!(matches!(&state, SSEState::Collected(_)));
    assert_eq!(settle(&mut state, Ok(7)).unwrap(), 7);
    assert!(matches!(&state, SSEState::Idle));
}

#[test]
fn single_lines_are_parsed() {
    let mut state = SSEState::Idle;
    assert!(SSEBuffer::parse_line::<Value>(&mut state, b"data: 5").unwrap().is_none());
    assert_eq!(SSEBuffer::parse_line::<Value>(&mut state, b"").unwrap(), Some(Value::from(5)));
    assert!(SSEBuffer::parse_line::<Value>(&mut state, b"").is_err());
}

#[test]
fn test_run_sse_loop_cancelled() {
    let mut buf = SSEBuffer::default();
    let action = stream_step::<Envelope>(&mut buf, StreamEvent::Cancelled);
    assert!(matches!(action, StreamAction::Finish));
}

#[test]
fn streams_end_and_break() {
    let mut buf = SSEBuffer::default();
    assert!(matches!(
        stream_step::<Envelope>(&mut buf, StreamEvent::Chunk(b"data: 1\n")),
        StreamAction::Handle(results) if results.is_empty()
    ));
    assert!(matches!(
        stream_step::<Envelope>(&mut buf, StreamEvent::Failure),
        StreamAction::Fail
    ));
    assert!(matches!(stream_step::<Envelope>(&mut buf, StreamEvent::End), StreamAction::Finish));
    assert!(matches!(
        stream_step::<Value>(&mut buf, StreamEvent::Chunk(b"\n")),
        StreamAction::Handle(results) if results.len() == 1 && results[0].is_ok()
    ));
}

#[test]
fn test_run_sse_loop_skips_non_metrics() {
    let mut buf = SSEBuffer::default();
    let sse_lines = "event: message\ndata: {\"type\":\"modelStatus\",\"data\":\"[]\"}\n\n";
    let results = envelopes(&mut buf, sse_lines.as_bytes());
    assert_eq!(results.len(), 1);
    assert_eq!(metrics_data(results[0].as_ref().unwrap()), None);
}

#[test]
fn metrics_envelopes_hand_out_their_data() {
    let envelope = |type_: &str| SSEEnvelope { type_: type_.to_string(), data: "[]".to_string() };
    assert_eq!(metrics_data(&envelope("metrics")), Some("[]"));
    for other in ["", "metric", "metricss", "Metrics", "metrics "] {
        assert_eq!(metrics_data(&envelope(other)), None);
    }
}
