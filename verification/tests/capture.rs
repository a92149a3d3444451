use base64::prelude::BASE64_STANDARD;
use base64::Engine;
use llama_capture::capture::{
    capture_file_name, capture_record, decode_bytes, decode_capture, decode_entry, record_style,
    CaptureError,
};
use llama_capture::config::CaptureConfig;
use llama_capture::models::{ActivityLogEntry, Timestamp};
use serde_json::Value;

fn at(year: i32, month: u32, day: u32, hour: u32, minute: u32, second: u32) -> Timestamp {
    Timestamp::new(year, month, day, hour, minute, second, 0).unwrap()
}

fn make_entry(timestamp: Timestamp, id: i64) -> ActivityLogEntry {
    ActivityLogEntry {
        id,
        timestamp,
        model: "test".to_string(),
        req_path: "/v1/chat".to_string(),
        resp_content_type: "application/json".to_string(),
        resp_status_code: 200,
        tokens: Default::default(),
        duration_ms: 0,
        has_capture: true,
        capture: None,
    }
}

fn make_config(output: &str, decode: bool, pretty: bool) -> CaptureConfig {
    CaptureConfig {
        url: "http://localhost:8080".to_string(),
        output: output.to_string(),
        api_key: "".to_string(),
        decode,
        pretty,
    }
}

fn record(data: &[u8], decode: bool) -> Result<ActivityLogEntry, CaptureError> {
    let cfg = make_config("captures", decode, false);
    capture_record(make_entry(at(2025, 1, 1, 0, 0, 0), 1), data, &cfg)
}

fn object(text: &str) -> serde_json::Map<String, Value> {
    serde_json::from_str(text).unwrap()
}

#[test]
fn test_capture_file_name_standard() {
    let ts = at(2025, 1, 15, 10, 30, 0);
    let name = capture_file_name(&ts, 42);
    assert_eq!(name, "2025-01-15T10-30_0042.json");
}

#[test]
fn test_capture_file_name_zero_id() {
    let ts = at(2025, 6, 1, 23, 59, 59);
    let name = capture_file_name(&ts, 0);
    assert_eq!(name, "2025-06-01T23-59_0000.json");
}

#[test]
fn test_capture_file_name_large_id() {
    let ts = at(2025, 1, 1, 0, 0, 0);
    let name = capture_file_name(&ts, 99999);
    assert_eq!(name, "2025-01-01T00-00_99999.json");
}

#[test]
fn file_names_at_their_edges() {
    let name = |year, id| capture_file_name(&at(year, 12, 31, 9, 5, 1), id);
    assert_eq!(name(0, 1), "0000-12-31T09-05_0001.json");
    assert_eq!(name(987, 9999), "0987-12-31T09-05_9999.json");
    assert_eq!(name(9999, -5), "9999-12-31T09-05_-005.json");
    assert_eq!(name(10000, 10000), "+10000-12-31T09-05_10000.json");
    assert_eq!(name(-1, -12345), "-0001-12-31T09-05_-12345.json");
    assert_eq!(name(262142, i64::MAX), "+262142-12-31T09-05_9223372036854775807.json");
    assert_eq!(name(-262143, i64::MIN), "-262143-12-31T09-05_-9223372036854775808.json");
    let leap = Timestamp::new(2016, 12, 31, 23, 59, 59, 1_500_000_000).unwrap();
    assert_eq!(capture_file_name(&leap, 3), "2016-12-31T23-59_0003.json");
}

#[test]
fn file_names_tell_captures_apart() {
    let mut names = std::collections::BTreeSet::new();
    let mut count = 0;
    for year in [-10000, -1, 0, 999, 9999, 10000] {
        for minute in [0, 1, 10, 59] {
            for id in [-100000, -1, 0, 1, 10, 1000, 100000] {
                names.insert(capture_file_name(&at(year, 2, 3, 4, minute, 0), id));
                count += 1;
            }
        }
    }
    assert_eq!(names.len(), count);
}

#[test]
fn timestamps_are_days_of_the_calendar() {
    let day = |y, m, d| Timestamp::new(y, m, d, 0, 0, 0, 0).is_some();
    for (y, m, d) in [
        (2024, 2, 29),
        (2023, 2, 28),
        (2023, 2, 29),
        (1900, 2, 29),
        (2000, 2, 29),
        (-4, 2, 29),
        (-100, 2, 29),
        (2023, 4, 31),
        (2023, 12, 31),
        (2023, 0, 1),
        (2023, 13, 1),
        (2023, 1, 0),
        (2023, 1, 32),
        (262142, 12, 31),
        (262143, 1, 1),
        (-262143, 1, 1),
        (-262144, 12, 31),
    ] {
        assert_eq!(day(y, m, d), chrono::NaiveDate::from_ymd_opt(y, m, d).is_some());
    }
    let time = |h, m, s, n| Timestamp::new(2023, 1, 1, h, m, s, n).is_some();
    let date = chrono::NaiveDate::from_ymd_opt(2023, 1, 1).unwrap();
    for (h, m, s, n) in [
        (23, 59, 59, 1_999_999_999),
        (23, 59, 58, 1_000_000_000),
        (23, 59, 59, 2_000_000_000),
        (24, 0, 0, 0),
        (0, 60, 0, 0),
        (0, 0, 60, 0),
    ] {
        assert_eq!(time(h, m, s, n), date.and_hms_nano_opt(h, m, s, n).is_some());
    }
    let ts = Timestamp::new(2025, 3, 10, 14, 20, 30, 7).unwrap();
    assert_eq!(
        (ts.year(), ts.month(), ts.day(), ts.hour(), ts.minute(), ts.second(), ts.nanosecond()),
        (2025, 3, 10, 14, 20, 30, 7)
    );
}

#[test]
fn test_write_capture_writes_file() {
    let entry = make_entry(at(2025, 3, 10, 14, 20, 30), 7);
    assert_eq!(capture_file_name(&entry.timestamp, entry.id), "2025-03-10T14-20_0007.json");
    let data = br#"{"key":"val"}"#;
    let cfg = make_config("captures", false, false);
    let written = capture_record(entry, data, &cfg).unwrap();
    assert_eq!(written.capture.unwrap()["key"], "val");
    assert_eq!(written.id, 7);
    assert_eq!(written.model, "test");
    assert_eq!(written.req_path, "/v1/chat");
    assert!(written.has_capture);
}

#[test]
fn test_write_capture_pretty() {
    let style = record_style(&make_config("captures", false, true), true);
    assert!(style.pretty);
    assert!(!style.newline);
}

#[test]
fn test_write_capture_stdout() {
    for pretty in [false, true] {
        let style = record_style(&make_config("-", false, pretty), false);
        assert!(!style.pretty);
        assert!(style.newline);
    }
    assert!(!record_style(&make_config("captures", false, false), true).pretty);
}

#[test]
fn captures_have_to_be_objects() {
    for data in ["", "null", "[]", "1", "{", "{}x"] {
        let error = record(data.as_bytes(), false).unwrap_err();
        assert!(matches!(error, CaptureError::NotAnObject(_)));
        assert_eq!(error.message(), None);
    }
}

#[test]
fn test_write_capture_decode_base64() {
    let req_body = BASE64_STANDARD.encode(r#"{"prompt":"hello"}"#);
    let resp_body = BASE64_STANDARD.encode("event: message\ndata: {\"content\":\"hi\"}\n\n");
    let data = format!(r#"{{"req_body":"{}","resp_body":"{}"}}"#, req_body, resp_body);
    let capture = record(data.as_bytes(), true).unwrap().capture.unwrap();
    assert_eq!(capture["req_body"]["prompt"], "hello");
    assert_eq!(capture["resp_body"][0]["content"], "hi");
}

#[test]
fn test_write_capture_decode_strips_done() {
    let resp_body =
        BASE64_STANDARD.encode("event: message\ndata: {\"content\":\"hi\"}\n\n[DONE]");
    let data = format!(r#"{{"req_body":"e30=","resp_body":"{}"}}"#, resp_body);
    let capture = record(data.as_bytes(), true).unwrap().capture.unwrap();
    assert_eq!(capture["resp_body"][0]["content"], "hi");
}

#[test]
fn test_write_capture_decode_missing_field() {
    let data = r#"{"other":"value"}"#;
    let error = record(data.as_bytes(), true).unwrap_err();
    assert_eq!(error.message().unwrap(), "Capture does not have req_body field");
}

#[test]
fn test_write_capture_decode_invalid_base64() {
    let data = r#"{"req_body":"!!!invalid","resp_body":"e30="}"#;
    let error = record(data.as_bytes(), true).unwrap_err();
    assert!(matches!(error, CaptureError::NotBase64(_)));
    assert_eq!(error.message(), None);
}

#[test]
fn test_write_capture_decode_invalid_json() {
    let bad_json = BASE64_STANDARD.encode("not json at all");
    let data = format!(r#"{{"req_body":"{}","resp_body":"e30="}}"#, bad_json);
    let error = record(data.as_bytes(), true).unwrap_err();
    assert!(matches!(error, CaptureError::NotJson(_)));
    assert_eq!(error.message().unwrap(), "decode_entry error");
}

#[test]
fn test_write_capture_decode_not_string() {
    let data = r#"{"req_body":123,"resp_body":"e30="}"#;
    let error = record(data.as_bytes(), true).unwrap_err();
    assert_eq!(error.message().unwrap(), "Unable to convert req_body into string");
}

#[test]
fn responses_that_are_no_events_are_refused() {
    let resp_body = BASE64_STANDARD.encode("data: 1\n\nnonsense\n");
    let data = format!(r#"{{"req_body":"e30=","resp_body":"{}"}}"#, resp_body);
    let error = record(data.as_bytes(), true).unwrap_err();
    assert!(matches!(error, CaptureError::NotEvents(_)));
    assert_eq!(
        error.message().unwrap(),
        "SSE loop: Unable to parse line [110, 111, 110, 115, 101, 110, 115, 101]"
    );
    let error = record(br#"{"req_body":"e30="}"#, true).unwrap_err();
    assert_eq!(error.message().unwrap(), "Capture does not have resp_body field");
}

#[test]
fn decoding_leaves_other_fields_alone() {
    let capture = object(r#"{"req_body":"MQ==","resp_body":"","id":7,"x":{"y":[null]}}"#);
    let plain = decode_capture(capture.clone(), false).unwrap();
    assert_eq!(plain, capture);
    let decoded = decode_capture(capture, true).unwrap();
    assert_eq!(decoded, object(r#"{"req_body":1,"resp_body":[],"id":7,"x":{"y":[null]}}"#));
}

#[test]
fn entries_are_decoded_one_by_one() {
    let mut capture = object(r#"{"a":"ZGF0YTogMQoK","b":true}"#);
    decode_entry(&mut capture, "a", true).unwrap();
    assert_eq!(capture, object(r#"{"a":[1],"b":true}"#));
    assert!(decode_entry(&mut capture, "b", false).is_err());
    assert!(decode_entry(&mut capture, "c", false).is_err());
    assert_eq!(capture, object(r#"{"a":[1],"b":true}"#));
}

#[test]
fn recorded_streams_end_with_or_without_their_mark() {
    let events = "data: {\"n\":1}\n\nevent: message\ndata: 2\n\n";
    let expected: Value = serde_json::from_str(r#"[{"n":1},2]"#).unwrap();
    for end in ["", "[DONE]", "data: [DONE]\n\n", "data: [DONE]", "[DONE] \t\r\n\x0c", "data: "] {
        let stream = format!("{events}{end}");
        assert_eq!(decode_bytes(stream.as_bytes(), true).unwrap(), expected);
    }
    assert!(decode_bytes(b"data: 1\n\n[DONE]\nmore\n", true).is_err());
    assert!(decode_bytes(b"data: [DONE]\n\nx\n", true).is_err());
    assert_eq!(decode_bytes(b"", true).unwrap(), Value::Array(Vec::new()));
    assert_eq!(decode_bytes(b" [1] ", false).unwrap(), Value::from(vec![1]));
}

#[test]
fn the_first_fault_of_a_recorded_stream_counts() {
    let error = decode_bytes(b"data: 1\n\nfoo: x\nbar: y\n", true).unwrap_err();
    assert_eq!(error.message().unwrap(), "Unexpected key foo");
}

#[test]
fn whitespace_before_a_payload_is_left_out() {
    let expected: Value = serde_json::from_str(r#"[{"n":1},2]"#).unwrap();
    for end in ["", "[DONE]", "data: [DONE]\n\n"] {
        let stream = format!("data: \t {{\"n\":1}} \n\nevent: message\ndata:  2\n\n{end}");
        let encoded = BASE64_STANDARD.encode(stream);
        let mut capture = object(&format!("{{\"resp_body\":\"{encoded}\"}}"));
        decode_entry(&mut capture, "resp_body", true).unwrap();
        assert_eq!(capture["resp_body"], expected);
    }
}

#[test]
fn no_json_ends_behind_a_capital() {
    for text in ["[DONE]", " [DONE] \n", "[1E]", "\"[DONE]", "[\"A\",B]", "E]"] {
        assert!(decode_bytes(text.as_bytes(), false).is_err());
    }
    for text in ["[\"DONE\"]", "\"[DONE]\"", "[1E1]", "[ ]"] {
        assert!(decode_bytes(text.as_bytes(), false).is_ok());
    }
    let quoted = decode_bytes(b"data: \"[DONE]\"\n\n", true).unwrap();
    assert_eq!(quoted, Value::from(vec!["[DONE]"]));
}
