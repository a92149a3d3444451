use chrono::{Datelike, Timelike};
use llama_capture::config::CaptureConfig;
use llama_capture::metrics::{metrics_data, Found, MetricsRun, Next, Record};
use llama_capture::models::{ActivityLogEntry, SSEEnvelope, Timestamp};
use llama_capture::sse::{Payload, SSEBuffer};
use serde_json::Value;
use std::collections::BTreeMap;

struct Envelope(SSEEnvelope);

impl Payload for Envelope {
    fn decode(data: &[u8]) -> Result<Self, serde_json::Error> {
        let value: Value = serde_json::from_slice(data)?;
        Ok(Envelope(SSEEnvelope {
            type_: serde_json::from_value(value["type"].clone())?,
            data: serde_json::from_value(value["data"].clone())?,
        }))
    }
}

fn config(output: &str) -> CaptureConfig {
    CaptureConfig {
        url: "http://localhost:8080".to_string(),
        api_key: "".to_string(),
        output: output.to_string(),
        decode: false,
        pretty: false,
    }
}

fn entry(value: &Value) -> ActivityLogEntry {
    let text = |name: &str| value[name].as_str().unwrap().to_string();
    let ts = chrono::DateTime::parse_from_rfc3339(&text("timestamp")).unwrap().to_utc();
    ActivityLogEntry {
        id: value["id"].as_i64().unwrap(),
        timestamp: Timestamp::new(
            ts.year(),
            ts.month(),
            ts.day(),
            ts.hour(),
            ts.minute(),
            ts.second(),
            ts.nanosecond(),
        )
        .unwrap(),
        model: text("model"),
        req_path: text("req_path"),
        resp_content_type: text("resp_content_type"),
        resp_status_code: value["resp_status_code"].as_i64().unwrap(),
        tokens: Default::default(),
        duration_ms: value["duration_ms"].as_i64().unwrap(),
        has_capture: value["has_capture"].as_bool().unwrap(),
        capture: None,
    }
}

/// A proxy and an output folder that stand for the real ones.
struct World {
    answers: BTreeMap<String, Vec<u8>>,
    files: BTreeMap<String, Record>,
    printed: Vec<Record>,
    asked: Vec<String>,
}

impl World {
    fn new(answers: &[(&str, &str)]) -> World {
        World {
            answers: answers
                .iter()
                .map(|(id, data)| {
                    let url = format!("http://localhost:8080/api/captures/{id}");
                    (url, data.as_bytes().to_vec())
                })
                .collect(),
            files: BTreeMap::new(),
            printed: Vec::new(),
            asked: Vec::new(),
        }
    }

    fn process(&mut self, cfg: &CaptureConfig, payload: &str, cancelled: bool) {
        let values: Vec<Value> = serde_json::from_str(payload).unwrap();
        let mut run = MetricsRun::new(values.iter().map(entry).collect());
        loop {
            let fetch = match run.next(cfg, cancelled) {
                Next::Done => return,
                Next::Fetch(fetch) => fetch,
                Next::Lookup(lookup) => {
                    let there = self.files.contains_key(&lookup.name);
                    match lookup.found(there) {
                        Found::Skip(rest) => {
                            run = rest;
                            continue;
                        }
                        Found::Fetch(fetch) => fetch,
                    }
                }
            };
            let url = fetch.request(cfg).url;
            let answer = self.answers.get(&url).cloned();
            self.asked.push(url);
            run = match answer {
                None => fetch.failed(),
                Some(data) => {
                    let (record, rest) = fetch.fetched(&data, cfg);
                    if let Ok(record) = record {
                        match record.name.clone() {
                            Some(name) => {
                                assert!(self.files.insert(name, record).is_none());
                            }
                            None => self.printed.push(record),
                        }
                    }
                    rest
                }
            };
        }
    }

    fn names(&self) -> Vec<&str> {
        self.files.keys().map(|name| name.as_str()).collect()
    }

    fn stream(&mut self, cfg: &CaptureConfig, chunks: &[&[u8]]) {
        let mut buffer = SSEBuffer::default();
        for chunk in chunks {
            for result in buffer.process_chunk::<Envelope>(chunk) {
                if let Some(data) = metrics_data(&result.unwrap().0) {
                    self.process(cfg, data, false);
                }
            }
        }
    }
}

const WITH_CAPTURE: &str = r#"[{"id":1,"timestamp":"2025-01-01T00:00:00Z","model":"m","req_path":"/v1/chat/completions","resp_content_type":"application/json","resp_status_code":200,"tokens":{},"duration_ms":0,"has_capture":true}]"#;

const WITHOUT_CAPTURE: &str = r#"[{"id":1,"timestamp":"2025-01-01T00:00:00Z","model":"m","req_path":"/v1/chat/completions","resp_content_type":"application/json","resp_status_code":200,"tokens":{},"duration_ms":0,"has_capture":false}]"#;

const TWO_CAPTURES: &str = r#"[{"id":1,"timestamp":"2025-01-01T00:00:00Z","model":"m","req_path":"/v1/chat/completions","resp_content_type":"application/json","resp_status_code":200,"tokens":{},"duration_ms":0,"has_capture":true},{"id":2,"timestamp":"2025-01-01T00:01:00Z","model":"m","req_path":"/v1/chat/completions","resp_content_type":"application/json","resp_status_code":200,"tokens":{},"duration_ms":0,"has_capture":true}]"#;

fn sse_lines(metrics: &str) -> String {
    let data = Value::from(metrics);
    format!("event: message\ndata: {{\"data\":{data},\"type\":\"metrics\"}}\n\n")
}

#[test]
fn test_process_metrics_event_fetches_capture() {
    let mut world = World::new(&[("1", "{}")]);
    world.process(&config("captures"), WITH_CAPTURE, false);
    assert_eq!(world.names(), vec!["2025-01-01T00-00_0001.json"]);
}

#[test]
fn test_process_metrics_event_skips_no_capture() {
    let mut world = World::new(&[("1", "{}")]);
    world.process(&config("captures"), WITHOUT_CAPTURE, false);
    assert_eq!(world.files.len(), 0);
    assert_eq!(world.asked.len(), 0);
}

#[test]
fn test_process_metrics_event_empty_array() {
    let mut world = World::new(&[]);
    world.process(&config("captures"), "[]", false);
    assert_eq!(world.files.len(), 0);
}

#[test]
fn test_process_metrics_event_skips_existing_file() {
    let mut world = World::new(&[("1", "{}")]);
    let cfg = config("captures");
    world.process(&cfg, WITH_CAPTURE, false);
    world.answers.insert(
        "http://localhost:8080/api/captures/1".to_string(),
        b"{\"other\":1}".to_vec(),
    );
    world.process(&cfg, WITH_CAPTURE, false);
    assert_eq!(world.asked.len(), 1);
    let record = &world.files["2025-01-01T00-00_0001.json"];
    assert!(record.entry.capture.as_ref().unwrap().is_empty());
}

#[test]
fn test_process_metrics_event_cancelled() {
    let mut world = World::new(&[("1", "{}")]);
    world.process(&config("captures"), WITH_CAPTURE, true);
    assert_eq!(world.files.len(), 0);
    assert_eq!(world.asked.len(), 0);
}

#[test]
fn test_run_sse_loop_processes_metrics() {
    let mut world = World::new(&[("1", "{}")]);
    world.stream(&config("captures"), &[sse_lines(WITH_CAPTURE).as_bytes()]);
    assert_eq!(world.names(), vec!["2025-01-01T00-00_0001.json"]);
}

#[test]
fn test_run_sse_loop_multiple_metrics_in_one_event() {
    let mut world = World::new(&[("1", "{}"), ("2", "{}")]);
    world.stream(&config("captures"), &[sse_lines(TWO_CAPTURES).as_bytes()]);
    assert_eq!(
        world.names(),
        vec!["2025-01-01T00-00_0001.json", "2025-01-01T00-01_0002.json"]
    );
}

#[test]
fn test_run_sse_loop_buffers_split_json_chunks() {
    let mut world = World::new(&[("1", "{}")]);
    let lines = sse_lines(WITH_CAPTURE);
    let split = lines.find(r#""data""#).unwrap();
    let bytes = lines.as_bytes();
    world.stream(&config("captures"), &[&bytes[..split], &bytes[split..]]);
    assert_eq!(world.names(), vec!["2025-01-01T00-00_0001.json"]);
}

#[test]
fn captures_that_cannot_be_had_are_skipped() {
    let mut world = World::new(&[("2", "{\"a\":1}")]);
    world.process(&config("captures"), TWO_CAPTURES, false);
    assert_eq!(world.names(), vec!["2025-01-01T00-01_0002.json"]);
    let mut world = World::new(&[("1", "[]"), ("2", "{}")]);
    world.process(&config("captures"), TWO_CAPTURES, false);
    assert_eq!(world.asked.len(), 2);
    assert_eq!(world.names(), vec!["2025-01-01T00-01_0002.json"]);
}

#[test]
fn stdout_gets_every_capture_in_order() {
    let mut world = World::new(&[("1", "{}"), ("2", "{}")]);
    let cfg = config("-");
    world.process(&cfg, TWO_CAPTURES, false);
    world.process(&cfg, WITH_CAPTURE, false);
    let ids: Vec<i64> = world.printed.iter().map(|record| record.entry.id).collect();
    assert_eq!(ids, vec![1, 2, 1]);
    assert!(world.printed.iter().all(|record| record.style.newline && !record.style.pretty));
    assert_eq!(world.files.len(), 0);
}

#[test]
fn one_capture_is_fetched_once_per_file() {
    let twice = format!("[{0},{0}]", &WITH_CAPTURE[1..WITH_CAPTURE.len() - 1]);
    let mut world = World::new(&[("1", "{}")]);
    let mut cfg = config("captures");
    cfg.pretty = true;
    world.process(&cfg, &twice, false);
    assert_eq!(world.asked, vec!["http://localhost:8080/api/captures/1"]);
    let record = &world.files["2025-01-01T00-00_0001.json"];
    assert!(record.style.pretty && !record.style.newline);
}

#[test]
fn only_wanted_captures_are_requested() {
    let first = &TWO_CAPTURES[1..TWO_CAPTURES.len() - 1];
    let without = WITHOUT_CAPTURE[1..WITHOUT_CAPTURE.len() - 1].replace("\"id\":1", "\"id\":7");
    let payload = format!("[{without},{first},{without}]");
    let asked = |ids: &[i64]| -> Vec<String> {
        ids.iter().map(|id| format!("http://localhost:8080/api/captures/{id}")).collect()
    };

    let mut world = World::new(&[("1", "{}")]);
    world.process(&config("captures"), &payload, false);
    assert_eq!(world.asked, asked(&[1, 2]));
    world.process(&config("captures"), &payload, false);
    assert_eq!(world.asked, asked(&[1, 2, 2]));
    world.process(&config("-"), &payload, false);
    assert_eq!(world.asked, asked(&[1, 2, 2, 1, 2]));
    world.process(&config("-"), &payload, true);
    assert_eq!(world.asked, asked(&[1, 2, 2, 1, 2]));
}

#[test]
fn pretty_leaves_the_record() {
    let records: Vec<Record> = [("captures", true), ("captures", false), ("-", true)]
        .into_iter()
        .map(|(output, pretty)| {
            let mut cfg = config(output);
            cfg.pretty = pretty;
            let mut world = World::new(&[("1", "{\"a\":1}")]);
            world.process(&cfg, WITH_CAPTURE, false);
            world.files.into_values().chain(world.printed).next().unwrap()
        })
        .collect();
    let pretty: Vec<bool> = records.iter().map(|record| record.style.pretty).collect();
    assert_eq!(pretty, vec![true, false, false]);
    for record in &records {
        assert_eq!(record.entry.id, 1);
        assert_eq!(record.entry.capture, records[0].entry.capture);
    }
}
