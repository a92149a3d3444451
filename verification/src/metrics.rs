//! Metrics: which captures of an event are fetched, and where they go.
//!
//! A run over the entries of an event goes on in steps. Each step says what is to
//! be done outside, and takes up what came of it.

use std::collections::VecDeque;

use vstd::prelude::*;

use crate::capture::{
    capture_file_name, capture_record, file_name, record_style, recorded, CaptureError,
    RecordStyle,
};
use crate::config::CaptureConfig;
use crate::connection::{capture_request, capture_request_of, HttpRequest};
use crate::json;
use crate::models::{ActivityLogEntry, SSEEnvelope};
use crate::text::same_text;

verus! {

/// The metrics in an envelope, where it carries metrics.
pub fn metrics_data(envelope: &SSEEnvelope) -> (r: Option<&str>)
    ensures
        r is Some <==> envelope.type_@ == "metrics"@,
        r matches Some(data) ==> data@ == envelope.data@,
{
    if same_text(envelope.type_.as_str(), "metrics") {
        Some(envelope.data.as_str())
    } else {
        None
    }
}

/// The number of entries before the first one that has a capture.
pub open spec fn without_capture(entries: Seq<ActivityLogEntry>) -> nat
    decreases entries.len(),
{
    if entries.len() == 0 || entries[0].has_capture {
        0
    } else {
        1 + without_capture(entries.drop_first())
    }
}

/// The name of the file of an entry.
pub open spec fn entry_file(entry: ActivityLogEntry) -> Seq<char> {
    file_name(entry.timestamp@, entry.id as int)
}

/// The entries of an event that a run has not come to.
#[derive(Debug)]
pub struct MetricsRun {
    entries: VecDeque<ActivityLogEntry>,
}

impl View for MetricsRun {
    type V = Seq<ActivityLogEntry>;

    closed spec fn view(&self) -> Seq<ActivityLogEntry> {
        self.entries@
    }
}

/// A capture whose file may be there already.
#[derive(Debug)]
pub struct Lookup {
    pub entry: ActivityLogEntry,
    /// The name of the file in the output folder.
    pub name: String,
    pub run: MetricsRun,
}

/// A capture to be fetched.
#[derive(Debug)]
pub struct Fetch {
    pub entry: ActivityLogEntry,
    /// The name of the file in the output folder, unless the capture goes to the
    /// standard output.
    pub name: Option<String>,
    pub run: MetricsRun,
}

/// A capture to be written.
#[derive(Debug)]
pub struct Record {
    pub entry: ActivityLogEntry,
    /// The name of the file in the output folder, unless the record goes to the
    /// standard output.
    pub name: Option<String>,
    pub style: RecordStyle,
}

/// What is to be done next.
#[derive(Debug)]
pub enum Next {
    /// Nothing is left to do.
    Done,
    /// Look whether the file is there.
    Lookup(Lookup),
    /// Fetch the capture.
    Fetch(Fetch),
}

/// What follows a lookup.
#[derive(Debug)]
pub enum Found {
    /// The file is there, and stays as it is.
    Skip(MetricsRun),
    /// Fetch the capture.
    Fetch(Fetch),
}

impl MetricsRun {
    /// A run over all entries of an event.
    pub fn new(entries: Vec<ActivityLogEntry>) -> (r: MetricsRun)
        ensures
            r@ == entries@,
    {
        let mut queue: VecDeque<ActivityLogEntry> = VecDeque::new();
        for entry in iter: entries
            invariant
                iter.seq() == entries@,
                queue@ == entries@.take(iter.index() as int),
        {
            assert(entries@.take(iter.index() as int + 1) =~= entries@.take(
                iter.index() as int,
            ).push(entry));
            queue.push_back(entry);
        }
        assert(entries@.take(entries@.len() as int) =~= entries@);
        MetricsRun { entries: queue }
    }

    /// Goes on to the next entry that has a capture, unless the run is cancelled.
    pub fn next(self, config: &CaptureConfig, cancelled: bool) -> (r: Next)
        ensures
            ({
                let at = without_capture(self@) as int;
                if cancelled || at >= self@.len() {
                    r is Done
                } else if config.to_stdout() {
                    &&& r matches Next::Fetch(fetch)
                    &&& fetch.entry == self@[at]
                    &&& fetch.name is None
                    &&& fetch.run@ == self@.skip(at + 1)
                } else {
                    &&& r matches Next::Lookup(lookup)
                    &&& lookup.entry == self@[at]
                    &&& lookup.name@ == entry_file(self@[at])
                    &&& lookup.entry.timestamp@.in_calendar()
                    &&& lookup.run@ == self@.skip(at + 1)
                }
            }),
    {
        if cancelled {
            return Next::Done;
        }
        let mut entries = self.entries;
        let ghost all = self@;
        let ghost mut passed: int = 0;
        assert(all.skip(0) =~= all);
        loop
            invariant
                all == self@,
                0 <= passed <= all.len(),
                entries@ == all.skip(passed),
                without_capture(all) == passed + without_capture(all.skip(passed)),
                !cancelled,
            decreases entries@.len(),
        {
            match entries.pop_front() {
                None => {
                    return Next::Done;
                },
                Some(entry) => {
                    assert(entry == all[passed]);
                    assert(all.skip(passed).drop_first() =~= all.skip(passed + 1));
                    assert(entries@ =~= all.skip(passed + 1));
                    if entry.has_capture {
                        let run = MetricsRun { entries };
                        if config.is_stdout() {
                            return Next::Fetch(Fetch { entry, name: None, run });
                        }
                        let name = capture_file_name(&entry.timestamp, entry.id);
                        return Next::Lookup(Lookup { entry, name, run });
                    }
                    proof {
                        passed = passed + 1;
                    }
                },
            }
        }
    }
}

impl Lookup {
    /// Goes on to the fetch, unless the file is there.
    pub fn found(self, exists_already: bool) -> (r: Found)
        ensures
            if exists_already {
                r == Found::Skip(self.run)
            } else {
                &&& r matches Found::Fetch(fetch)
                &&& fetch.entry == self.entry
                &&& fetch.name == Some(self.name)
                &&& fetch.run == self.run
            },
    {
        if exists_already {
            Found::Skip(self.run)
        } else {
            Found::Fetch(Fetch { entry: self.entry, name: Some(self.name), run: self.run })
        }
    }
}

impl Fetch {
    /// The request for the capture.
    pub fn request(&self, config: &CaptureConfig) -> (r: HttpRequest)
        ensures
            r@ == capture_request_of(config.url@, config.api_key@, self.entry.id as int),
    {
        capture_request(config.url.as_str(), config.api_key.as_str(), self.entry.id)
    }

    /// Goes on where the capture could not be fetched: nothing is written for it.
    pub fn failed(self) -> (r: MetricsRun)
        ensures
            r == self.run,
    {
        self.run
    }

    /// Goes on with the capture that was fetched: the record to be written, or
    /// what is wrong with the capture, and the rest of the run.
    pub fn fetched(self, data: &[u8], config: &CaptureConfig) -> (r: (
        Result<Record, CaptureError>,
        MetricsRun,
    ))
        ensures
            r.1 == self.run,
            match recorded(data@, config.decode) {
                Ok(fields) => {
                    &&& r.0 matches Ok(record)
                    &&& record.entry == (ActivityLogEntry {
                        capture: record.entry.capture,
                        ..self.entry
                    })
                    &&& record.entry.capture matches Some(capture)
                    &&& json::members(capture) == fields
                    &&& record.name == self.name
                    &&& record.style.pretty == (self.name is Some && config.pretty)
                    &&& record.style.newline == (self.name is None)
                },
                Err(fault) => r.0 matches Err(error) && error@ == fault,
            },
    {
        match capture_record(self.entry, data, config) {
            Ok(entry) => {
                let style = record_style(config, self.name.is_some());
                (Ok(Record { entry, name: self.name, style }), self.run)
            },
            Err(error) => (Err(error), self.run),
        }
    }
}

} // verus!
