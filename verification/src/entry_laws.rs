//! What holds of every step of a run over the entries of an event.

use vstd::prelude::*;

use crate::capture::{capture_file_name, capture_record, record_style, CaptureError, RecordStyle};
use crate::capture_laws::file_names_differ;
use crate::config::CaptureConfig;
use crate::connection::{capture_request, HttpRequest};
use crate::json::{json_object, members};
use crate::metrics::{
    metrics_data, without_capture, Fetch, Found, Lookup, MetricsRun, Next, Record,
};
use crate::models::{ActivityLogEntry, SSEEnvelope, Timestamp};
use crate::request_laws::{captures_are_asked_for, shows_key};
use crate::text_laws::is_integer;

verus! {

/// Whatever `metrics_data` returns, an envelope hands out its data where its type is
/// `metrics`, and nowhere else.
pub proof fn metrics_are_handed_out(envelope: SSEEnvelope, data: Option<&str>)
    requires
        call_ensures(metrics_data, (&envelope,), data),
    ensures
        data is Some <==> envelope.type_@ == seq!['m', 'e', 't', 'r', 'i', 'c', 's'],
        data matches Some(data) ==> data@ == envelope.data@,
{
    reveal_strlit("metrics");
    assert("metrics"@ =~= seq!['m', 'e', 't', 'r', 'i', 'c', 's']);
}

/// Whether no entry has a capture.
pub open spec fn none_has_a_capture(entries: Seq<ActivityLogEntry>) -> bool {
    forall|i: int| 0 <= i < entries.len() ==> !(#[trigger] entries[i]).has_capture
}

proof fn lemma_passed(passed: Seq<ActivityLogEntry>, rest: Seq<ActivityLogEntry>)
    requires
        none_has_a_capture(passed),
    ensures
        without_capture(passed + rest) == passed.len() + without_capture(rest),
    decreases passed.len(),
{
    if passed.len() == 0 {
        assert(passed + rest =~= rest);
    } else {
        assert((passed + rest)[0] == passed[0]);
        assert((passed + rest).drop_first() =~= passed.drop_first() + rest);
        lemma_passed(passed.drop_first(), rest);
    }
}

/// Whatever `MetricsRun::next` returns, a run over entries of which none has a
/// capture is done, and so is one that is cancelled.
pub proof fn run_without_captures_is_done(
    entries: Vec<ActivityLogEntry>,
    run: MetricsRun,
    config: CaptureConfig,
    cancelled: bool,
    next: Next,
)
    requires
        none_has_a_capture(entries@) || cancelled,
        call_ensures(MetricsRun::new, (entries,), run),
        call_ensures(MetricsRun::next, (run, &config, cancelled), next),
    ensures
        next is Done,
{
    if none_has_a_capture(entries@) {
        lemma_passed(entries@, Seq::empty());
        assert(entries@ + Seq::<ActivityLogEntry>::empty() =~= entries@);
    }
}

/// Whatever `MetricsRun::next` returns, a run that is not cancelled goes on to the
/// first entry with a capture, unchanged, and then is a run over the entries behind
/// it. On the standard output the capture is fetched at once. In a folder it is
/// looked for first, under the name that `capture_file_name` gives for the timestamp
/// and the id of the entry.
pub proof fn run_goes_on_to_the_next_capture(
    entries: Vec<ActivityLogEntry>,
    run: MetricsRun,
    config: CaptureConfig,
    next: Next,
    passed: Seq<ActivityLogEntry>,
    entry: ActivityLogEntry,
    behind: Vec<ActivityLogEntry>,
    rest: MetricsRun,
    name: String,
)
    requires
        entries@ == passed + seq![entry] + behind@,
        none_has_a_capture(passed),
        entry.has_capture,
        call_ensures(MetricsRun::new, (entries,), run),
        call_ensures(MetricsRun::new, (behind,), rest),
        call_ensures(MetricsRun::next, (run, &config, false), next),
        call_ensures(capture_file_name, (&entry.timestamp, entry.id), name),
    ensures
        config.output@ == seq!['-'] ==> {
            &&& next matches Next::Fetch(fetch)
            &&& fetch.entry == entry
            &&& fetch.name is None
            &&& fetch.run@ == rest@
        },
        config.output@ != seq!['-'] ==> {
            &&& next matches Next::Lookup(lookup)
            &&& lookup.entry == entry
            &&& lookup.name@ == name@
            &&& lookup.run@ == rest@
        },
{
    reveal_strlit("-");
    assert("-"@ =~= seq!['-']);
    let left = seq![entry] + behind@;
    assert(entries@ =~= passed + left);
    lemma_passed(passed, left);
    assert(left[0] == entry);
    assert(without_capture(left) == 0);
    let at = passed.len() as int;
    assert(entries@[at] == entry);
    assert(entries@.skip(at + 1) =~= behind@);
}

/// Runs over the same entries are the same, and runs over other entries are not.
pub proof fn runs_are_told_by_their_entries(
    entries: Vec<ActivityLogEntry>,
    run: MetricsRun,
    other_entries: Vec<ActivityLogEntry>,
    other: MetricsRun,
)
    requires
        call_ensures(MetricsRun::new, (entries,), run),
        call_ensures(MetricsRun::new, (other_entries,), other),
    ensures
        run@ == other@ <==> entries@ == other_entries@,
{
}

/// Whatever `MetricsRun::next` returns in two runs, two captures are looked for
/// under one name only where they have the same id and the same minute: captures
/// with different ids never share a file.
pub proof fn lookups_tell_captures_apart(
    run: MetricsRun,
    config: CaptureConfig,
    lookup: Lookup,
    other_run: MetricsRun,
    other: Lookup,
    read: (i32, u32, u32, u32, u32),
    other_read: (i32, u32, u32, u32, u32),
)
    requires
        call_ensures(MetricsRun::next, (run, &config, false), Next::Lookup(lookup)),
        call_ensures(MetricsRun::next, (other_run, &config, false), Next::Lookup(other)),
        call_ensures(Timestamp::year, (&lookup.entry.timestamp,), read.0),
        call_ensures(Timestamp::month, (&lookup.entry.timestamp,), read.1),
        call_ensures(Timestamp::day, (&lookup.entry.timestamp,), read.2),
        call_ensures(Timestamp::hour, (&lookup.entry.timestamp,), read.3),
        call_ensures(Timestamp::minute, (&lookup.entry.timestamp,), read.4),
        call_ensures(Timestamp::year, (&other.entry.timestamp,), other_read.0),
        call_ensures(Timestamp::month, (&other.entry.timestamp,), other_read.1),
        call_ensures(Timestamp::day, (&other.entry.timestamp,), other_read.2),
        call_ensures(Timestamp::hour, (&other.entry.timestamp,), other_read.3),
        call_ensures(Timestamp::minute, (&other.entry.timestamp,), other_read.4),
    ensures
        lookup.name@ == other.name@ <==> lookup.entry.id == other.entry.id && read == other_read,
{
    if lookup.name@ == other.name@ {
        file_names_differ(
            lookup.entry.timestamp@,
            lookup.entry.id as int,
            other.entry.timestamp@,
            other.entry.id as int,
        );
    }
}

/// Whatever `Lookup::found` returns, a capture whose file is there is passed over,
/// and any other is fetched for the file that was looked for.
pub proof fn only_missing_files_are_fetched(lookup: Lookup, there: bool, found: Found)
    requires
        call_ensures(Lookup::found, (lookup, there), found),
    ensures
        there ==> (found matches Found::Skip(rest) && rest == lookup.run),
        !there ==> {
            &&& found matches Found::Fetch(fetch)
            &&& fetch.entry == lookup.entry
            &&& fetch.name == Some(lookup.name)
            &&& fetch.run == lookup.run
        },
{
}

/// Whatever `Fetch::request` returns asks the server of the configuration for the
/// capture with the id of the entry, with the whole API key, as `capture_request`
/// does.
pub proof fn fetch_asks_for_its_entry(
    fetch: Fetch,
    config: CaptureConfig,
    request: HttpRequest,
    server_url: &str,
    api_key: &str,
    other: HttpRequest,
)
    requires
        call_ensures(Fetch::request, (&fetch, &config), request),
        server_url@ == config.url@,
        api_key@ == config.api_key@,
        call_ensures(capture_request, (server_url, api_key, fetch.entry.id), other),
    ensures
        request@ == other@,
        request.url@ == other.url@,
        request.timeout_seconds == Some(30u64),
        (config.url@ + "/api/captures/"@).is_prefix_of(request.url@),
        is_integer(
            request.url@.skip((config.url@ + "/api/captures/"@).len() as int),
            fetch.entry.id as int,
            1,
        ),
        shows_key(request.headers@, 0, config.api_key@),
{
    captures_are_asked_for(server_url, api_key, fetch.entry.id, other);
    let headers = request.headers@;
    assert(request@.headers.len() == headers.len());
    assert(other@.headers.len() == other.headers@.len());
    if api_key@.len() > 0 {
        assert(request@.headers[0] == (headers[0].0@, headers[0].1@));
        assert(other@.headers[0] == (other.headers@[0].0@, other.headers@[0].1@));
    }
}

/// Whatever `Fetch::failed` returns, the run goes on behind the entry.
pub proof fn failed_fetch_goes_on(fetch: Fetch, rest: MetricsRun)
    requires
        call_ensures(Fetch::failed, (fetch,), rest),
    ensures
        rest == fetch.run,
{
}

/// Whatever `Fetch::fetched` returns is the record that `capture_record` makes of
/// the entry and of what was fetched, or its error. The record goes where the fetch
/// was to go, in the style that `record_style` gives, and the run goes on behind the
/// entry.
pub proof fn fetched_capture_is_the_record(
    fetch: Fetch,
    data: &[u8],
    config: CaptureConfig,
    fetched: (Result<Record, CaptureError>, MetricsRun),
    recorded_as: Result<ActivityLogEntry, CaptureError>,
    style: RecordStyle,
)
    requires
        call_ensures(Fetch::fetched, (fetch, data, &config), fetched),
        call_ensures(capture_record, (fetch.entry, data, &config), recorded_as),
        call_ensures(record_style, (&config, fetch.name is Some), style),
    ensures
        fetched.1 == fetch.run,
        match recorded_as {
            Ok(entry) => {
                &&& fetched.0 matches Ok(record)
                &&& record.entry == (ActivityLogEntry { capture: record.entry.capture, ..entry })
                &&& record.entry.capture is Some
                &&& entry.capture is Some
                &&& members(record.entry.capture->0) == members(entry.capture->0)
                &&& record.name == fetch.name
                &&& record.style == style
            },
            Err(error) => fetched.0 matches Err(reported) && reported@ == error@,
        },
        fetched.0 matches Ok(record) ==> {
            &&& record.entry.id == fetch.entry.id
            &&& record.entry.timestamp == fetch.entry.timestamp
            &&& record.name == fetch.name
            &&& record.style.pretty == (config.pretty && fetch.name is Some)
            &&& record.style.newline == (fetch.name is None)
            &&& !config.decode ==> json_object(data@) == Some(members(record.entry.capture->0))
        },
{
}

} // verus!
