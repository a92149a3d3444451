//! What holds of every run over the entries of an event.

use vstd::prelude::*;

use crate::capture::{recorded, CaptureError};
use crate::config::CaptureConfig;
use crate::connection::{capture_request_of, HttpRequest, Request};
use crate::json;
use crate::json::Json;
use crate::metrics::{
    entry_file, without_capture, Fetch, Found, Lookup, MetricsRun, Next, Record,
};
use crate::models::ActivityLogEntry;

verus! {

/// What a record holds: an entry, apart from its capture, and the fields of the
/// capture.
pub struct Saved {
    pub entry: ActivityLogEntry,
    pub fields: Map<Seq<char>, Json>,
}

/// What is saved of an entry with these fields of its capture.
pub open spec fn saved(entry: ActivityLogEntry, fields: Map<Seq<char>, Json>) -> Saved {
    Saved { entry: ActivityLogEntry { capture: None, ..entry }, fields }
}

/// What runs have written: files in the output folder, by name, and records on
/// the standard output.
#[verifier::ext_equal]
pub struct Written {
    pub files: Map<Seq<char>, Saved>,
    pub printed: Seq<Saved>,
}

/// What the proxy answers when the capture of an entry is asked for, if it
/// answers.
pub type Answers = spec_fn(ActivityLogEntry) -> Option<Seq<u8>>;

/// What can be recorded of an entry.
pub open spec fn record_of(entry: ActivityLogEntry, decode: bool, answers: Answers) -> Option<
    Saved,
> {
    match answers(entry) {
        None => None,
        Some(data) => match recorded(data, decode) {
            Ok(fields) => Some(saved(entry, fields)),
            Err(_) => None,
        },
    }
}

/// What is written once a record is written where it is to go.
pub open spec fn with_record(written: Written, record: Record) -> Written
    recommends
        record.entry.capture is Some,
{
    let saved = saved(record.entry, json::members(record.entry.capture->0));
    match record.name {
        Some(name) => Written {
            files: written.files.insert(name@, saved),
            printed: written.printed,
        },
        None => Written { files: written.files, printed: written.printed.push(saved) },
    }
}

/// What is written once a run has come to an entry that has a capture.
pub open spec fn after_entry(
    entry: ActivityLogEntry,
    to_stdout: bool,
    decode: bool,
    answers: Answers,
    written: Written,
) -> Written {
    if !to_stdout && written.files.contains_key(entry_file(entry)) {
        written
    } else {
        match record_of(entry, decode, answers) {
            None => written,
            Some(saved) => if to_stdout {
                Written { files: written.files, printed: written.printed.push(saved) }
            } else {
                Written {
                    files: written.files.insert(entry_file(entry), saved),
                    printed: written.printed,
                }
            },
        }
    }
}

/// What is written once a run is over. The run is cancelled after so many turns.
pub open spec fn after_run(
    entries: Seq<ActivityLogEntry>,
    turns: nat,
    to_stdout: bool,
    decode: bool,
    answers: Answers,
    written: Written,
) -> Written
    decreases entries.len(),
{
    let at = without_capture(entries) as int;
    if turns == 0 || at >= entries.len() {
        written
    } else {
        after_run(
            entries.skip(at + 1),
            (turns - 1) as nat,
            to_stdout,
            decode,
            answers,
            after_entry(entries[at], to_stdout, decode, answers, written),
        )
    }
}

/// The request for the capture of an entry.
pub open spec fn request_of(entry: ActivityLogEntry, config: CaptureConfig) -> Request {
    capture_request_of(config.url@, config.api_key@, entry.id as int)
}

/// What is requested once a run has come to an entry that has a capture.
pub open spec fn entry_requests(
    entry: ActivityLogEntry,
    config: CaptureConfig,
    written: Written,
) -> Seq<Request> {
    if !config.to_stdout() && written.files.contains_key(entry_file(entry)) {
        Seq::empty()
    } else {
        seq![request_of(entry, config)]
    }
}

/// What a run requests, in its order. The run is cancelled after so many turns.
pub open spec fn run_requests(
    entries: Seq<ActivityLogEntry>,
    turns: nat,
    config: CaptureConfig,
    answers: Answers,
    written: Written,
) -> Seq<Request>
    decreases entries.len(),
{
    let at = without_capture(entries) as int;
    if turns == 0 || at >= entries.len() {
        Seq::empty()
    } else {
        entry_requests(entries[at], config, written) + run_requests(
            entries.skip(at + 1),
            (turns - 1) as nat,
            config,
            answers,
            after_entry(entries[at], config.to_stdout(), config.decode, answers, written),
        )
    }
}

/// The entry that a run goes on to is the first one that has a capture: entries
/// without a capture are passed over, and no others.
pub proof fn next_entry_is_the_first_capture(entries: Seq<ActivityLogEntry>)
    ensures
        ({
            let at = without_capture(entries) as int;
            &&& 0 <= at <= entries.len()
            &&& at < entries.len() ==> entries[at].has_capture
            &&& forall|i: int| 0 <= i < at ==> !(#[trigger] entries[i]).has_capture
        }),
    decreases entries.len(),
{
    if entries.len() > 0 && !entries[0].has_capture {
        next_entry_is_the_first_capture(entries.drop_first());
        let at = without_capture(entries) as int;
        assert forall|i: int| 0 <= i < at implies !(#[trigger] entries[i]).has_capture by {
            if i > 0 {
                assert(!entries.drop_first()[i - 1].has_capture);
            }
        }
    }
}

/// Whatever `MetricsRun::next` returns is a turn of the run: where nothing is
/// left, nothing more is requested or written, and otherwise the run requests and
/// writes what the entry calls for, and what the rest of the run does.
pub proof fn next_takes_a_turn(
    run: MetricsRun,
    turns: nat,
    config: CaptureConfig,
    next: Next,
    answers: Answers,
    written: Written,
)
    requires
        call_ensures(MetricsRun::next, (run, &config, turns == 0), next),
    ensures
        ({
            let to_stdout = config.to_stdout();
            let after = after_run(run@, turns, to_stdout, config.decode, answers, written);
            let requests = run_requests(run@, turns, config, answers, written);
            match next {
                Next::Done => after == written && requests == Seq::<Request>::empty(),
                Next::Lookup(lookup) => {
                    &&& !to_stdout
                    &&& lookup.entry.has_capture
                    &&& lookup.name@ == entry_file(lookup.entry)
                    &&& after == after_run(
                        lookup.run@,
                        (turns - 1) as nat,
                        to_stdout,
                        config.decode,
                        answers,
                        after_entry(lookup.entry, to_stdout, config.decode, answers, written),
                    )
                    &&& requests == entry_requests(lookup.entry, config, written) + run_requests(
                        lookup.run@,
                        (turns - 1) as nat,
                        config,
                        answers,
                        after_entry(lookup.entry, to_stdout, config.decode, answers, written),
                    )
                },
                Next::Fetch(fetch) => {
                    &&& to_stdout
                    &&& fetch.entry.has_capture
                    &&& fetch.name is None
                    &&& after == after_run(
                        fetch.run@,
                        (turns - 1) as nat,
                        to_stdout,
                        config.decode,
                        answers,
                        after_entry(fetch.entry, to_stdout, config.decode, answers, written),
                    )
                    &&& requests == entry_requests(fetch.entry, config, written) + run_requests(
                        fetch.run@,
                        (turns - 1) as nat,
                        config,
                        answers,
                        after_entry(fetch.entry, to_stdout, config.decode, answers, written),
                    )
                },
            }
        }),
{
    next_entry_is_the_first_capture(run@);
}

/// Whatever `Lookup::found` returns, a capture whose file is there is not
/// requested, and its turn writes nothing. Any other capture is requested, for
/// that file.
pub proof fn file_that_is_there_is_kept(
    lookup: Lookup,
    found: Found,
    config: CaptureConfig,
    answers: Answers,
    written: Written,
)
    requires
        !config.to_stdout(),
        lookup.name@ == entry_file(lookup.entry),
        call_ensures(
            Lookup::found,
            (lookup, written.files.contains_key(lookup.name@)),
            found,
        ),
    ensures
        match found {
            Found::Skip(rest) => {
                &&& rest == lookup.run
                &&& entry_requests(lookup.entry, config, written) == Seq::<Request>::empty()
                &&& after_entry(lookup.entry, false, config.decode, answers, written) == written
            },
            Found::Fetch(fetch) => {
                &&& fetch.entry == lookup.entry
                &&& fetch.name == Some(lookup.name)
                &&& fetch.run == lookup.run
                &&& entry_requests(fetch.entry, config, written) == seq![
                    request_of(fetch.entry, config),
                ]
                &&& !written.files.contains_key(lookup.name@)
            },
        },
{
}

/// Whatever `Fetch::request` returns is the request that the entry calls for.
pub proof fn fetch_requests_its_capture(
    fetch: Fetch,
    config: CaptureConfig,
    request: HttpRequest,
)
    requires
        call_ensures(Fetch::request, (&fetch, &config), request),
    ensures
        request@ == request_of(fetch.entry, config),
{
}

/// Whatever `Fetch::failed` returns, the turn of an entry whose capture cannot be
/// had writes nothing, and the rest of the run goes on.
pub proof fn failed_fetch_writes_nothing(
    fetch: Fetch,
    rest: MetricsRun,
    config: CaptureConfig,
    answers: Answers,
    written: Written,
)
    requires
        answers(fetch.entry) is None,
        call_ensures(Fetch::failed, (fetch,), rest),
    ensures
        rest == fetch.run,
        after_entry(fetch.entry, config.to_stdout(), config.decode, answers, written) == written,
{
}

/// Whatever `Fetch::fetched` returns, to write its record, if there is one, is to
/// write what the turn of the entry calls for.
pub proof fn fetched_capture_is_recorded(
    fetch: Fetch,
    data: &[u8],
    config: CaptureConfig,
    fetched: (Result<Record, CaptureError>, MetricsRun),
    answers: Answers,
    written: Written,
)
    requires
        answers(fetch.entry) == Some(data@),
        fetch.name is None <==> config.to_stdout(),
        fetch.name matches Some(name) ==> name@ == entry_file(fetch.entry)
            && !written.files.contains_key(name@),
        call_ensures(Fetch::fetched, (fetch, data, &config), fetched),
    ensures
        fetched.1 == fetch.run,
        after_entry(fetch.entry, config.to_stdout(), config.decode, answers, written)
            == match fetched.0 {
            Ok(record) => with_record(written, record),
            Err(_) => written,
        },
{
}

/// Whatever `Fetch::fetched` returns, the record of a capture does not depend on
/// where it goes or on how it is to look: the style alone does, and only the
/// records in files are spread over lines, where the configuration says so.
pub proof fn style_leaves_the_record(
    fetch: Fetch,
    other: Fetch,
    data: &[u8],
    config: CaptureConfig,
    other_config: CaptureConfig,
    fetched: (Result<Record, CaptureError>, MetricsRun),
    other_fetched: (Result<Record, CaptureError>, MetricsRun),
)
    requires
        fetch.entry == other.entry,
        config.decode == other_config.decode,
        call_ensures(Fetch::fetched, (fetch, data, &config), fetched),
        call_ensures(Fetch::fetched, (other, data, &other_config), other_fetched),
    ensures
        match (fetched.0, other_fetched.0) {
            (Ok(record), Ok(other_record)) => {
                &&& saved(record.entry, json::members(record.entry.capture->0)) == saved(
                    other_record.entry,
                    json::members(other_record.entry.capture->0),
                )
                &&& record.style.pretty == (fetch.name is Some && config.pretty)
                &&& other_record.style.pretty == (other.name is Some && other_config.pretty)
            },
            (Err(error), Err(other_error)) => error@ == other_error@,
            _ => false,
        },
{
}

/// Whether a run has a file of this name when it comes to the entry at `at`: the
/// file was there before, or an earlier entry has left it.
pub open spec fn has_file(
    entries: Seq<ActivityLogEntry>,
    at: int,
    name: Seq<char>,
    decode: bool,
    answers: Answers,
    written: Written,
) -> bool {
    ||| written.files.contains_key(name)
    ||| exists|i: int|
        0 <= i < at && (#[trigger] entries[i]).has_capture && record_of(
            entries[i],
            decode,
            answers,
        ) is Some && entry_file(entries[i]) == name
}

/// Whether a run wants the capture of the entry at `at`: the entry has one, and
/// its file is not there.
pub open spec fn is_wanted(
    entries: Seq<ActivityLogEntry>,
    at: int,
    config: CaptureConfig,
    answers: Answers,
    written: Written,
) -> bool {
    &&& entries[at].has_capture
    &&& config.to_stdout() || !has_file(
        entries,
        at,
        entry_file(entries[at]),
        config.decode,
        answers,
        written,
    )
}

/// The requests for the captures that a run wants, from the entry at `from` on, in
/// the order of the entries.
pub open spec fn wanted_requests(
    entries: Seq<ActivityLogEntry>,
    from: int,
    config: CaptureConfig,
    answers: Answers,
    written: Written,
) -> Seq<Request>
    decreases entries.len() - from,
{
    if from >= entries.len() {
        Seq::empty()
    } else {
        let rest = wanted_requests(entries, from + 1, config, answers, written);
        if is_wanted(entries, from, config, answers, written) {
            seq![request_of(entries[from], config)] + rest
        } else {
            rest
        }
    }
}

/// A run that is not cancelled requests the captures of the entries that have one,
/// each once and in the order of the entries, less those whose file is there.
pub proof fn wanted_captures_are_requested(
    entries: Seq<ActivityLogEntry>,
    turns: nat,
    config: CaptureConfig,
    answers: Answers,
    written: Written,
)
    requires
        turns >= entries.len(),
    ensures
        run_requests(entries, turns, config, answers, written) == wanted_requests(
            entries,
            0,
            config,
            answers,
            written,
        ),
{
    assert(entries.skip(0) =~= entries);
    lemma_requests(entries, 0, turns, config, answers, written, written);
}

/// The requests of a run that has come to the entry at `from`, with what it has
/// written until then.
proof fn lemma_requests(
    entries: Seq<ActivityLogEntry>,
    from: int,
    turns: nat,
    config: CaptureConfig,
    answers: Answers,
    written: Written,
    until: Written,
)
    requires
        0 <= from <= entries.len(),
        turns >= entries.len() - from,
        !config.to_stdout() ==> forall|name: Seq<char>| #[trigger]
            until.files.contains_key(name) <==> has_file(
                entries,
                from,
                name,
                config.decode,
                answers,
                written,
            ),
    ensures
        run_requests(entries.skip(from), turns, config, answers, until) == wanted_requests(
            entries,
            from,
            config,
            answers,
            written,
        ),
    decreases entries.len() - from,
{
    let left = entries.skip(from);
    if from < entries.len() {
        let entry = entries[from];
        let rest = entries.skip(from + 1);
        assert(left[0] == entry);
        assert(left.drop_first() =~= rest);
        if entry.has_capture {
            assert(left.skip(1) =~= rest);
            let next = after_entry(entry, config.to_stdout(), config.decode, answers, until);
            if !config.to_stdout() {
                assert forall|name: Seq<char>| #[trigger] next.files.contains_key(name)
                    <==> has_file(entries, from + 1, name, config.decode, answers, written) by {
                    lemma_has_file(entries, from, name, config.decode, answers, written);
                }
            }
            lemma_requests(
                entries,
                from + 1,
                (turns - 1) as nat,
                config,
                answers,
                written,
                next,
            );
        } else {
            assert forall|name: Seq<char>|
                has_file(entries, from + 1, name, config.decode, answers, written) <==> has_file(
                    entries,
                    from,
                    name,
                    config.decode,
                    answers,
                    written,
                ) by {
                lemma_has_file(entries, from, name, config.decode, answers, written);
            }
            lemma_requests(entries, from + 1, turns, config, answers, written, until);
            let at = without_capture(rest) as int;
            next_entry_is_the_first_capture(rest);
            assert(without_capture(left) == at + 1);
            if at < rest.len() {
                assert(left[at + 1] == rest[at]);
                assert(left.skip(at + 2) =~= rest.skip(at + 1));
            }
        }
    }
}

/// What the entry at `at` adds to the files that a run has.
proof fn lemma_has_file(
    entries: Seq<ActivityLogEntry>,
    at: int,
    name: Seq<char>,
    decode: bool,
    answers: Answers,
    written: Written,
)
    requires
        0 <= at < entries.len(),
    ensures
        has_file(entries, at + 1, name, decode, answers, written) <==> {
            ||| has_file(entries, at, name, decode, answers, written)
            ||| entries[at].has_capture && record_of(entries[at], decode, answers) is Some
                && entry_file(entries[at]) == name
        },
{
}

/// Whether a request is for the capture of an entry that has one.
pub open spec fn is_for_a_capture(
    request: Request,
    entries: Seq<ActivityLogEntry>,
    config: CaptureConfig,
) -> bool {
    exists|i: int|
        0 <= i < entries.len() && (#[trigger] entries[i]).has_capture && request == request_of(
            entries[i],
            config,
        )
}

/// Whatever a run requests, cancelled or not, is the capture of an entry that has
/// one.
pub proof fn only_captures_are_requested(
    entries: Seq<ActivityLogEntry>,
    turns: nat,
    config: CaptureConfig,
    answers: Answers,
    written: Written,
)
    ensures
        ({
            let requests = run_requests(entries, turns, config, answers, written);
            forall|i: int|
                0 <= i < requests.len() ==> is_for_a_capture(
                    #[trigger] requests[i],
                    entries,
                    config,
                )
        }),
    decreases entries.len(),
{
    let at = without_capture(entries) as int;
    if turns > 0 && at < entries.len() {
        next_entry_is_the_first_capture(entries);
        let rest = entries.skip(at + 1);
        let next = after_entry(
            entries[at],
            config.to_stdout(),
            config.decode,
            answers,
            written,
        );
        only_captures_are_requested(rest, (turns - 1) as nat, config, answers, next);
        let first = entry_requests(entries[at], config, written);
        let more = run_requests(rest, (turns - 1) as nat, config, answers, next);
        let requests = run_requests(entries, turns, config, answers, written);
        assert forall|i: int| 0 <= i < requests.len() implies is_for_a_capture(
            #[trigger] requests[i],
            entries,
            config,
        ) by {
            if i < first.len() {
                assert(requests[i] == request_of(entries[at], config));
            } else {
                assert(requests[i] == more[i - first.len()]);
                let k = choose|k: int|
                    0 <= k < rest.len() && (#[trigger] rest[k]).has_capture && more[i
                        - first.len()] == request_of(rest[k], config);
                assert(entries[at + 1 + k] == rest[k]);
            }
        }
    }
}

/// A run that is cancelled before its first turn requests nothing and writes
/// nothing.
pub proof fn cancelled_run_does_nothing(
    entries: Seq<ActivityLogEntry>,
    config: CaptureConfig,
    answers: Answers,
    written: Written,
)
    ensures
        run_requests(entries, 0, config, answers, written) == Seq::<Request>::empty(),
        after_run(entries, 0, config.to_stdout(), config.decode, answers, written) == written,
{
}

/// No run changes a file that is there, and no run takes a record back.
pub proof fn files_are_never_overwritten(
    entries: Seq<ActivityLogEntry>,
    turns: nat,
    to_stdout: bool,
    decode: bool,
    answers: Answers,
    written: Written,
)
    ensures
        ({
            let after = after_run(entries, turns, to_stdout, decode, answers, written);
            &&& written.files.submap_of(after.files)
            &&& written.printed.is_prefix_of(after.printed)
            &&& to_stdout ==> after.files == written.files
            &&& !to_stdout ==> after.printed == written.printed
        }),
    decreases entries.len(),
{
    let at = without_capture(entries) as int;
    if turns > 0 && at < entries.len() {
        let next = after_entry(entries[at], to_stdout, decode, answers, written);
        files_are_never_overwritten(
            entries.skip(at + 1),
            (turns - 1) as nat,
            to_stdout,
            decode,
            answers,
            next,
        );
        let after = after_run(entries, turns, to_stdout, decode, answers, written);
        assert(written.files.submap_of(next.files));
        assert(next.files.submap_of(after.files));
        let count = written.printed.len() as int;
        assert(written.printed =~= next.printed.subrange(0, count));
        assert(next.printed =~= after.printed.subrange(0, next.printed.len() as int));
        assert(written.printed =~= after.printed.subrange(0, count));
        assert(written.printed.is_prefix_of(after.printed));
        assert forall|name: Seq<char>| #[trigger] written.files.dom().contains(name) implies {
            &&& #[trigger] after.files.dom().contains(name)
            &&& written.files[name] == after.files[name]
        } by {
            assert(next.files.dom().contains(name) && next.files[name] == written.files[name]);
            assert(after.files.dom().contains(name));
        }
    } else {
        assert(written.printed =~= written.printed.subrange(0, written.printed.len() as int));
        assert(written.printed.is_prefix_of(written.printed));
        assert(written.files.submap_of(written.files));
    }
}

/// Whether a record is that of an entry of an event that has a capture.
pub open spec fn is_of_event(
    saved: Saved,
    entries: Seq<ActivityLogEntry>,
    decode: bool,
    answers: Answers,
) -> bool {
    exists|i: int|
        0 <= i < entries.len() && (#[trigger] entries[i]).has_capture && record_of(
            entries[i],
            decode,
            answers,
        ) == Some(saved)
}

/// Whatever a run writes is the record of an entry of the event that has a
/// capture, in the file of that entry or on the standard output.
pub proof fn only_captures_are_written(
    entries: Seq<ActivityLogEntry>,
    turns: nat,
    to_stdout: bool,
    decode: bool,
    answers: Answers,
    written: Written,
)
    ensures
        ({
            let after = after_run(entries, turns, to_stdout, decode, answers, written);
            &&& forall|name: Seq<char>| #[trigger]
                after.files.contains_key(name) && !written.files.contains_key(name) ==> {
                    &&& is_of_event(after.files[name], entries, decode, answers)
                    &&& name == entry_file(after.files[name].entry)
                }
            &&& forall|i: int|
                written.printed.len() <= i < after.printed.len() ==> is_of_event(
                    #[trigger] after.printed[i],
                    entries,
                    decode,
                    answers,
                )
        }),
    decreases entries.len(),
{
    let at = without_capture(entries) as int;
    if turns > 0 && at < entries.len() {
        next_entry_is_the_first_capture(entries);
        let entry = entries[at];
        let rest = entries.skip(at + 1);
        let next = after_entry(entry, to_stdout, decode, answers, written);
        let after = after_run(entries, turns, to_stdout, decode, answers, written);
        only_captures_are_written(rest, (turns - 1) as nat, to_stdout, decode, answers, next);
        files_are_never_overwritten(rest, (turns - 1) as nat, to_stdout, decode, answers, next);
        assert forall|saved: Saved| is_of_event(saved, rest, decode, answers) implies is_of_event(
            saved,
            entries,
            decode,
            answers,
        ) by {
            let i = choose|i: int|
                0 <= i < rest.len() && (#[trigger] rest[i]).has_capture && record_of(
                    rest[i],
                    decode,
                    answers,
                ) == Some(saved);
            assert(entries[at + 1 + i] == rest[i]);
        }
        assert forall|name: Seq<char>| #[trigger]
            after.files.contains_key(name) && !written.files.contains_key(name) implies {
            &&& is_of_event(after.files[name], entries, decode, answers)
            &&& name == entry_file(after.files[name].entry)
        } by {
            if next.files.contains_key(name) {
                assert(after.files[name] == next.files[name]);
                assert(record_of(entries[at], decode, answers) == Some(after.files[name]));
            }
        }
        assert forall|i: int| written.printed.len() <= i < after.printed.len() implies is_of_event(
            #[trigger] after.printed[i],
            entries,
            decode,
            answers,
        ) by {
            if i < next.printed.len() {
                assert(after.printed.take(next.printed.len() as int)[i] == next.printed[i]);
                assert(record_of(entries[at], decode, answers) == Some(after.printed[i]));
            }
        }
    }
}

/// A run that is not cancelled leaves a file for every capture that can be
/// recorded.
pub proof fn every_capture_gets_its_file(
    entries: Seq<ActivityLogEntry>,
    turns: nat,
    decode: bool,
    answers: Answers,
    written: Written,
)
    requires
        turns >= entries.len(),
    ensures
        forall|i: int|
            0 <= i < entries.len() && (#[trigger] entries[i]).has_capture && record_of(
                entries[i],
                decode,
                answers,
            ) is Some ==> after_run(
                entries,
                turns,
                false,
                decode,
                answers,
                written,
            ).files.contains_key(entry_file(entries[i])),
    decreases entries.len(),
{
    next_entry_is_the_first_capture(entries);
    let at = without_capture(entries) as int;
    if at < entries.len() {
        let rest = entries.skip(at + 1);
        let next = after_entry(entries[at], false, decode, answers, written);
        let after = after_run(entries, turns, false, decode, answers, written);
        every_capture_gets_its_file(rest, (turns - 1) as nat, decode, answers, next);
        files_are_never_overwritten(rest, (turns - 1) as nat, false, decode, answers, next);
        assert forall|i: int|
            0 <= i < entries.len() && (#[trigger] entries[i]).has_capture && record_of(
                entries[i],
                decode,
                answers,
            ) is Some implies after.files.contains_key(entry_file(entries[i])) by {
            if i == at {
                assert(next.files.contains_key(entry_file(entries[i])));
            } else if i > at {
                assert(rest[i - at - 1] == entries[i]);
            }
        }
    }
}

proof fn lemma_nothing_new(
    entries: Seq<ActivityLogEntry>,
    turns: nat,
    decode: bool,
    answers: Answers,
    written: Written,
)
    requires
        forall|i: int|
            0 <= i < entries.len() && (#[trigger] entries[i]).has_capture && record_of(
                entries[i],
                decode,
                answers,
            ) is Some ==> written.files.contains_key(entry_file(entries[i])),
    ensures
        after_run(entries, turns, false, decode, answers, written) == written,
    decreases entries.len(),
{
    next_entry_is_the_first_capture(entries);
    let at = without_capture(entries) as int;
    if turns > 0 && at < entries.len() {
        let rest = entries.skip(at + 1);
        assert(after_entry(entries[at], false, decode, answers, written) == written);
        assert forall|i: int|
            0 <= i < rest.len() && (#[trigger] rest[i]).has_capture && record_of(
                rest[i],
                decode,
                answers,
            ) is Some implies written.files.contains_key(entry_file(rest[i])) by {
            assert(entries[at + 1 + i] == rest[i]);
        }
        lemma_nothing_new(rest, (turns - 1) as nat, decode, answers, written);
    }
}

/// A run over an event that was run over before changes nothing.
pub proof fn repeated_run_changes_nothing(
    entries: Seq<ActivityLogEntry>,
    turns: nat,
    again: nat,
    decode: bool,
    answers: Answers,
    written: Written,
)
    requires
        turns >= entries.len(),
    ensures
        ({
            let once = after_run(entries, turns, false, decode, answers, written);
            after_run(entries, again, false, decode, answers, once) == once
        }),
{
    let once = after_run(entries, turns, false, decode, answers, written);
    every_capture_gets_its_file(entries, turns, decode, answers, written);
    lemma_nothing_new(entries, again, decode, answers, once);
}

/// The records of the entries that have a capture, in their order.
pub open spec fn records(
    entries: Seq<ActivityLogEntry>,
    decode: bool,
    answers: Answers,
) -> Seq<Saved>
    decreases entries.len(),
{
    if entries.len() == 0 {
        Seq::empty()
    } else {
        let rest = records(entries.drop_first(), decode, answers);
        if entries[0].has_capture {
            match record_of(entries[0], decode, answers) {
                Some(saved) => seq![saved] + rest,
                None => rest,
            }
        } else {
            rest
        }
    }
}

/// A run to the standard output that is not cancelled prints the record of every
/// capture that can be recorded, each once and in the order of the entries.
pub proof fn every_capture_is_printed(
    entries: Seq<ActivityLogEntry>,
    turns: nat,
    decode: bool,
    answers: Answers,
    written: Written,
)
    requires
        turns >= entries.len(),
    ensures
        after_run(entries, turns, true, decode, answers, written).printed == written.printed
            + records(entries, decode, answers),
    decreases entries.len(),
{
    next_entry_is_the_first_capture(entries);
    let at = without_capture(entries) as int;
    lemma_records(entries, at, decode, answers);
    if at < entries.len() {
        let rest = entries.skip(at + 1);
        let next = after_entry(entries[at], true, decode, answers, written);
        every_capture_is_printed(rest, (turns - 1) as nat, decode, answers, next);
        assert(entries.skip(at).drop_first() =~= rest);
        assert(next.printed + records(rest, decode, answers) =~= written.printed + records(
            entries,
            decode,
            answers,
        ));
    } else {
        assert(entries.skip(at) =~= Seq::<ActivityLogEntry>::empty());
        assert(written.printed + records(entries, decode, answers) =~= written.printed);
    }
}

proof fn lemma_records(
    entries: Seq<ActivityLogEntry>,
    at: int,
    decode: bool,
    answers: Answers,
)
    requires
        0 <= at <= entries.len(),
        forall|i: int| 0 <= i < at ==> !(#[trigger] entries[i]).has_capture,
    ensures
        records(entries, decode, answers) == records(entries.skip(at), decode, answers),
    decreases at,
{
    if at == 0 {
        assert(entries.skip(0) =~= entries);
    } else {
        let rest = entries.drop_first();
        assert forall|i: int| 0 <= i < at - 1 implies !(#[trigger] rest[i]).has_capture by {
            assert(entries[i + 1] == rest[i]);
        }
        assert(!entries[0].has_capture);
        lemma_records(rest, at - 1, decode, answers);
        assert(rest.skip(at - 1) =~= entries.skip(at));
    }
}

} // verus!
