//! What a scan counts, one more event, call or file at a time.

use vstd::prelude::*;

use crate::discovery::FileView;
use crate::model::CallView;
use crate::model::EventView;
use crate::model::ModelConfidence;
use crate::model::ResultView;
use crate::model::SourceFormat;
use crate::scan::archived_files;
use crate::scan::call_key;
use crate::scan::candidates;
use crate::scan::counted_lines;
use crate::scan::event_counts;
use crate::scan::failed_files;
use crate::scan::file_calls;
use crate::scan::firsts;
use crate::scan::legacy_records;
use crate::scan::legacy_usage;
use crate::scan::scan_call;
use crate::scan::scan_diagnostics;
use crate::scan::scanned_calls;
use crate::scan::tokens_without_model;
use crate::scan::with_inferred_model;
use crate::scan::with_response_id;
use crate::scan::without_model;

verus! {

/// A file with usage records tells of a session, in its header or in one of them.
pub open spec fn tells_session(r: ResultView, session: Seq<char>) -> bool {
    &&& r.primary_events > 0
    &&& {
        ||| r.meta.session_id == Some(session)
        ||| exists|j: int|
            0 <= j < r.raw_calls.len() && (#[trigger] r.raw_calls[j]).source_format
                == SourceFormat::TokenUsageRecord && r.raw_calls[j].session_id == Some(session)
    }
}

/// Some file with usage records tells of a session.
pub open spec fn some_file_tells(results: Seq<ResultView>, session: Option<Seq<char>>) -> bool {
    session is Some && exists|i: int|
        0 <= i < results.len() && tells_session(#[trigger] results[i], session->0)
}

proof fn lemma_covered(results: Seq<ResultView>, session: Option<Seq<char>>)
    ensures
        crate::scan::is_covered(results, session) <==> some_file_tells(results, session),
{
    if session is Some {
        let s = session->0;
        assert forall|i: int| 0 <= i < results.len() implies (crate::scan::covers(
            #[trigger] results[i],
            s,
        ) <==> tells_session(results[i], s)) by {}
        if some_file_tells(results, session) {
            let i = choose|i: int|
                0 <= i < results.len() && tells_session(#[trigger] results[i], s);
            assert(crate::scan::covers(results[i], s));
        }
        if crate::scan::is_primary(results, s) {
            let i = choose|i: int|
                0 <= i < results.len() && crate::scan::covers(#[trigger] results[i], s);
            assert(tells_session(results[i], s));
        }
    }
}

/// Every usage record counts. A legacy event counts if and only if its file has no usage records,
/// and no file with usage records tells of its session, its own or else that of its header.
pub proof fn law_which_events_count(results: Seq<ResultView>, r: ResultView, e: EventView)
    ensures
        e.source_format == SourceFormat::TokenUsageRecord ==> event_counts(results, r, e),
        e.source_format == SourceFormat::LegacyTokenCount ==> (event_counts(results, r, e)
            <==> r.primary_events == 0 && !some_file_tells(
            results,
            if e.session_id is Some {
                e.session_id
            } else {
                r.meta.session_id
            },
        )),
{
    lemma_covered(results, crate::parser::first_of(e.session_id, r.meta.session_id));
}

/// Each event of a file that counts adds its call, with its own usage and ids and the file that it
/// comes from; others add none.
pub proof fn law_counted_events_become_calls(
    results: Seq<ResultView>,
    r: ResultView,
    f: FileView,
    n: nat,
)
    requires
        n < r.raw_calls.len(),
    ensures
        ({
            let (a, b) = (file_calls(results, r, f, n), file_calls(results, r, f, n + 1));
            let e = r.raw_calls[n as int];
            &&& file_calls(results, r, f, 0).len() == 0
            &&& event_counts(results, r, e) ==> b.len() == a.len() + 1 && b.drop_last() == a
            &&& event_counts(results, r, e) ==> b.last() == scan_call(r, f, e) && b.last().usage
                == e.usage && b.last().response_id == e.response_id && b.last().source_file
                == f.path && b.last().archived == f.archived && b.last().source_ordinal
                == e.source_ordinal && b.last().timestamp_utc == e.timestamp_utc
            &&& !event_counts(results, r, e) ==> b == a
        }),
{
    let (a, b) = (file_calls(results, r, f, n), file_calls(results, r, f, n + 1));
    if event_counts(results, r, r.raw_calls[n as int]) {
        assert(b.drop_last() =~= a);
    }
}

/// The calls of one more file stand behind those of the files before it.
pub proof fn law_files_are_taken_in_order(
    results: Seq<ResultView>,
    files: Seq<FileView>,
    n: nat,
)
    requires
        n < results.len() == files.len(),
    ensures
        candidates(results, files, 0).len() == 0,
        candidates(results, files, n + 1) == candidates(results, files, n) + file_calls(
            results,
            results[n as int],
            files[n as int],
            results[n as int].raw_calls.len(),
        ),
{
}

/// Two calls are the same if and only if they share their response id, or have none and share their
/// identity.
pub proof fn law_same_calls_share_an_id(a: CallView, b: CallView)
    ensures
        call_key(a) == call_key(b) <==> (a.response_id is Some && b.response_id == a.response_id) || (
        a.response_id is None && b.response_id is None && a.event_uid == b.event_uid),
{
    reveal_strlit("rid:");
    reveal_strlit("uid:");
    let (p, q) = ("rid:"@, "uid:"@);
    assert(p[0] != q[0]);
    if a.response_id is Some {
        assert(call_key(a)[0] == p[0]);
        assert(call_key(a).skip(4) =~= a.response_id->0);
    } else {
        assert(call_key(a)[0] == q[0]);
        assert(call_key(a).skip(4) =~= a.event_uid);
    }
    if b.response_id is Some {
        assert(call_key(b)[0] == p[0]);
        assert(call_key(b).skip(4) =~= b.response_id->0);
    } else {
        assert(call_key(b)[0] == q[0]);
        assert(call_key(b).skip(4) =~= b.event_uid);
    }
}

/// One more call is kept, as it is and at the end, if and only if none before it is the same.
pub proof fn law_first_of_each_call_is_kept(calls: Seq<CallView>, c: CallView)
    ensures
        ({
            let known = exists|i: int|
                0 <= i < calls.len() && call_key(#[trigger] calls[i]) == call_key(c);
            &&& known ==> firsts(calls.push(c)) == firsts(calls)
            &&& !known ==> firsts(calls.push(c)) == firsts(calls).push(c)
        }),
{
    assert(calls.push(c).drop_last() =~= calls);
    assert(crate::scan::has_call_key(calls, call_key(c)) <==> exists|i: int|
        0 <= i < calls.len() && call_key(#[trigger] calls[i]) == call_key(c));
}

/// What one more call adds to the counts of calls: one with a response id to those; one without a
/// model to those, with its tokens; one whose model was inferred to those.
pub proof fn law_counts_of_calls(calls: Seq<CallView>, c: CallView)
    ensures
        with_response_id(calls.push(c)) == with_response_id(calls) + (if c.response_id is Some {
            1int
        } else {
            0
        }),
        without_model(calls.push(c)) == without_model(calls) + (if c.model_slug is None {
            1int
        } else {
            0
        }),
        c.model_slug is None ==> tokens_without_model(calls.push(c)) == tokens_without_model(
            calls,
        ).wrapping_add(c.usage.total_tokens),
        c.model_slug is Some ==> tokens_without_model(calls.push(c)) == tokens_without_model(calls),
        with_inferred_model(calls.push(c)) == with_inferred_model(calls) + (if c.model_slug is Some
            && c.model_confidence == ModelConfidence::Inferred {
            1int
        } else {
            0
        }),
        with_response_id(Seq::<CallView>::empty()) == 0,
        without_model(Seq::<CallView>::empty()) == 0,
        tokens_without_model(Seq::<CallView>::empty()) == 0,
        with_inferred_model(Seq::<CallView>::empty()) == 0,
{
    assert(calls.push(c).drop_last() =~= calls);
}

/// What one more file adds to the counts of a scan: the numbers that its lines came to, and its
/// messages.
pub proof fn law_counts_of_files(results: Seq<ResultView>, r: ResultView)
    ensures
        ({
            let (a, b) = (counted_lines(results), counted_lines(results.push(r)));
            &&& b.lines_total == a.lines_total.wrapping_add(r.counters.lines_total)
            &&& b.usage_records == a.usage_records.wrapping_add(r.counters.usage_records)
            &&& b.subset_violations == a.subset_violations.wrapping_add(
                r.counters.subset_violations,
            )
            &&& b.calls_without_response_id == a.calls_without_response_id.wrapping_add(
                r.counters.records_without_response_id,
            )
            &&& b.legacy_null_info == a.legacy_null_info.wrapping_add(r.counters.legacy_null_info)
            &&& b.legacy_total_usage_present == a.legacy_total_usage_present.wrapping_add(
                r.counters.legacy_total_usage_present,
            )
            &&& b.parse_errors == a.parse_errors + r.errors
            &&& failed_files(results.push(r)) == failed_files(results) + (if r.open_failed {
                1int
            } else {
                0
            })
        }),
{
    assert(results.push(r).drop_last() =~= results);
}

/// One more file counts as archived if and only if it is.
pub proof fn law_archived_files_are_counted(files: Seq<FileView>, f: FileView)
    ensures
        archived_files(Seq::<FileView>::empty()) == 0,
        archived_files(files.push(f)) == archived_files(files) + (if f.archived {
            1int
        } else {
            0
        }),
{
    assert(files.push(f).drop_last() =~= files);
}

/// The legacy events of a file count as such if and only if the file has no usage records and no
/// file with usage records tells of the session of its header.
pub proof fn law_legacy_files_are_counted(results: Seq<ResultView>, n: nat)
    requires
        n < results.len(),
    ensures
        ({
            let r = results[n as int];
            let counts = r.primary_events == 0 && !some_file_tells(results, r.meta.session_id);
            &&& legacy_records(results, 0) == 0
            &&& counts && r.legacy_events > 0 ==> legacy_records(results, n + 1) == legacy_records(
                results,
                n,
            ).wrapping_add(r.legacy_events)
            &&& !counts || r.legacy_events == 0 ==> legacy_records(results, n + 1)
                == legacy_records(results, n)
            &&& counts && r.legacy_events > 0 ==> {
                let (a, b) = (legacy_usage(results, n), legacy_usage(results, n + 1));
                &&& b.input_tokens == a.input_tokens.wrapping_add(r.legacy_totals.input_tokens)
                &&& b.cached_input_tokens == a.cached_input_tokens.wrapping_add(
                    r.legacy_totals.cached_input_tokens,
                )
                &&& b.cache_write_input_tokens == a.cache_write_input_tokens.wrapping_add(
                    r.legacy_totals.cache_write_input_tokens,
                )
                &&& b.output_tokens == a.output_tokens.wrapping_add(r.legacy_totals.output_tokens)
                &&& b.reasoning_output_tokens == a.reasoning_output_tokens.wrapping_add(
                    r.legacy_totals.reasoning_output_tokens,
                )
                &&& b.total_tokens == a.total_tokens.wrapping_add(r.legacy_totals.total_tokens)
            }
            &&& !counts || r.legacy_events == 0 ==> legacy_usage(results, n + 1) == legacy_usage(
                results,
                n,
            )
        }),
{
    lemma_covered(results, results[n as int].meta.session_id);
}

proof fn lemma_failed_within(results: Seq<ResultView>)
    ensures
        failed_files(results) <= results.len(),
    decreases results.len(),
{
    if results.len() > 0 {
        lemma_failed_within(results.drop_last());
    }
}

proof fn lemma_archived_within(files: Seq<FileView>)
    ensures
        archived_files(files) <= files.len(),
    decreases files.len(),
{
    if files.len() > 0 {
        lemma_archived_within(files.drop_last());
    }
}

proof fn lemma_counts_within(calls: Seq<CallView>)
    ensures
        with_response_id(calls) <= calls.len(),
        without_model(calls) <= calls.len(),
        with_inferred_model(calls) <= calls.len(),
        firsts(calls).len() <= calls.len(),
    decreases calls.len(),
{
    if calls.len() > 0 {
        lemma_counts_within(calls.drop_last());
    }
}

/// The diagnostics of a scan add up: every file found was parsed or failed, every call that counts
/// was taken or ignored as a duplicate, and what is told of the calls is what they come to.
pub proof fn law_diagnostics_add_up(results: Seq<ResultView>, files: Seq<FileView>)
    requires
        results.len() == files.len() <= usize::MAX,
        candidates(results, files, results.len()).len() <= u64::MAX,
    ensures
        ({
            let d = scan_diagnostics(results, files);
            let calls = scanned_calls(results, files);
            let lines = counted_lines(results);
            &&& d.files_found == files.len()
            &&& d.files_parsed + d.files_failed == d.files_found
            &&& d.files_failed == failed_files(results)
            &&& d.archived_files == archived_files(files)
            &&& d.duplicates_ignored + calls.len() == candidates(results, files, results.len()).len()
            &&& d.unique_response_ids == with_response_id(calls)
            &&& d.calls_unknown_model == without_model(calls)
            &&& d.unknown_model_tokens == tokens_without_model(calls)
            &&& d.calls_inferred_model == with_inferred_model(calls)
            &&& d.legacy_records == legacy_records(results, results.len())
            &&& d.legacy_file_totals == legacy_usage(results, results.len())
            &&& d.lines_total == lines.lines_total
            &&& d.usage_records == lines.usage_records
            &&& d.calls_without_response_id == lines.calls_without_response_id
            &&& d.legacy_null_info == lines.legacy_null_info
            &&& d.legacy_total_usage_present == lines.legacy_total_usage_present
            &&& d.subset_violations == lines.subset_violations
            &&& d.parse_errors == lines.parse_errors
        }),
{
    let all = candidates(results, files, results.len());
    lemma_failed_within(results);
    lemma_archived_within(files);
    lemma_counts_within(all);
    lemma_counts_within(firsts(all));
    vstd::arithmetic::div_mod::lemma_small_mod(
        (all.len() - firsts(all).len()) as nat,
        0x1_0000_0000_0000_0000,
    );
}

/// The call of an event of a file is made with what that file tells: the models of its turns and
/// roots, its settings, its header and its directories.
pub proof fn law_call_is_made_with_its_file(r: ResultView, f: FileView, e: EventView)
    ensures
        ({
            let c = scan_call(r, f, e);
            &&& (c.model_slug, c.model_confidence) == crate::parser::model_of(
                e,
                r.turn_models,
                r.root_models,
            )
            &&& c.service_tier == crate::parser::tier_of(e, r.thread_settings)
            &&& e.session_id is Some ==> c.session_id == e.session_id
            &&& e.session_id is None ==> c.session_id == r.meta.session_id
            &&& r.meta.cwd is Some ==> c.project_path == r.meta.cwd
            &&& r.meta.cwd is None && e.turn_id is Some && r.turn_cwd.contains_key(e.turn_id->0)
                ==> c.project_path == Some(r.turn_cwd[e.turn_id->0])
            &&& c.thread_id == e.thread_id && c.turn_id == e.turn_id && c.root_turn_id
                == e.root_turn_id && c.source_format == e.source_format
        }),
{
}

/// A scan reads every file from its first byte, its first line being line number zero, and keeps the
/// results in the order of the files.
pub proof fn law_scan_reads_whole_files(
    contents: Seq<crate::parser::FileContentView>,
    i: int,
    bytes: Seq<u8>,
)
    requires
        0 <= i < contents.len(),
        contents[i] == crate::parser::FileContentView::Whole(bytes),
    ensures
        crate::scan::results_of(contents).len() == contents.len(),
        crate::scan::results_of(contents)[i] == crate::parser::all_steps(
            crate::parser::reading(bytes, 0, false).contents,
            0,
        ),
{
}

/// A file without events adds no call.
pub proof fn law_empty_file_adds_nothing(
    results: Seq<ResultView>,
    files: Seq<FileView>,
    n: nat,
)
    requires
        n < results.len() == files.len(),
        results[n as int].raw_calls.len() == 0,
    ensures
        candidates(results, files, n + 1) == candidates(results, files, n),
{
    assert(candidates(results, files, n + 1) =~= candidates(results, files, n));
}

} // verus!
