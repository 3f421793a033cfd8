//! Counting the calls of all files at once, in memory.

use vstd::prelude::*;

use crate::discovery::FileView;
use crate::discovery::SourceFile;
use crate::model::day_of;
use crate::model::no_usage;
use crate::model::usage_sum;
use crate::model::CallView;
use crate::model::EventView;
use crate::model::FileParseResult;
use crate::model::InferenceCall;
use crate::model::ModelConfidence;
use crate::model::ResultView;
use crate::model::SourceFormat;
use crate::model::TokenUsage;
use crate::parser;
use crate::parser::call_of;
use crate::parser::first_of;
use crate::parser::parsed;
use crate::parser::FileContent;
use crate::parser::FileContentView;
use crate::text;
use crate::text::text_le;
use crate::text_map::TextMap;

verus! {

/// What a scan met. Sums over files are taken modulo 2^64.
#[derive(Debug)]
pub struct Diagnostics {
    pub files_found: usize,
    pub files_parsed: usize,
    pub files_failed: usize,
    pub lines_total: u64,
    pub usage_records: u64,
    pub unique_response_ids: u64,
    pub calls_without_response_id: u64,
    pub duplicates_ignored: u64,
    pub legacy_records: u64,
    pub legacy_null_info: u64,
    pub legacy_total_usage_present: u64,
    pub subset_violations: u64,
    pub unknown_model_tokens: u64,
    pub calls_unknown_model: u64,
    pub calls_inferred_model: u64,
    pub archived_files: usize,
    pub parse_errors: Vec<String>,
    pub legacy_file_totals: TokenUsage,
}

/// What [`Diagnostics`] say.
#[verifier::ext_equal]
pub struct DiagnosticsView {
    pub files_found: usize,
    pub files_parsed: usize,
    pub files_failed: usize,
    pub lines_total: u64,
    pub usage_records: u64,
    pub unique_response_ids: u64,
    pub calls_without_response_id: u64,
    pub duplicates_ignored: u64,
    pub legacy_records: u64,
    pub legacy_null_info: u64,
    pub legacy_total_usage_present: u64,
    pub subset_violations: u64,
    pub unknown_model_tokens: u64,
    pub calls_unknown_model: u64,
    pub calls_inferred_model: u64,
    pub archived_files: usize,
    pub parse_errors: Seq<Seq<char>>,
    pub legacy_file_totals: TokenUsage,
}

impl View for Diagnostics {
    type V = DiagnosticsView;

    open spec fn view(&self) -> DiagnosticsView {
        DiagnosticsView {
            files_found: self.files_found,
            files_parsed: self.files_parsed,
            files_failed: self.files_failed,
            lines_total: self.lines_total,
            usage_records: self.usage_records,
            unique_response_ids: self.unique_response_ids,
            calls_without_response_id: self.calls_without_response_id,
            duplicates_ignored: self.duplicates_ignored,
            legacy_records: self.legacy_records,
            legacy_null_info: self.legacy_null_info,
            legacy_total_usage_present: self.legacy_total_usage_present,
            subset_violations: self.subset_violations,
            unknown_model_tokens: self.unknown_model_tokens,
            calls_unknown_model: self.calls_unknown_model,
            calls_inferred_model: self.calls_inferred_model,
            archived_files: self.archived_files,
            parse_errors: self.parse_errors.deep_view(),
            legacy_file_totals: self.legacy_file_totals,
        }
    }
}

/// Nothing was met.
pub open spec fn no_diagnostics() -> DiagnosticsView {
    DiagnosticsView {
        files_found: 0,
        files_parsed: 0,
        files_failed: 0,
        lines_total: 0,
        usage_records: 0,
        unique_response_ids: 0,
        calls_without_response_id: 0,
        duplicates_ignored: 0,
        legacy_records: 0,
        legacy_null_info: 0,
        legacy_total_usage_present: 0,
        subset_violations: 0,
        unknown_model_tokens: 0,
        calls_unknown_model: 0,
        calls_inferred_model: 0,
        archived_files: 0,
        parse_errors: Seq::empty(),
        legacy_file_totals: no_usage(),
    }
}

impl Default for Diagnostics {
    fn default() -> (r: Self)
        ensures
            r@ == no_diagnostics(),
    {
        let r = Diagnostics {
            files_found: 0,
            files_parsed: 0,
            files_failed: 0,
            lines_total: 0,
            usage_records: 0,
            unique_response_ids: 0,
            calls_without_response_id: 0,
            duplicates_ignored: 0,
            legacy_records: 0,
            legacy_null_info: 0,
            legacy_total_usage_present: 0,
            subset_violations: 0,
            unknown_model_tokens: 0,
            calls_unknown_model: 0,
            calls_inferred_model: 0,
            archived_files: 0,
            parse_errors: Vec::new(),
            legacy_file_totals: TokenUsage::default(),
        };
        assert(r@ =~= no_diagnostics());
        r
    }
}

impl Diagnostics {
    /// Adds messages behind those that are there.
    pub fn add_errors(&mut self, errs: &Vec<String>)
        ensures
            final(self)@ == (DiagnosticsView {
                parse_errors: old(self)@.parse_errors + errs.deep_view(),
                ..old(self)@
            }),
    {
        let n: usize = errs.len();
        let ghost before = self@;
        let ghost more = errs.deep_view();
        assert(before.parse_errors + more.take(0) =~= before.parse_errors);
        let mut i: usize = 0;
        while i < n
            invariant
                n == errs@.len(),
                i <= n,
                more == errs.deep_view(),
                self@ == (DiagnosticsView {
                    parse_errors: before.parse_errors + more.take(i as int),
                    ..before
                }),
            decreases n - i,
        {
            let ghost errors = self@.parse_errors;
            let e = errs[i].clone();
            assert(more[i as int] == e@);
            self.parse_errors.push(e);
            assert(self@.parse_errors =~= errors.push(more[i as int]));
            assert(self@.parse_errors =~= before.parse_errors + more.take(i + 1));
            i += 1;
        }
        assert(more.take(n as int) =~= more);
    }
}

/// Outcome of a scan: the calls, each once, and what was met on the way.
pub struct ScanOutcome {
    pub calls: Vec<InferenceCall>,
    pub diagnostics: Diagnostics,
    pub totals: TokenUsage,
    pub files: Vec<SourceFile>,
    pub codex_home: String,
}

impl ScanOutcome {
    /// Sum of the legacy events that count, for the consistency check.
    pub fn legacy_totals(&self) -> (r: TokenUsage)
        ensures
            r == self.diagnostics@.legacy_file_totals,
    {
        self.diagnostics.legacy_file_totals
    }
}

/// What the files say, in their order.
pub open spec fn results_of(contents: Seq<FileContentView>) -> Seq<ResultView> {
    Seq::new(contents.len(), |i: int| parsed(contents[i], 0, 0, false).result)
}

/// Some record among the events belongs to the session.
pub open spec fn has_record_of(events: Seq<EventView>, session: Seq<char>) -> bool {
    exists|j: int|
        0 <= j < events.len() && (#[trigger] events[j]).source_format
            == SourceFormat::TokenUsageRecord && events[j].session_id == Some(session)
}

/// A file covers a session with usage records.
pub open spec fn covers(r: ResultView, session: Seq<char>) -> bool {
    &&& r.primary_events > 0
    &&& r.meta.session_id == Some(session) || has_record_of(r.raw_calls, session)
}

/// Some file covers the session with usage records.
pub open spec fn is_primary(results: Seq<ResultView>, session: Seq<char>) -> bool {
    exists|i: int| 0 <= i < results.len() && covers(#[trigger] results[i], session)
}

/// The session is known, and some file covers it with usage records.
pub open spec fn is_covered(results: Seq<ResultView>, session: Option<Seq<char>>) -> bool {
    session is Some && is_primary(results, session->0)
}

/// An event counts: every usage record, and of the legacy events those of a file without usage
/// records whose session, their own or that of the file, no file covers.
pub open spec fn event_counts(results: Seq<ResultView>, r: ResultView, e: EventView) -> bool {
    ||| e.source_format == SourceFormat::TokenUsageRecord
    ||| r.primary_events == 0 && !is_covered(
        results,
        first_of(e.session_id, r.meta.session_id),
    )
}

/// The call of an event of a file.
pub open spec fn scan_call(r: ResultView, f: FileView, e: EventView) -> CallView {
    call_of(
        e,
        r.meta,
        r.turn_models,
        r.turn_cwd,
        r.root_models,
        r.thread_settings,
        f.path,
        f.archived,
    )
}

/// The calls of the first `n` events of a file that count.
pub open spec fn file_calls(results: Seq<ResultView>, r: ResultView, f: FileView, n: nat) -> Seq<
    CallView,
>
    decreases n,
{
    if n == 0 {
        Seq::empty()
    } else {
        let init = file_calls(results, r, f, (n - 1) as nat);
        let e = r.raw_calls[n - 1];
        if event_counts(results, r, e) {
            init.push(scan_call(r, f, e))
        } else {
            init
        }
    }
}

/// The calls of the first `n` files that count, repeated ones too.
pub open spec fn candidates(results: Seq<ResultView>, files: Seq<FileView>, n: nat) -> Seq<CallView>
    decreases n,
{
    if n == 0 {
        Seq::empty()
    } else {
        candidates(results, files, (n - 1) as nat) + file_calls(
            results,
            results[n - 1],
            files[n - 1],
            results[n - 1].raw_calls.len(),
        )
    }
}

/// By what a call is told from others: its response id, or else its identity.
pub open spec fn call_key(c: CallView) -> Seq<char> {
    match c.response_id {
        Some(rid) => "rid:"@ + rid,
        None => "uid:"@ + c.event_uid,
    }
}

/// Some call has this key.
pub open spec fn has_call_key(calls: Seq<CallView>, k: Seq<char>) -> bool {
    exists|i: int| 0 <= i < calls.len() && call_key(#[trigger] calls[i]) == k
}

/// The calls without those whose key occurs before.
pub open spec fn firsts(calls: Seq<CallView>) -> Seq<CallView>
    decreases calls.len(),
{
    if calls.len() == 0 {
        Seq::empty()
    } else if has_call_key(calls.drop_last(), call_key(calls.last())) {
        firsts(calls.drop_last())
    } else {
        firsts(calls.drop_last()).push(calls.last())
    }
}

/// How many calls have a response id.
pub open spec fn with_response_id(calls: Seq<CallView>) -> nat
    decreases calls.len(),
{
    if calls.len() == 0 {
        0
    } else {
        with_response_id(calls.drop_last()) + if calls.last().response_id is Some {
            1nat
        } else {
            0
        }
    }
}

/// How many calls have no model.
pub open spec fn without_model(calls: Seq<CallView>) -> nat
    decreases calls.len(),
{
    if calls.len() == 0 {
        0
    } else {
        without_model(calls.drop_last()) + if calls.last().model_slug is None {
            1nat
        } else {
            0
        }
    }
}

/// The tokens of the calls that have no model, modulo 2^64.
pub open spec fn tokens_without_model(calls: Seq<CallView>) -> u64
    decreases calls.len(),
{
    if calls.len() == 0 {
        0
    } else if calls.last().model_slug is None {
        tokens_without_model(calls.drop_last()).wrapping_add(calls.last().usage.total_tokens)
    } else {
        tokens_without_model(calls.drop_last())
    }
}

/// How many calls have a model that was inferred.
pub open spec fn with_inferred_model(calls: Seq<CallView>) -> nat
    decreases calls.len(),
{
    if calls.len() == 0 {
        0
    } else {
        with_inferred_model(calls.drop_last()) + if calls.last().model_slug is Some
            && calls.last().model_confidence == ModelConfidence::Inferred {
            1nat
        } else {
            0
        }
    }
}

/// How many files could not be opened.
pub open spec fn failed_files(results: Seq<ResultView>) -> nat
    decreases results.len(),
{
    if results.len() == 0 {
        0
    } else {
        failed_files(results.drop_last()) + if results.last().open_failed {
            1nat
        } else {
            0
        }
    }
}

/// How many files are archived.
pub open spec fn archived_files(files: Seq<FileView>) -> nat
    decreases files.len(),
{
    if files.len() == 0 {
        0
    } else {
        archived_files(files.drop_last()) + if files.last().archived {
            1nat
        } else {
            0
        }
    }
}

/// What the counters of the files come to.
pub open spec fn counted_lines(results: Seq<ResultView>) -> DiagnosticsView
    decreases results.len(),
{
    if results.len() == 0 {
        no_diagnostics()
    } else {
        let d = counted_lines(results.drop_last());
        let r = results.last();
        DiagnosticsView {
            lines_total: d.lines_total.wrapping_add(r.counters.lines_total),
            usage_records: d.usage_records.wrapping_add(r.counters.usage_records),
            subset_violations: d.subset_violations.wrapping_add(r.counters.subset_violations),
            calls_without_response_id: d.calls_without_response_id.wrapping_add(
                r.counters.records_without_response_id,
            ),
            legacy_null_info: d.legacy_null_info.wrapping_add(r.counters.legacy_null_info),
            legacy_total_usage_present: d.legacy_total_usage_present.wrapping_add(
                r.counters.legacy_total_usage_present,
            ),
            parse_errors: d.parse_errors + r.errors,
            ..d
        }
    }
}

/// A file counts by the legacy method: it has legacy events only, and its session is not covered.
pub open spec fn is_legacy_source(results: Seq<ResultView>, r: ResultView) -> bool {
    r.primary_events == 0 && r.legacy_events > 0 && !is_covered(results, r.meta.session_id)
}

/// The legacy events of the first `n` files that count by the legacy method, modulo 2^64.
pub open spec fn legacy_records(results: Seq<ResultView>, n: nat) -> u64
    decreases n,
{
    if n == 0 {
        0
    } else if is_legacy_source(results, results[n - 1]) {
        legacy_records(results, (n - 1) as nat).wrapping_add(results[n - 1].legacy_events)
    } else {
        legacy_records(results, (n - 1) as nat)
    }
}

/// The usage of the legacy events of the first `n` files that count by the legacy method.
pub open spec fn legacy_usage(results: Seq<ResultView>, n: nat) -> TokenUsage
    decreases n,
{
    if n == 0 {
        no_usage()
    } else if is_legacy_source(results, results[n - 1]) {
        legacy_usage(results, (n - 1) as nat).plus(results[n - 1].legacy_totals)
    } else {
        legacy_usage(results, (n - 1) as nat)
    }
}

/// The calls of a scan: of those that count, the first one of each key.
pub open spec fn scanned_calls(results: Seq<ResultView>, files: Seq<FileView>) -> Seq<CallView> {
    firsts(candidates(results, files, results.len()))
}

/// What a scan meets.
pub open spec fn scan_diagnostics(results: Seq<ResultView>, files: Seq<FileView>) -> DiagnosticsView {
    let all = candidates(results, files, results.len());
    let calls = scanned_calls(results, files);
    DiagnosticsView {
        files_found: files.len() as usize,
        files_failed: failed_files(results) as usize,
        files_parsed: (results.len() - failed_files(results)) as usize,
        archived_files: archived_files(files) as usize,
        unique_response_ids: with_response_id(calls) as u64,
        duplicates_ignored: wrapped((all.len() - calls.len()) as nat),
        legacy_records: legacy_records(results, results.len()),
        legacy_file_totals: legacy_usage(results, results.len()),
        unknown_model_tokens: tokens_without_model(calls),
        calls_unknown_model: without_model(calls) as u64,
        calls_inferred_model: with_inferred_model(calls) as u64,
        ..counted_lines(results)
    }
}

/// A number modulo 2^64.
pub open spec fn wrapped(n: nat) -> u64 {
    (n % 0x1_0000_0000_0000_0000) as u64
}

/// The calls that were taken so far, and what was met with them.
struct Tally {
    seen: TextMap<()>,
    calls: Vec<InferenceCall>,
    totals: TokenUsage,
    with_response_id: u64,
    duplicates: u64,
    without_model: u64,
    tokens_without_model: u64,
    with_inferred_model: u64,
}

impl Tally {
    /// It tells the calls of `all`.
    spec fn tells(&self, all: Seq<CallView>) -> bool {
        let calls = firsts(all);
        &&& forall|k: Seq<char>| #[trigger] self.seen@.contains_key(k) <==> has_call_key(all, k)
        &&& self.calls.deep_view() == calls
        &&& self.totals == usage_sum(calls)
        &&& self.with_response_id == with_response_id(calls)
        &&& calls.len() <= all.len()
        &&& self.duplicates == wrapped((all.len() - calls.len()) as nat)
        &&& self.without_model == without_model(calls)
        &&& self.tokens_without_model == tokens_without_model(calls)
        &&& self.with_inferred_model == with_inferred_model(calls)
    }

    fn new() -> (r: Self)
        ensures
            r.tells(Seq::empty()),
    {
        let r = Tally {
            seen: TextMap::new(),
            calls: Vec::new(),
            totals: TokenUsage::default(),
            with_response_id: 0,
            duplicates: 0,
            without_model: 0,
            tokens_without_model: 0,
            with_inferred_model: 0,
        };
        assert(r.calls.deep_view() =~= Seq::empty());
        r
    }

    /// Takes a call in, unless one with its key was taken before.
    fn take_call(&mut self, call: InferenceCall, Ghost(all): Ghost<Seq<CallView>>)
        requires
            old(self).tells(all),
        ensures
            final(self).tells(all.push(call@)),
    {
        let ghost c = call@;
        let ghost next = all.push(c);
        let ghost before = self.calls.deep_view();
        proof {
            assert(next.drop_last() =~= all);
            lemma_counts(before);
            assert forall|k: Seq<char>| has_call_key(next, k) <==> has_call_key(all, k) || k
                == call_key(c) by {
                if has_call_key(all, k) {
                    let i = choose|i: int| 0 <= i < all.len() && call_key(#[trigger] all[i]) == k;
                    assert(call_key(next[i]) == k);
                }
                if k == call_key(c) {
                    assert(call_key(next[all.len() as int]) == k);
                }
                if has_call_key(next, k) && k != call_key(c) {
                    let i = choose|i: int| 0 <= i < next.len() && call_key(#[trigger] next[i]) == k;
                    assert(call_key(all[i]) == k);
                }
            }
        }
        let key = key_of(&call);
        if self.seen.contains_key(key.as_str()) {
            proof {
                lemma_wrapped((all.len() - before.len()) as nat);
            }
            self.duplicates = self.duplicates.wrapping_add(1);
            return;
        }
        let identified = call.response_id.is_some();
        let modelled = call.model_slug.is_some();
        let inferred = call.model_confidence == ModelConfidence::Inferred;
        let usage = call.usage;
        self.seen.insert(key, ());
        self.totals.add(&usage);
        self.calls.push(call);
        let n: usize = self.calls.len();
        assert(n == before.len() + 1);
        if identified {
            self.with_response_id = self.with_response_id + 1;
        }
        if !modelled {
            self.without_model = self.without_model + 1;
            self.tokens_without_model = self.tokens_without_model.wrapping_add(usage.total_tokens);
        } else if inferred {
            self.with_inferred_model = self.with_inferred_model + 1;
        }
        proof {
            assert(self.calls.deep_view() =~= before.push(c));
            assert(before.push(c).drop_last() =~= before);
        }
    }
}

proof fn lemma_counts(calls: Seq<CallView>)
    ensures
        with_response_id(calls) <= calls.len(),
        without_model(calls) <= calls.len(),
        with_inferred_model(calls) <= calls.len(),
    decreases calls.len(),
{
    if calls.len() > 0 {
        lemma_counts(calls.drop_last());
    }
}

proof fn lemma_wrapped(n: nat)
    ensures
        wrapped(n + 1) == wrapped(n).wrapping_add(1),
{
    let m: nat = 0x1_0000_0000_0000_0000;
    assert((n + 1) % m == if n % m + 1 == m {
        0
    } else {
        (n % m + 1) as nat
    }) by (nonlinear_arith)
        requires
            m == 0x1_0000_0000_0000_0000nat,
    ;
}

fn key_of(c: &InferenceCall) -> (r: String)
    ensures
        r@ == call_key(c@),
{
    match &c.response_id {
        Some(rid) => text::join("rid:", rid.as_str()),
        None => text::join("uid:", c.event_uid.as_str()),
    }
}

/// The sessions that usage records cover, over all files.
fn primary_sessions(parsed: &Vec<FileParseResult>) -> (r: TextMap<()>)
    ensures
        forall|s: Seq<char>|
            #[trigger] r@.contains_key(s) <==> is_primary(parsed.deep_view(), s),
{
    let ghost results = parsed.deep_view();
    let mut sessions: TextMap<()> = TextMap::new();
    let n: usize = parsed.len();
    let mut i: usize = 0;
    while i < n
        invariant
            n == parsed@.len(),
            i <= n,
            results == parsed.deep_view(),
            forall|s: Seq<char>|
                #[trigger] sessions@.contains_key(s) <==> is_primary(results.take(i as int), s),
        decreases n - i,
    {
        let res = &parsed[i];
        let ghost r = results[i as int];
        assert(r == res@);
        let ghost before = sessions@;
        add_primary_sessions(res, &mut sessions);
        assert forall|s: Seq<char>| #[trigger] sessions@.contains_key(s) <==> is_primary(
            results.take(i + 1),
            s,
        ) by {
            let (a, b) = (results.take(i as int), results.take(i + 1));
            if is_primary(a, s) {
                let j = choose|j: int| 0 <= j < a.len() && covers(#[trigger] a[j], s);
                assert(covers(b[j], s));
            }
            if covers(r, s) {
                assert(covers(b[i as int], s));
            }
            if is_primary(b, s) && !covers(r, s) {
                let j = choose|j: int| 0 <= j < b.len() && covers(#[trigger] b[j], s);
                assert(covers(a[j], s));
            }
            assert(before.contains_key(s) <==> is_primary(a, s));
        }
        i += 1;
    }
    assert(results.take(n as int) =~= results);
    sessions
}

/// Adds the sessions that one file covers.
fn add_primary_sessions(res: &FileParseResult, sessions: &mut TextMap<()>)
    ensures
        forall|s: Seq<char>|
            #[trigger] final(sessions)@.contains_key(s) <==> old(sessions)@.contains_key(s)
                || covers(res@, s),
{
    if res.primary_events == 0 {
        return;
    }
    if let Some(s) = &res.meta.session_id {
        sessions.insert(s.clone(), ());
    }
    let ghost first = sessions@;
    let ghost events = res@.raw_calls;
    let n: usize = res.raw_calls.len();
    let mut j: usize = 0;
    while j < n
        invariant
            n == res.raw_calls@.len(),
            j <= n,
            events == res@.raw_calls,
            forall|s: Seq<char>|
                #[trigger] sessions@.contains_key(s) <==> first.contains_key(s) || has_record_of(
                    events.take(j as int),
                    s,
                ),
        decreases n - j,
    {
        let ev = &res.raw_calls[j];
        assert(events[j as int] == ev@);
        let ghost before = sessions@;
        if ev.source_format == SourceFormat::TokenUsageRecord {
            if let Some(s) = &ev.session_id {
                sessions.insert(s.clone(), ());
            }
        }
        assert forall|s: Seq<char>| #[trigger] sessions@.contains_key(s) <==> first.contains_key(s)
            || has_record_of(events.take(j + 1), s) by {
            let (a, b) = (events.take(j as int), events.take(j + 1));
            let e = events[j as int];
            if has_record_of(a, s) {
                let i = choose|i: int|
                    0 <= i < a.len() && (#[trigger] a[i]).source_format
                        == SourceFormat::TokenUsageRecord && a[i].session_id == Some(s);
                assert(b[i] == a[i]);
            }
            assert(b[j as int] == e);
            if has_record_of(b, s) {
                let i = choose|i: int|
                    0 <= i < b.len() && (#[trigger] b[i]).source_format
                        == SourceFormat::TokenUsageRecord && b[i].session_id == Some(s);
                if i < j {
                    assert(a[i] == b[i]);
                }
            }
            assert(before.contains_key(s) <==> first.contains_key(s) || has_record_of(a, s));
        }
        j += 1;
    }
    assert(events.take(n as int) =~= events);
}

fn is_session_covered(sessions: &TextMap<()>, session: &Option<String>) -> (r: bool)
    ensures
        r == (session is Some && sessions@.contains_key(session->0@)),
{
    match session {
        Some(s) => sessions.contains_key(s.as_str()),
        None => false,
    }
}

/// Takes in the calls of one file that count.
fn take_file(
    tally: &mut Tally,
    res: &FileParseResult,
    file: &SourceFile,
    sessions: &TextMap<()>,
    Ghost(results): Ghost<Seq<ResultView>>,
    Ghost(all): Ghost<Seq<CallView>>,
)
    requires
        old(tally).tells(all),
        forall|s: Seq<char>| #[trigger] sessions@.contains_key(s) <==> is_primary(results, s),
    ensures
        final(tally).tells(all + file_calls(results, res@, file@, res@.raw_calls.len())),
{
    let n: usize = res.raw_calls.len();
    let mut j: usize = 0;
    assert(all + file_calls(results, res@, file@, 0) =~= all);
    while j < n
        invariant
            n == res.raw_calls@.len(),
            j <= n,
            forall|s: Seq<char>| #[trigger] sessions@.contains_key(s) <==> is_primary(results, s),
            tally.tells(all + file_calls(results, res@, file@, j as nat)),
        decreases n - j,
    {
        let event = &res.raw_calls[j];
        let ghost r = res@;
        assert(r.raw_calls[j as int] == event@);
        let ghost init = file_calls(results, r, file@, j as nat);
        let ghost next = file_calls(results, r, file@, (j + 1) as nat);
        let session = if event.session_id.is_some() {
            &event.session_id
        } else {
            &res.meta.session_id
        };
        if event.source_format == SourceFormat::TokenUsageRecord || (res.primary_events == 0
            && !is_session_covered(sessions, session)) {
            let call = parser::finalize_call(
                event,
                &res.meta,
                &res.turn_models,
                &res.turn_cwd,
                &res.root_models,
                &res.thread_settings,
                file.path.as_str(),
                file.archived,
            );
            assert((all + init).push(call@) =~= all + next);
            tally.take_call(call, Ghost(all + init));
        }
        j += 1;
    }
}

/// Adds the counters of one file.
fn add_counters(d: &mut Diagnostics, res: &FileParseResult, Ghost(before): Ghost<Seq<ResultView>>)
    requires
        old(d)@ == counted_lines(before),
    ensures
        final(d)@ == counted_lines(before.push(res@)),
{
    d.lines_total = d.lines_total.wrapping_add(res.counters.lines_total);
    d.usage_records = d.usage_records.wrapping_add(res.counters.usage_records);
    d.subset_violations = d.subset_violations.wrapping_add(res.counters.subset_violations);
    d.calls_without_response_id = d.calls_without_response_id.wrapping_add(
        res.counters.records_without_response_id,
    );
    d.legacy_null_info = d.legacy_null_info.wrapping_add(res.counters.legacy_null_info);
    d.legacy_total_usage_present = d.legacy_total_usage_present.wrapping_add(
        res.counters.legacy_total_usage_present,
    );
    d.add_errors(&res.errors);
    proof {
        assert(before.push(res@).drop_last() =~= before);
    }
}

fn count_archived(files: &Vec<SourceFile>) -> (r: usize)
    ensures
        r == archived_files(files.deep_view()),
{
    let ghost all = files.deep_view();
    let mut count: usize = 0;
    let mut i: usize = 0;
    while i < files.len()
        invariant
            i <= files@.len(),
            all == files.deep_view(),
            count <= i,
            count == archived_files(all.take(i as int)),
        decreases files@.len() - i,
    {
        assert(all.take(i + 1).drop_last() =~= all.take(i as int));
        assert(all[i as int] == files@[i as int]@);
        if files[i].archived {
            count += 1;
        }
        i += 1;
    }
    assert(all.take(all.len() as int) =~= all);
    count
}

/// What counting by the legacy method comes to, over all files.
fn legacy_sums(parsed: &Vec<FileParseResult>, sessions: &TextMap<()>) -> (r: (u64, TokenUsage))
    requires
        forall|s: Seq<char>|
            #[trigger] sessions@.contains_key(s) <==> is_primary(parsed.deep_view(), s),
    ensures
        r.0 == legacy_records(parsed.deep_view(), parsed@.len()),
        r.1 == legacy_usage(parsed.deep_view(), parsed@.len()),
{
    let ghost results = parsed.deep_view();
    let mut records: u64 = 0;
    let mut usage = TokenUsage::default();
    let n: usize = parsed.len();
    let mut i: usize = 0;
    while i < n
        invariant
            n == parsed@.len(),
            i <= n,
            results == parsed.deep_view(),
            forall|s: Seq<char>| #[trigger] sessions@.contains_key(s) <==> is_primary(results, s),
            records == legacy_records(results, i as nat),
            usage == legacy_usage(results, i as nat),
        decreases n - i,
    {
        let res = &parsed[i];
        assert(results[i as int] == res@);
        if res.primary_events == 0 && res.legacy_events > 0 && !is_session_covered(
            sessions,
            &res.meta.session_id,
        ) {
            records = records.wrapping_add(res.legacy_events);
            usage.add(&res.legacy_totals);
        }
        i += 1;
    }
    (records, usage)
}

/// Scans files that were read: takes them all in, then counts each call once. Usage records come
/// first; legacy events of a session that usage records cover in any file never count.
pub fn scan(codex_home: String, files: Vec<SourceFile>, contents: &Vec<FileContent>) -> (r:
    ScanOutcome)
    requires
        files@.len() == contents@.len(),
    ensures
        r.calls.deep_view() == scanned_calls(results_of(contents.deep_view()), files.deep_view()),
        r.diagnostics@ == scan_diagnostics(results_of(contents.deep_view()), files.deep_view()),
        r.totals == usage_sum(r.calls.deep_view()),
        r.files == files,
        r.codex_home == codex_home,
{
    let ghost results = results_of(contents.deep_view());
    let ghost views = files.deep_view();
    let n: usize = files.len();
    let mut diagnostics = Diagnostics::default();
    let mut parsed: Vec<FileParseResult> = Vec::new();
    let mut failed: usize = 0;
    let mut i: usize = 0;
    assert(parsed.deep_view() =~= results.take(0));
    while i < n
        invariant
            n == contents@.len(),
            i <= n,
            results == results_of(contents.deep_view()),
            parsed.deep_view() == results.take(i as int),
            diagnostics@ == counted_lines(results.take(i as int)),
            failed == failed_files(results.take(i as int)),
            failed <= i,
        decreases n - i,
    {
        let ghost before = results.take(i as int);
        assert(contents.deep_view()[i as int] == contents@[i as int]@);
        let res = parser::parse_file(&contents[i]);
        let ghost r = res@;
        assert(results.take(i + 1) =~= before.push(r));
        assert(before.push(r).drop_last() =~= before);
        if res.open_failed {
            failed += 1;
        }
        add_counters(&mut diagnostics, &res, Ghost(before));
        parsed.push(res);
        assert(parsed.deep_view() =~= results.take(i + 1));
        i += 1;
    }
    assert(results.take(n as int) =~= results);
    let sessions = primary_sessions(&parsed);
    let (legacy_records, legacy_usage) = legacy_sums(&parsed, &sessions);
    let mut tally = Tally::new();
    let mut k: usize = 0;
    while k < n
        invariant
            n == parsed@.len(),
            n == files@.len(),
            k <= n,
            results == parsed.deep_view(),
            views == files.deep_view(),
            forall|s: Seq<char>| #[trigger] sessions@.contains_key(s) <==> is_primary(results, s),
            tally.tells(candidates(results, views, k as nat)),
        decreases n - k,
    {
        assert(results[k as int] == parsed@[k as int]@);
        assert(views[k as int] == files@[k as int]@);
        take_file(
            &mut tally,
            &parsed[k],
            &files[k],
            &sessions,
            Ghost(results),
            Ghost(candidates(results, views, k as nat)),
        );
        k += 1;
    }
    diagnostics.files_found = n;
    diagnostics.files_failed = failed;
    diagnostics.files_parsed = n - failed;
    diagnostics.archived_files = count_archived(&files);
    diagnostics.unique_response_ids = tally.with_response_id;
    diagnostics.duplicates_ignored = tally.duplicates;
    diagnostics.legacy_records = legacy_records;
    diagnostics.legacy_file_totals = legacy_usage;
    diagnostics.unknown_model_tokens = tally.tokens_without_model;
    diagnostics.calls_unknown_model = tally.without_model;
    diagnostics.calls_inferred_model = tally.with_inferred_model;
    assert(diagnostics@ =~= scan_diagnostics(results, views));
    ScanOutcome { calls: tally.calls, diagnostics, totals: tally.totals, files, codex_home }
}

/// The day of a call lies within the bounds that are given.
pub open spec fn in_period(
    c: CallView,
    from: Option<Seq<char>>,
    to: Option<Seq<char>>,
) -> bool {
    let day = day_of(c.timestamp_utc);
    &&& from is Some ==> text_le(from->0, day)
    &&& to is Some ==> text_le(day, to->0)
}

/// An optional bound told as a text.
pub open spec fn bound(b: Option<&str>) -> Option<Seq<char>> {
    match b {
        Some(s) => Some(s@),
        None => None,
    }
}

/// Tells whether the day of a call lies within the bounds.
pub fn is_in_period(c: &InferenceCall, from: Option<&str>, to: Option<&str>) -> (r: bool)
    ensures
        r == in_period(c@, bound(from), bound(to)),
{
    let day = c.day();
    if let Some(f) = from {
        if text::is_before(day, f) {
            return false;
        }
    }
    if let Some(t) = to {
        if text::is_before(t, day) {
            return false;
        }
    }
    true
}

/// Keeps the calls of the period `[from, to]`, both days belonging to it.
pub fn filter_period(calls: Vec<InferenceCall>, from: Option<&str>, to: Option<&str>) -> (r: Vec<
    InferenceCall,
>)
    ensures
        r.deep_view() == calls.deep_view().filter(
            |c: CallView| in_period(c, bound(from), bound(to)),
        ),
{
    let ghost all = calls.deep_view();
    let ghost keep = |c: CallView| in_period(c, bound(from), bound(to));
    let n: usize = calls.len();
    let mut r: Vec<InferenceCall> = Vec::new();
    let mut i: usize = 0;
    assert(r.deep_view() =~= all.take(0).filter(keep)) by {
        reveal(Seq::filter);
    }
    while i < n
        invariant
            n == calls@.len(),
            i <= n,
            all == calls.deep_view(),
            keep == (|c: CallView| in_period(c, bound(from), bound(to))),
            r.deep_view() == all.take(i as int).filter(keep),
        decreases n - i,
    {
        let c = &calls[i];
        assert(all[i as int] == c@);
        let ghost before = r.deep_view();
        proof {
            reveal(Seq::filter);
            assert(all.take(i + 1).drop_last() =~= all.take(i as int));
        }
        if is_in_period(c, from, to) {
            let kept = c.clone();
            r.push(kept);
            assert(r.deep_view() =~= before.push(all[i as int]));
        }
        i += 1;
    }
    assert(all.take(n as int) =~= all);
    r
}

} // verus!
