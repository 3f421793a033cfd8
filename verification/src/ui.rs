//! What is shown of the counts, apart from amounts and percentages.

use vstd::prelude::*;

use crate::aggregate;
use crate::aggregate::buckets;
use crate::aggregate::Bucket;
use crate::aggregate::ByThread;
use crate::import::ImportReport;
use crate::line::or_empty;
use crate::model::CallView;
use crate::model::InferenceCall;
use crate::model::TokenUsage;
use crate::order;
use crate::order::is_sorting_of;
use crate::order::Ranked;
use crate::pricing::PricingCatalog;
use crate::pricing::PricingEngine;
use crate::pricing::RuleView;
use crate::scan::ScanOutcome;
use crate::text;
use crate::text::last_part;
use crate::text::text_lt;
use crate::text_map::lemma_rows_of;
use crate::text_map::rows_of;
use crate::text_map::TextMap;

verus! {

/// What an import did, in short.
#[derive(Debug, Clone, Copy, PartialEq, Eq, Structural)]
pub struct ImportReportDto {
    pub files_seen: usize,
    pub files_skipped: usize,
    pub files_changed: usize,
    pub calls_inserted: u64,
    pub duplicates_ignored: u64,
    pub parse_errors: u64,
    pub duration_ms: u64,
}

/// Shortens the report of an import.
pub fn import_report(rep: &ImportReport) -> (r: ImportReportDto)
    ensures
        r == (ImportReportDto {
            files_seen: rep.files_seen,
            files_skipped: rep.files_skipped,
            files_changed: rep.files_changed,
            calls_inserted: rep.calls_inserted,
            duplicates_ignored: rep.duplicates_ignored,
            parse_errors: rep.parse_errors,
            duration_ms: rep.duration_ms,
        }),
{
    ImportReportDto {
        files_seen: rep.files_seen,
        files_skipped: rep.files_skipped,
        files_changed: rep.files_changed,
        calls_inserted: rep.calls_inserted,
        duplicates_ignored: rep.duplicates_ignored,
        parse_errors: rep.parse_errors,
        duration_ms: rep.duration_ms,
    }
}

/// A catalogue, and the models that it names.
#[derive(Debug)]
pub struct PricingInfoDto {
    pub catalog: String,
    pub profile: String,
    pub version: String,
    pub last_verified: String,
    pub source_url: String,
    pub models: Vec<String>,
}

/// It tells what the catalogue says.
pub open spec fn tells_catalog(d: PricingInfoDto, c: PricingCatalog) -> bool {
    &&& d.catalog@ == c.catalog@
    &&& d.profile@ == c.profile@
    &&& d.version@ == c.version@
    &&& d.last_verified@ == c.last_verified@
    &&& d.source_url@ == c.source_url@
    &&& d.models.deep_view() == c.rules.deep_view().map_values(|r: RuleView| r.model)
}

fn catalog_info(c: &PricingCatalog) -> (r: PricingInfoDto)
    ensures
        tells_catalog(r, *c),
{
    let ghost all = c.rules.deep_view().map_values(|r: RuleView| r.model);
    let n: usize = c.rules.len();
    let mut models: Vec<String> = Vec::new();
    let mut i: usize = 0;
    assert(models.deep_view() =~= all.take(0));
    while i < n
        invariant
            n == c.rules@.len(),
            all == c.rules.deep_view().map_values(|r: RuleView| r.model),
            i <= n,
            models.deep_view() == all.take(i as int),
        decreases n - i,
    {
        let ghost had = models.deep_view();
        let model = c.rules[i].model.clone();
        assert(all[i as int] == model@);
        models.push(model);
        assert(models.deep_view() =~= had.push(all[i as int]));
        assert(all.take(i + 1) =~= had.push(all[i as int]));
        i += 1;
    }
    assert(all.take(n as int) =~= all);
    PricingInfoDto {
        catalog: c.catalog.clone(),
        profile: c.profile.clone(),
        version: c.version.clone(),
        last_verified: c.last_verified.clone(),
        source_url: c.source_url.clone(),
        models,
    }
}

/// Tells of both catalogues, that of the Codex profile first.
pub fn pricing_info(engine: &PricingEngine) -> (r: Vec<PricingInfoDto>)
    ensures
        r@.len() == 2,
        tells_catalog(r@[0], engine.codex),
        tells_catalog(r@[1], engine.api),
{
    vec![catalog_info(&engine.codex), catalog_info(&engine.api)]
}

/// A scan and the store, held against each other.
pub struct DiagnosticsDto {
    pub codex_home: String,
    pub db_path: String,
    pub files_found: usize,
    pub files_parsed: usize,
    pub lines_total: u64,
    pub usage_records: u64,
    pub duplicates_ignored: u64,
    pub legacy_records: u64,
    pub parse_errors: Vec<String>,
    pub subset_violations: u64,
    pub db_calls: u64,
    pub db_input: u64,
    pub db_output: u64,
    pub consistent: bool,
    pub state_lifetime_tokens_used: u64,
    pub state_threads_by_activity: TextMap<u64>,
    pub pricing_codex_version: String,
    pub pricing_api_version: String,
    pub pricing_last_verified: String,
}

/// The first messages, ten at most.
pub open spec fn first_ten(errors: Seq<Seq<char>>) -> Seq<Seq<char>> {
    if errors.len() > 10 {
        errors.take(10)
    } else {
        errors
    }
}

/// Copies the first messages, ten at most.
pub fn shown_errors(errors: &Vec<String>) -> (r: Vec<String>)
    ensures
        r.deep_view() == first_ten(errors.deep_view()),
{
    let ghost all = first_ten(errors.deep_view());
    let n: usize = if errors.len() > 10 {
        10
    } else {
        errors.len()
    };
    let mut r: Vec<String> = Vec::new();
    let mut i: usize = 0;
    assert(r.deep_view() =~= all.take(0));
    while i < n
        invariant
            n == all.len(),
            n <= errors@.len(),
            all == first_ten(errors.deep_view()),
            i <= n,
            r.deep_view() == all.take(i as int),
        decreases n - i,
    {
        let ghost had = r.deep_view();
        let e = errors[i].clone();
        assert(errors.deep_view()[i as int] == e@);
        assert(all[i as int] == e@);
        r.push(e);
        assert(r.deep_view() =~= had.push(all[i as int]));
        assert(all.take(i + 1) =~= had.push(all[i as int]));
        i += 1;
    }
    assert(all.take(n as int) =~= all);
    r
}

/// Holds a fresh scan against the totals of the store: they agree where all counts are equal.
pub fn diagnostics(
    fresh: &ScanOutcome,
    db_path: String,
    db_calls: u64,
    db_totals: TokenUsage,
    state_threads: TextMap<u64>,
    state_tokens: i64,
    engine: &PricingEngine,
) -> (r: DiagnosticsDto)
    ensures
        r.codex_home@ == fresh.codex_home@,
        r.db_path == db_path,
        r.files_found == fresh.diagnostics.files_found,
        r.files_parsed == fresh.diagnostics.files_parsed,
        r.lines_total == fresh.diagnostics.lines_total,
        r.usage_records == fresh.diagnostics.usage_records,
        r.duplicates_ignored == fresh.diagnostics.duplicates_ignored,
        r.legacy_records == fresh.diagnostics.legacy_records,
        r.parse_errors.deep_view() == first_ten(fresh.diagnostics@.parse_errors),
        r.subset_violations == fresh.diagnostics.subset_violations,
        r.db_calls == db_calls,
        r.db_input == db_totals.input_tokens,
        r.db_output == db_totals.output_tokens,
        r.consistent == (db_totals == fresh.totals),
        r.state_lifetime_tokens_used == if state_tokens < 0 {
            0
        } else {
            state_tokens as int
        },
        r.state_threads_by_activity == state_threads,
        r.pricing_codex_version@ == engine.codex.version@,
        r.pricing_api_version@ == engine.api.version@,
        r.pricing_last_verified@ == engine.codex.last_verified@,
{
    let d = &fresh.diagnostics;
    DiagnosticsDto {
        codex_home: fresh.codex_home.clone(),
        db_path,
        files_found: d.files_found,
        files_parsed: d.files_parsed,
        lines_total: d.lines_total,
        usage_records: d.usage_records,
        duplicates_ignored: d.duplicates_ignored,
        legacy_records: d.legacy_records,
        parse_errors: shown_errors(&d.parse_errors),
        subset_violations: d.subset_violations,
        db_calls,
        db_input: db_totals.input_tokens,
        db_output: db_totals.output_tokens,
        consistent: db_totals == fresh.totals,
        state_lifetime_tokens_used: if state_tokens < 0 {
            0
        } else {
            state_tokens as u64
        },
        state_threads_by_activity: state_threads,
        pricing_codex_version: engine.codex.version.clone(),
        pricing_api_version: engine.api.version.clone(),
        pricing_last_verified: engine.codex.last_verified.clone(),
    }
}

/// A thread as it is listed.
#[derive(Debug)]
pub struct ThreadRow {
    pub thread_id: String,
    pub title: String,
    pub project: String,
    pub activity: String,
    pub bucket: Bucket,
}

/// What a [`ThreadRow`] says.
pub struct ThreadRowView {
    pub thread_id: Seq<char>,
    pub title: Seq<char>,
    pub project: Seq<char>,
    pub activity: Seq<char>,
    pub bucket: Bucket,
}

impl DeepView for ThreadRow {
    type V = ThreadRowView;

    open spec fn deep_view(&self) -> ThreadRowView {
        ThreadRowView {
            thread_id: self.thread_id@,
            title: self.title@,
            project: self.project@,
            activity: self.activity@,
            bucket: self.bucket,
        }
    }
}

/// The first call of a thread.
pub open spec fn first_call(calls: Seq<CallView>, thread: Seq<char>) -> Option<CallView>
    decreases calls.len(),
{
    if calls.len() == 0 {
        None
    } else if calls[0].thread_id == Some(thread) {
        Some(calls[0])
    } else {
        first_call(calls.drop_first(), thread)
    }
}

/// The row of a thread: title, project and activity are those of its first call.
pub open spec fn thread_row(calls: Seq<CallView>, id: Seq<char>, b: Bucket) -> ThreadRowView {
    let c = first_call(calls, id);
    ThreadRowView {
        thread_id: id,
        title: match c {
            Some(c) => or_empty(c.thread_title),
            None => Seq::empty(),
        },
        project: match c {
            Some(c) => match c.project_path {
                Some(p) => last_part(p),
                None => Seq::empty(),
            },
            None => Seq::empty(),
        },
        activity: match c {
            Some(c) => match c.activity {
                Some(a) => a,
                None => "unknown"@,
            },
            None => "unknown"@,
        },
        bucket: b,
    }
}

impl Ranked for ThreadRow {
    /// Much input first; by name where the input is the same.
    open spec fn before(a: ThreadRowView, b: ThreadRowView) -> bool {
        ||| a.bucket.usage.input_tokens > b.bucket.usage.input_tokens
        ||| a.bucket.usage.input_tokens == b.bucket.usage.input_tokens && text_lt(
            a.thread_id,
            b.thread_id,
        )
    }

    fn is_before(&self, other: &Self) -> (r: bool) {
        let a: u64 = self.bucket.usage.input_tokens;
        let b: u64 = other.bucket.usage.input_tokens;
        a > b || (a == b && text::is_before(self.thread_id.as_str(), other.thread_id.as_str()))
    }

    proof fn lemma_asymmetric(a: ThreadRowView, b: ThreadRowView) {
        if text_lt(a.thread_id, b.thread_id) && text_lt(b.thread_id, a.thread_id) {
            text::lemma_text_lt_transitive(a.thread_id, b.thread_id, a.thread_id);
            text::lemma_text_lt_irreflexive(a.thread_id);
        }
    }

    proof fn lemma_transitive(a: ThreadRowView, b: ThreadRowView, c: ThreadRowView) {
        let (x, y, z) = (a.thread_id, b.thread_id, c.thread_id);
        if text_lt(z, x) {
            text::lemma_text_lt_total(x, y);
            if text_lt(x, y) {
                text::lemma_text_lt_transitive(z, x, y);
            }
        }
    }
}

fn find_first_call<'a>(calls: &'a Vec<InferenceCall>, thread: &str) -> (r: Option<
    &'a InferenceCall,
>)
    ensures
        match r {
            Some(c) => first_call(calls.deep_view(), thread@) == Some(c@),
            None => first_call(calls.deep_view(), thread@) is None,
        },
{
    let ghost all = calls.deep_view();
    let n: usize = calls.len();
    let mut i: usize = 0;
    assert(all.skip(0) =~= all);
    while i < n
        invariant
            n == calls@.len(),
            all == calls.deep_view(),
            i <= n,
            first_call(all, thread@) == first_call(all.skip(i as int), thread@),
        decreases n - i,
    {
        let c = &calls[i];
        assert(all[i as int] == c@);
        assert(all.skip(i as int)[0] == c@);
        assert(all.skip(i as int).drop_first() =~= all.skip(i + 1));
        if let Some(t) = &c.thread_id {
            if text::same(t.as_str(), thread) {
                return Some(c);
            }
        }
        i += 1;
    }
    None
}

/// The rows of all threads, by name.
pub open spec fn all_thread_rows(calls: Seq<CallView>, rows: Seq<(Seq<char>, Bucket)>) -> Seq<
    ThreadRowView,
> {
    rows.map_values(|r: (Seq<char>, Bucket)| thread_row(calls, r.0, r.1))
}

fn make_thread_row(calls: &Vec<InferenceCall>, id: &str, b: &Bucket) -> (r: ThreadRow)
    ensures
        r.deep_view() == thread_row(calls.deep_view(), id@, *b),
{
    let mut title = String::new();
    let mut project = String::new();
    let mut activity = "unknown".to_owned();
    if let Some(c) = find_first_call(calls, id) {
        if let Some(t) = &c.thread_title {
            title = t.clone();
        }
        if let Some(p) = &c.project_path {
            project = aggregate::project_name(p.as_str());
        }
        if let Some(a) = &c.activity {
            activity = a.clone();
        }
    }
    ThreadRow { thread_id: id.to_owned(), title, project, activity, bucket: *b }
}

/// A list is the first part of another: all of it, or `limit` elements.
pub open spec fn is_head<T>(head: Seq<T>, all: Seq<T>, limit: nat) -> bool {
    head == if all.len() > limit {
        all.take(limit as int)
    } else {
        all
    }
}

/// These are the threads with the most input, `limit` of them at most, in this order.
pub open spec fn are_top_threads(
    threads: Seq<ThreadRowView>,
    rules: Seq<RuleView>,
    calls: Seq<CallView>,
    limit: nat,
) -> bool {
    exists|sorted: Seq<ThreadRowView>| #[trigger]
        is_sorting_of::<ThreadRow>(
            sorted,
            all_thread_rows(calls, rows_of(buckets::<ByThread>(rules, calls))),
        ) && is_head(threads, sorted, limit)
}

/// The number of threads that are listed where no limit is given.
pub const DEFAULT_LIMIT: u32 = 25;

/// Lists the threads with the most input, `limit` of them at most.
pub fn top_threads(calls: &Vec<InferenceCall>, engine: &PricingEngine, limit: Option<u32>) -> (r:
    Vec<ThreadRow>)
    ensures
        are_top_threads(
            r.deep_view(),
            engine.codex.rules.deep_view(),
            calls.deep_view(),
            match limit {
                Some(n) => n as nat,
                None => DEFAULT_LIMIT as nat,
            },
        ),
{
    let table = aggregate::by_thread(calls, engine);
    let n: usize = table.len();
    let ghost rows = table.rows();
    let ghost all = all_thread_rows(calls.deep_view(), rows);
    proof {
        lemma_rows_of(rows);
    }
    let mut out: Vec<ThreadRow> = Vec::new();
    let mut i: usize = 0;
    assert(out.deep_view() =~= all.take(0));
    while i < n
        invariant
            n == rows.len(),
            rows == table.rows(),
            all == all_thread_rows(calls.deep_view(), rows),
            i <= n,
            out.deep_view() == all.take(i as int),
        decreases n - i,
    {
        let ghost had = out.deep_view();
        let row = make_thread_row(calls, table.key_at(i).as_str(), table.value_at(i));
        assert(all[i as int] == row.deep_view());
        out.push(row);
        assert(out.deep_view() =~= had.push(all[i as int]));
        assert(all.take(i + 1) =~= had.push(all[i as int]));
        i += 1;
    }
    assert(all.take(n as int) =~= all);
    let limit: u32 = match limit {
        Some(n) => n,
        None => DEFAULT_LIMIT,
    };
    let mut sorted = order::sort(out);
    let ghost whole = sorted.deep_view();
    if sorted.len() > limit as usize {
        sorted.truncate(limit as usize);
    }
    assert(is_head(sorted.deep_view(), whole, limit as nat)) by {
        if whole.len() > limit {
            assert(sorted.deep_view() =~= whole.take(limit as int));
        }
    }
    sorted
}

/// The longest title, in letters, that is shown.
pub const MAX_TITLE: usize = 48;

/// How a thread is named: its id, with the beginning of its title where it has one.
pub open spec fn thread_label_of(id: Seq<char>, title: Seq<char>) -> Seq<char> {
    if title.len() == 0 {
        id
    } else {
        id + " — "@ + if title.len() > MAX_TITLE {
            title.take(MAX_TITLE as int)
        } else {
            title
        }
    }
}

/// Names a thread.
pub fn thread_label(id: &str, title: &str) -> (r: String)
    ensures
        r@ == thread_label_of(id@, title@),
{
    let len: usize = text::letters(title).len();
    let mut r = id.to_owned();
    if len > 0 {
        r.append(" — ");
        if len > MAX_TITLE {
            let head = text::part_of(title, 0, MAX_TITLE);
            assert(head@ =~= title@.take(MAX_TITLE as int));
            r.append(head.as_str());
        } else {
            r.append(title);
        }
    }
    r
}

/// How a period is named.
pub open spec fn period_text(from: Option<Seq<char>>, to: Option<Seq<char>>) -> Seq<char> {
    match (from, to) {
        (Some(f), Some(t)) => f + " → "@ + t,
        (Some(f), None) => "depuis "@ + f,
        (None, Some(t)) => "jusqu'à "@ + t,
        (None, None) => "tout l'historique"@,
    }
}

/// Names a period.
pub fn period_note(from: &Option<String>, to: &Option<String>) -> (r: String)
    ensures
        r@ == period_text(from.deep_view(), to.deep_view()),
{
    match (from, to) {
        (Some(f), Some(t)) => text::join(text::join(f.as_str(), " → ").as_str(), t.as_str()),
        (Some(f), None) => text::join("depuis ", f.as_str()),
        (None, Some(t)) => text::join("jusqu'à ", t.as_str()),
        (None, None) => "tout l'historique".to_owned(),
    }
}

/// The cursor at an edge of the window.
#[derive(Debug, Clone, Copy, PartialEq, Eq, Structural)]
pub enum EdgeCursor {
    Default,
    EwResize,
    NsResize,
    NwseResize,
    NeswResize,
}

/// The cursor of a name; the default one where the name is none of them.
pub open spec fn cursor_named(name: Option<Seq<char>>) -> EdgeCursor {
    if name == Some("ew-resize"@) {
        EdgeCursor::EwResize
    } else if name == Some("ns-resize"@) {
        EdgeCursor::NsResize
    } else if name == Some("nwse-resize"@) {
        EdgeCursor::NwseResize
    } else if name == Some("nesw-resize"@) {
        EdgeCursor::NeswResize
    } else {
        EdgeCursor::Default
    }
}

/// Finds the cursor of a name.
pub fn edge_cursor(name: &Option<String>) -> (r: EdgeCursor)
    ensures
        r == cursor_named(name.deep_view()),
{
    match name {
        Some(n) => {
            let n = n.as_str();
            if text::same(n, "ew-resize") {
                EdgeCursor::EwResize
            } else if text::same(n, "ns-resize") {
                EdgeCursor::NsResize
            } else if text::same(n, "nwse-resize") {
                EdgeCursor::NwseResize
            } else if text::same(n, "nesw-resize") {
                EdgeCursor::NeswResize
            } else {
                EdgeCursor::Default
            }
        },
        None => EdgeCursor::Default,
    }
}

/// The quiet time after the last change before an import, in milliseconds: what is asked for, but
/// not too short.
pub fn quiet_period(asked_ms: u64) -> (r: u64)
    ensures
        r == if asked_ms < 200 {
            200
        } else {
            asked_ms
        },
        r >= 200,
        r >= asked_ms,
        r == 200 || r == asked_ms,
{
    if asked_ms < 200 {
        200
    } else {
        asked_ms
    }
}

} // verus!
