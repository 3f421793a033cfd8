//! Importing files into the store, each from where its last import stopped.

use vstd::prelude::*;

use crate::call_table::count_where;
use crate::call_table::CallTable;
use crate::discovery;
use crate::discovery::relative_to;
use crate::discovery::FileView;
use crate::discovery::SourceFile;
use crate::model::copy_text;
use crate::model::enriched;
use crate::model::no_enrichment;
use crate::model::CallView;
use crate::model::EnrichmentView;
use crate::model::EventView;
use crate::model::FileEnrichment;
use crate::model::InferenceCall;
use crate::model::RawUsageEvent;
use crate::model::ServiceTier;
use crate::model::SourceFormat;
use crate::model::TierSetting;
use crate::model::TierSettingView;
use crate::order::is_sorting_of;
use crate::parser;
use crate::parser::applies_at;
use crate::parser::call_of;
use crate::parser::content_len;
use crate::parser::first_of;
use crate::parser::parsed;
use crate::parser::reading;
use crate::parser::whole_lines;
use crate::parser::FileContent;
use crate::parser::FileContentView;
use crate::parser::ParsedView;
use crate::pricing::cost_of;
use crate::pricing::PricingEngine;
use crate::pricing::RuleView;
use crate::resume::adopted;
use crate::resume::adopted_all;
use crate::resume::lemma_reading_end;
use crate::scan::bound;
use crate::state;
use crate::state::enriched_count;
use crate::state::enriched_store;
use crate::state::StateThread;
use crate::state::ThreadView;
use crate::store;
use crate::store::all_prices;
use crate::store::backfilled;
use crate::store::calls_in_period;
use crate::store::is_known;
use crate::store::is_legacy_of;
use crate::store::is_priceable;
use crate::store::is_repaired_by;
use crate::store::marked;
use crate::store::superseded_in;
use crate::store::with_call;
use crate::store::with_setting;
use crate::store::without_calls;
use crate::store::Checkpoint;
use crate::store::CheckpointView;
use crate::store::PricingRowView;
use crate::store::Store;
use crate::store::StoreView;
use crate::text;
use crate::text_map::rows_of;
use crate::text_map::TextMap;

verus! {

/// What an import did. Counts are taken modulo 2^64; the time that it took is filled in outside.
#[derive(Debug, Clone, Copy, PartialEq, Eq, Structural)]
pub struct ImportReport {
    pub files_seen: usize,
    pub files_skipped: usize,
    pub files_changed: usize,
    pub bytes_read: u64,
    pub calls_inserted: u64,
    pub duplicates_ignored: u64,
    pub parse_errors: u64,
    pub threads_enriched: usize,
    pub calls_enriched: u64,
    pub repriced: bool,
    pub priced_calls: u64,
    pub tiers_repaired: u64,
    pub legacy_pruned: u64,
    pub duration_ms: u64,
}

/// Nothing was done.
pub open spec fn no_report() -> ImportReport {
    ImportReport {
        files_seen: 0,
        files_skipped: 0,
        files_changed: 0,
        bytes_read: 0,
        calls_inserted: 0,
        duplicates_ignored: 0,
        parse_errors: 0,
        threads_enriched: 0,
        calls_enriched: 0,
        repriced: false,
        priced_calls: 0,
        tiers_repaired: 0,
        legacy_pruned: 0,
        duration_ms: 0,
    }
}

impl Default for ImportReport {
    fn default() -> (r: Self)
        ensures
            r == no_report(),
    {
        ImportReport {
            files_seen: 0,
            files_skipped: 0,
            files_changed: 0,
            bytes_read: 0,
            calls_inserted: 0,
            duplicates_ignored: 0,
            parse_errors: 0,
            threads_enriched: 0,
            calls_enriched: 0,
            repriced: false,
            priced_calls: 0,
            tiers_repaired: 0,
            legacy_pruned: 0,
            duration_ms: 0,
        }
    }
}

/// The store and the report, on the way through an import.
#[verifier::ext_equal]
pub struct Progress {
    pub store: StoreView,
    pub report: ImportReport,
}

/// How a file is read and what is known of it beforehand.
pub struct FileStart {
    pub offset: u64,
    pub lines: u64,
    pub pending: bool,
    pub had_primary: bool,
    pub enrichment: EnrichmentView,
}

/// Nothing is known of a file.
pub open spec fn fresh_start() -> FileStart {
    FileStart {
        offset: 0,
        lines: 0,
        pending: false,
        had_primary: false,
        enrichment: no_enrichment(),
    }
}

/// The file is as it was when it was last imported.
pub open spec fn is_unchanged(
    checkpoints: Map<Seq<char>, CheckpointView>,
    rel: Seq<char>,
    f: FileView,
) -> bool {
    &&& checkpoints.contains_key(rel)
    &&& checkpoints[rel].size == f.size
    &&& checkpoints[rel].mtime_unix == f.mtime_unix
}

/// From where a file is read: from its checkpoint, or from its start where it has shrunk.
pub open spec fn start_of(
    checkpoints: Map<Seq<char>, CheckpointView>,
    rel: Seq<char>,
    size: u64,
    force_full: bool,
) -> FileStart {
    if force_full || !checkpoints.contains_key(rel) {
        fresh_start()
    } else {
        let c = checkpoints[rel];
        if c.last_complete_offset <= size {
            FileStart {
                offset: c.last_complete_offset,
                lines: c.lines_total,
                pending: c.pending_newline,
                had_primary: c.had_primary,
                enrichment: c.enrichment,
            }
        } else {
            FileStart {
                had_primary: c.had_primary,
                enrichment: c.enrichment,
                ..fresh_start()
            }
        }
    }
}

/// The sessions that a file covers with usage records, each once: that of its header, then those
/// of the records.
pub open spec fn covered_sessions(meta_session: Option<Seq<char>>, events: Seq<EventView>) -> Seq<
    Seq<char>,
>
    decreases events.len(),
{
    if events.len() == 0 {
        match meta_session {
            Some(s) => seq![s],
            None => Seq::empty(),
        }
    } else {
        let init = covered_sessions(meta_session, events.drop_last());
        let e = events.last();
        if e.source_format == SourceFormat::TokenUsageRecord && e.session_id is Some
            && !init.contains(e.session_id->0) {
            init.push(e.session_id->0)
        } else {
            init
        }
    }
}

/// The test for the legacy calls of a session.
pub open spec fn legacy_of(session: Seq<char>) -> spec_fn(CallView) -> bool {
    |c: CallView| is_legacy_of(c, session)
}

/// Each session is marked, and its legacy calls are dropped.
pub open spec fn with_covered(p: Progress, sessions: Seq<Seq<char>>) -> Progress
    decreases sessions.len(),
{
    if sessions.len() == 0 {
        p
    } else {
        let q = with_covered(p, sessions.drop_last());
        let s = sessions.last();
        let m = StoreView { primary_sessions: q.store.primary_sessions.insert(s), ..q.store };
        Progress {
            store: without_calls(m, legacy_of(s)),
            report: ImportReport {
                legacy_pruned: q.report.legacy_pruned.wrapping_add(
                    count_where(m.calls, legacy_of(s)) as u64,
                ),
                ..q.report
            },
        }
    }
}

/// The settings of a file are noted for the imports to come.
pub open spec fn with_settings(s: StoreView, settings: Seq<TierSettingView>) -> StoreView
    decreases settings.len(),
{
    if settings.len() == 0 {
        s
    } else {
        let q = with_settings(s, settings.drop_last());
        let t = settings.last();
        StoreView {
            thread_settings: with_setting(
                q.thread_settings,
                t.thread_id,
                t.service_tier,
                t.applied_ts,
            ),
            ..q
        }
    }
}

/// What the calls of a file are made with.
pub struct FileContext {
    pub enrichment: EnrichmentView,
    pub settings: Seq<TierSettingView>,
    pub primary: bool,
    pub rel: Seq<char>,
    pub archived: bool,
    pub rules: Seq<RuleView>,
    pub version: Seq<char>,
}

/// The tier of a call that its file does not tell: the last one of its thread, unless that was
/// applied later.
pub open spec fn with_known_tier(
    c: CallView,
    settings: Map<Seq<char>, (Seq<char>, Seq<char>)>,
) -> CallView {
    if c.service_tier == ServiceTier::Unknown && c.thread_id is Some && settings.contains_key(
        c.thread_id->0,
    ) && applies_at(settings[c.thread_id->0].1, c.timestamp_utc) {
        CallView { service_tier: ServiceTier::of_text(settings[c.thread_id->0].0), ..c }
    } else {
        c
    }
}

/// The call of an event.
pub open spec fn event_call(s: StoreView, x: FileContext, e: EventView) -> CallView {
    with_known_tier(
        call_of(
            e,
            x.enrichment.meta,
            x.enrichment.turn_models,
            x.enrichment.turn_cwd,
            x.enrichment.root_models,
            x.settings,
            x.rel,
            x.archived,
        ),
        s.thread_settings,
    )
}

/// An event counts: every usage record, and of the legacy events those of a file without usage
/// records whose session is not covered.
pub open spec fn is_counted(s: StoreView, x: FileContext, e: EventView) -> bool {
    ||| e.source_format == SourceFormat::TokenUsageRecord
    ||| !x.primary && {
        let session = first_of(e.session_id, x.enrichment.meta.session_id);
        !(session is Some && s.primary_sessions.contains(session->0))
    }
}

/// A call is told to the store, and priced where it is new.
pub open spec fn call_step(p: Progress, x: FileContext, c: CallView) -> Progress {
    let cost = cost_of(x.rules, c);
    let is_new = !is_known(p.store.calls, c);
    Progress {
        store: StoreView {
            calls: with_call(p.store.calls, c),
            pricing: if is_new && cost.model_known {
                p.store.pricing.insert(
                    c.event_uid,
                    PricingRowView { catalog_version: x.version, cost },
                )
            } else {
                p.store.pricing
            },
            ..p.store
        },
        report: ImportReport {
            calls_inserted: if is_new {
                p.report.calls_inserted.wrapping_add(1)
            } else {
                p.report.calls_inserted
            },
            duplicates_ignored: if is_new {
                p.report.duplicates_ignored
            } else {
                p.report.duplicates_ignored.wrapping_add(1)
            },
            tiers_repaired: if is_repaired_by(p.store.calls, c) {
                p.report.tiers_repaired.wrapping_add(1)
            } else {
                p.report.tiers_repaired
            },
            ..p.report
        },
    }
}

/// The events of a file are told to the store.
pub open spec fn with_events(p: Progress, x: FileContext, events: Seq<EventView>) -> Progress
    decreases events.len(),
{
    if events.len() == 0 {
        p
    } else {
        let q = with_events(p, x, events.drop_last());
        let e = events.last();
        if is_counted(q.store, x, e) {
            call_step(q, x, event_call(q.store, x, e))
        } else {
            q
        }
    }
}

/// The first messages, twenty at most, each with its file.
pub open spec fn first_errors(rel: Seq<char>, errors: Seq<Seq<char>>) -> Seq<
    (Seq<char>, Seq<char>),
> {
    Seq::new(
        if errors.len() < 20 {
            errors.len()
        } else {
            20
        },
        |i: int| (rel, errors[i]),
    )
}

/// A file that is imported, and what it is priced with.
pub struct FileInput {
    pub rel: Seq<char>,
    pub file: FileView,
    pub content: FileContentView,
    pub rules: Seq<RuleView>,
    pub version: Seq<char>,
    pub force_full: bool,
}

/// From where a file is read.
pub open spec fn file_start(s: StoreView, i: FileInput) -> FileStart {
    start_of(s.checkpoints, i.rel, i.file.size, i.force_full)
}

/// What reading a file gives.
pub open spec fn file_reading(s: StoreView, i: FileInput) -> ParsedView {
    let start = file_start(s, i);
    parsed(i.content, start.offset as int, start.lines as nat, start.pending)
}

/// What the calls of a file are made with.
pub open spec fn file_context(s: StoreView, i: FileInput) -> FileContext {
    let start = file_start(s, i);
    let r = file_reading(s, i).result;
    FileContext {
        enrichment: enriched(start.enrichment, r),
        settings: r.thread_settings,
        primary: start.had_primary || r.primary_events > 0,
        rel: i.rel,
        archived: i.file.archived,
        rules: i.rules,
        version: i.version,
    }
}

/// The events of a file; where reading goes on from a checkpoint, with the session of the lines
/// before.
pub open spec fn file_events(s: StoreView, i: FileInput) -> Seq<EventView> {
    let start = file_start(s, i);
    adopted_all(
        file_reading(s, i).result.raw_calls,
        if start.offset > 0 {
            start.enrichment.meta.session_id
        } else {
            None
        },
    )
}

/// The sessions of a file with usage records are covered, and its settings are noted.
pub open spec fn settled(p: Progress, i: FileInput) -> Progress {
    let x = file_context(p.store, i);
    let events = file_events(p.store, i);
    let covered = if x.primary {
        with_covered(p, covered_sessions(x.enrichment.meta.session_id, events))
    } else {
        p
    };
    Progress { store: with_settings(covered.store, x.settings), ..covered }
}

/// A file that has changed is read, and its events are told to the store.
pub open spec fn with_changed_file(p: Progress, i: FileInput) -> Progress {
    let start = file_start(p.store, i);
    let r = file_reading(p.store, i);
    let x = file_context(p.store, i);
    let told = with_events(settled(p, i), x, file_events(p.store, i));
    Progress {
        store: StoreView {
            checkpoints: told.store.checkpoints.insert(
                i.rel,
                CheckpointView {
                    archived: i.file.archived,
                    size: i.file.size,
                    mtime_unix: i.file.mtime_unix,
                    last_complete_offset: r.end_offset as u64,
                    lines_total: (start.lines + r.result.counters.lines_total) as u64,
                    had_primary: x.primary,
                    pending_newline: r.pending_newline,
                    enrichment: x.enrichment,
                },
            ),
            import_errors: told.store.import_errors + first_errors(i.rel, r.result.errors),
            ..told.store
        },
        report: ImportReport {
            files_changed: (told.report.files_changed + 1) as usize,
            bytes_read: told.report.bytes_read.wrapping_add(
                (r.end_offset - start.offset) as u64,
            ),
            parse_errors: told.report.parse_errors.wrapping_add(r.result.errors.len() as u64),
            ..told.report
        },
    }
}

/// A file is passed over where it is unchanged, and told to the store otherwise.
pub open spec fn with_file(
    p: Progress,
    home: Seq<char>,
    f: FileView,
    content: FileContentView,
    rules: Seq<RuleView>,
    version: Seq<char>,
    force_full: bool,
) -> Progress {
    let rel = relative_to(f.path, home);
    if !force_full && is_unchanged(p.store.checkpoints, rel, f) {
        Progress {
            report: ImportReport {
                files_skipped: (p.report.files_skipped + 1) as usize,
                ..p.report
            },
            ..p
        }
    } else {
        with_changed_file(p, FileInput { rel, file: f, content, rules, version, force_full })
    }
}

/// The files are told to the store one by one.
pub open spec fn with_files(
    p: Progress,
    home: Seq<char>,
    files: Seq<FileView>,
    contents: Seq<FileContentView>,
    rules: Seq<RuleView>,
    version: Seq<char>,
    force_full: bool,
) -> Progress
    decreases files.len(),
{
    if files.len() == 0 {
        p
    } else {
        with_file(
            with_files(
                p,
                home,
                files.drop_last(),
                contents.drop_last(),
                rules,
                version,
                force_full,
            ),
            home,
            files.last(),
            contents.last(),
            rules,
            version,
            force_full,
        )
    }
}

/// Before the files: the store is made to agree with its usage records; a full import then starts
/// without calls, and with no session marked: the files mark those that they cover again.
pub open spec fn prepared(s: StoreView, files: nat, force_full: bool) -> Progress {
    let b = backfilled(s);
    Progress {
        store: if force_full {
            StoreView {
                calls: Map::empty(),
                pricing: Map::empty(),
                primary_sessions: Set::empty(),
                ..b
            }
        } else {
            b
        },
        report: ImportReport {
            legacy_pruned: count_where(s.calls, superseded_in(marked(s))) as u64,
            files_seen: files as usize,
            ..no_report()
        },
    }
}

/// What the prices depend on: the versions of the catalogues.
pub open spec fn fingerprint_of(codex_version: Seq<char>, api_version: Seq<char>) -> Seq<char> {
    "codex:"@ + codex_version + "|api:"@ + api_version
}

/// The threads are told to the calls.
pub open spec fn with_state(p: Progress, threads: Option<Seq<ThreadView>>) -> Progress {
    match threads {
        Some(t) => Progress {
            store: enriched_store(p.store, t),
            report: ImportReport {
                threads_enriched: t.len() as usize,
                calls_enriched: enriched_count(p.store, t) as u64,
                ..p.report
            },
        },
        None => p,
    }
}

/// The prices are out of date: the catalogues are others, or tiers were filled in.
pub open spec fn needs_prices(p: Progress, fingerprint: Seq<char>, force_reprice: bool) -> bool {
    ||| force_reprice
    ||| p.report.tiers_repaired > 0
    ||| !p.store.meta.contains_key("pricing_fingerprint"@)
    ||| p.store.meta["pricing_fingerprint"@] != fingerprint
}

/// All calls are priced anew where that is needed.
pub open spec fn with_prices(
    p: Progress,
    fingerprint: Seq<char>,
    rules: Seq<RuleView>,
    version: Seq<char>,
    force_reprice: bool,
) -> Progress {
    if needs_prices(p, fingerprint, force_reprice) {
        Progress {
            store: StoreView {
                pricing: all_prices(p.store.calls, rules, version),
                meta: p.store.meta.insert("pricing_fingerprint"@, fingerprint),
                ..p.store
            },
            report: ImportReport {
                repriced: true,
                priced_calls: count_where(p.store.calls, is_priceable(rules)) as u64,
                ..p.report
            },
        }
    } else {
        p
    }
}

/// What an import comes to.
pub open spec fn imported(
    s: StoreView,
    home: Seq<char>,
    files: Seq<FileView>,
    contents: Seq<FileContentView>,
    threads: Option<Seq<ThreadView>>,
    engine: PricingEngine,
    force_full: bool,
    force_reprice: bool,
) -> Progress {
    let rules = engine.codex.rules.deep_view();
    let version = engine.codex.version@;
    with_prices(
        with_state(
            with_files(
                prepared(s, files.len(), force_full),
                home,
                files,
                contents,
                rules,
                version,
                force_full,
            ),
            threads,
        ),
        fingerprint_of(version, engine.api.version@),
        rules,
        version,
        force_reprice,
    )
}

/// A checkpoint has passed over no more lines than bytes.
pub open spec fn checkpoints_ok(s: StoreView) -> bool {
    forall|p: Seq<char>|
        #[trigger] s.checkpoints.contains_key(p) ==> s.checkpoints[p].lines_total
            <= s.checkpoints[p].last_complete_offset
}

/// Tells whether a list holds a text.
fn holds_text(list: &Vec<String>, s: &str) -> (r: bool)
    ensures
        r == list.deep_view().contains(s@),
{
    let ghost all = list.deep_view();
    let n: usize = list.len();
    let mut i: usize = 0;
    while i < n
        invariant
            n == list@.len(),
            all == list.deep_view(),
            i <= n,
            forall|j: int| 0 <= j < i ==> #[trigger] all[j] != s@,
        decreases n - i,
    {
        assert(all[i as int] == list@[i as int]@);
        if text::same(list[i].as_str(), s) {
            return true;
        }
        i += 1;
    }
    false
}

fn find_covered(meta_session: &Option<String>, events: &Vec<RawUsageEvent>) -> (r: Vec<String>)
    ensures
        r.deep_view() == covered_sessions(meta_session.deep_view(), events.deep_view()),
{
    let ghost all = events.deep_view();
    let ghost m = meta_session.deep_view();
    let mut out: Vec<String> = Vec::new();
    if let Some(s) = meta_session {
        out.push(s.clone());
    }
    let n: usize = events.len();
    let mut i: usize = 0;
    assert(out.deep_view() =~= covered_sessions(m, all.take(0)));
    while i < n
        invariant
            n == events@.len(),
            all == events.deep_view(),
            i <= n,
            out.deep_view() == covered_sessions(m, all.take(i as int)),
        decreases n - i,
    {
        let e = &events[i];
        assert(all[i as int] == e@);
        assert(all.take(i + 1).drop_last() =~= all.take(i as int));
        let ghost had = out.deep_view();
        if e.source_format == SourceFormat::TokenUsageRecord {
            if let Some(s) = &e.session_id {
                if !holds_text(&out, s.as_str()) {
                    out.push(s.clone());
                    assert(out.deep_view() =~= had.push(s@));
                }
            }
        }
        i += 1;
    }
    assert(all.take(n as int) =~= all);
    out
}

fn cover_sessions(store: &mut Store, report: &mut ImportReport, sessions: &Vec<String>)
    ensures
        (Progress { store: final(store)@, report: *final(report) }) == with_covered(
            Progress { store: old(store)@, report: *old(report) },
            sessions.deep_view(),
        ),
{
    let ghost p = Progress { store: store@, report: *report };
    let ghost all = sessions.deep_view();
    let n: usize = sessions.len();
    let mut i: usize = 0;
    while i < n
        invariant
            n == sessions@.len(),
            all == sessions.deep_view(),
            i <= n,
            (Progress { store: store@, report: *report }) == with_covered(p, all.take(i as int)),
        decreases n - i,
    {
        let s = sessions[i].as_str();
        assert(all[i as int] == s@);
        assert(all.take(i + 1).drop_last() =~= all.take(i as int));
        store::mark_primary_session(store, s);
        let pruned: u64 = store::clear_legacy_for_session(store, s);
        report.legacy_pruned = report.legacy_pruned.wrapping_add(pruned);
        i += 1;
    }
    assert(all.take(n as int) =~= all);
}

fn note_settings(store: &mut Store, settings: &Vec<TierSetting>)
    ensures
        final(store)@ == with_settings(old(store)@, settings.deep_view()),
{
    let ghost before = store@;
    let ghost all = settings.deep_view();
    let n: usize = settings.len();
    let mut i: usize = 0;
    while i < n
        invariant
            n == settings@.len(),
            all == settings.deep_view(),
            i <= n,
            store@ == with_settings(before, all.take(i as int)),
        decreases n - i,
    {
        let t = &settings[i];
        assert(all[i as int] == t@);
        assert(all.take(i + 1).drop_last() =~= all.take(i as int));
        store::upsert_thread_settings(
            store,
            t.thread_id.as_str(),
            t.service_tier.as_str(),
            t.applied_ts.as_str(),
        );
        i += 1;
    }
    assert(all.take(n as int) =~= all);
}

/// Gives the legacy events without a session the one of the lines before.
fn adopt_session(events: Vec<RawUsageEvent>, session_id: &Option<String>) -> (r: Vec<
    RawUsageEvent,
>)
    ensures
        r.deep_view() == adopted_all(events.deep_view(), session_id.deep_view()),
{
    let ghost all = events.deep_view();
    let ghost whole = adopted_all(all, session_id.deep_view());
    let n: usize = events.len();
    let mut out: Vec<RawUsageEvent> = Vec::new();
    let mut i: usize = 0;
    assert(out.deep_view() =~= whole.take(0));
    while i < n
        invariant
            n == events@.len(),
            all == events.deep_view(),
            whole == adopted_all(all, session_id.deep_view()),
            i <= n,
            out.deep_view() == whole.take(i as int),
        decreases n - i,
    {
        let mut e = events[i].clone();
        assert(all[i as int] == e@);
        let ghost had = out.deep_view();
        if e.source_format == SourceFormat::LegacyTokenCount && e.session_id.is_none() {
            e.session_id = copy_text(session_id);
        }
        let ghost v = e@;
        out.push(e);
        assert(v == adopted(all[i as int], session_id.deep_view()));
        assert(out.deep_view() =~= had.push(v));
        assert(whole.take(i + 1) =~= had.push(v));
        i += 1;
    }
    assert(whole.take(n as int) =~= whole);
    out
}

/// Fills in the tier of a call that its file does not tell.
fn fill_tier(store: &Store, call: InferenceCall) -> (r: InferenceCall)
    ensures
        r@ == with_known_tier(call@, store@.thread_settings),
{
    let mut call = call;
    if call.service_tier == ServiceTier::Unknown {
        if let Some(tid) = &call.thread_id {
            if let Some(known) = store::get_thread_tier(store, tid.as_str()) {
                if parser::is_applied(known.1.as_str(), &call.timestamp_utc) {
                    call.service_tier = ServiceTier::parse(known.0.as_str());
                }
            }
        }
    }
    call
}

/// Tells whether an event counts.
fn counts(
    store: &Store,
    enrichment: &FileEnrichment,
    primary: bool,
    e: &RawUsageEvent,
    Ghost(x): Ghost<FileContext>,
) -> (r: bool)
    requires
        x.enrichment == enrichment@,
        x.primary == primary,
    ensures
        r == is_counted(store@, x, e@),
{
    if e.source_format == SourceFormat::TokenUsageRecord {
        return true;
    }
    if primary {
        return false;
    }
    let session = if e.session_id.is_some() {
        &e.session_id
    } else {
        &enrichment.meta.session_id
    };
    match session {
        Some(s) => !store::is_primary_session(store, s.as_str()),
        None => true,
    }
}

/// Tells a call to the store, and prices it where it is new.
fn tell_call(
    store: &mut Store,
    report: &mut ImportReport,
    call: &InferenceCall,
    engine: &PricingEngine,
    Ghost(x): Ghost<FileContext>,
)
    requires
        x.rules == engine.codex.rules.deep_view(),
        x.version == engine.codex.version@,
    ensures
        (Progress { store: final(store)@, report: *final(report) }) == call_step(
            Progress { store: old(store)@, report: *old(report) },
            x,
            call@,
        ),
{
    let (is_new, repaired) = store::insert_call(store, call);
    if repaired {
        report.tiers_repaired = report.tiers_repaired.wrapping_add(1);
    }
    if is_new {
        report.calls_inserted = report.calls_inserted.wrapping_add(1);
        let cd = engine.cost_codex(call);
        if cd.model_known {
            store::insert_pricing_result(
                store,
                call.event_uid.as_str(),
                cd,
                engine.codex.version.as_str(),
            );
        }
    } else {
        report.duplicates_ignored = report.duplicates_ignored.wrapping_add(1);
    }
}

fn tell_events(
    store: &mut Store,
    report: &mut ImportReport,
    events: &Vec<RawUsageEvent>,
    enrichment: &FileEnrichment,
    settings: &Vec<TierSetting>,
    primary: bool,
    rel: &str,
    archived: bool,
    engine: &PricingEngine,
    Ghost(x): Ghost<FileContext>,
)
    requires
        x == (FileContext {
            enrichment: enrichment@,
            settings: settings.deep_view(),
            primary,
            rel: rel@,
            archived,
            rules: engine.codex.rules.deep_view(),
            version: engine.codex.version@,
        }),
    ensures
        (Progress { store: final(store)@, report: *final(report) }) == with_events(
            Progress { store: old(store)@, report: *old(report) },
            x,
            events.deep_view(),
        ),
{
    let ghost p = Progress { store: store@, report: *report };
    let ghost all = events.deep_view();
    let n: usize = events.len();
    let mut i: usize = 0;
    while i < n
        invariant
            n == events@.len(),
            all == events.deep_view(),
            i <= n,
            x == (FileContext {
                enrichment: enrichment@,
                settings: settings.deep_view(),
                primary,
                rel: rel@,
                archived,
                rules: engine.codex.rules.deep_view(),
                version: engine.codex.version@,
            }),
            (Progress { store: store@, report: *report }) == with_events(p, x, all.take(i as int)),
        decreases n - i,
    {
        let e = &events[i];
        assert(all[i as int] == e@);
        assert(all.take(i + 1).drop_last() =~= all.take(i as int));
        if counts(store, enrichment, primary, e, Ghost(x)) {
            let call = parser::finalize_call(
                e,
                &enrichment.meta,
                &enrichment.turn_models,
                &enrichment.turn_cwd,
                &enrichment.root_models,
                settings,
                rel,
                archived,
            );
            let call = fill_tier(store, call);
            tell_call(store, report, &call, engine, Ghost(x));
        }
        i += 1;
    }
    assert(all.take(n as int) =~= all);
}

fn note_errors(store: &mut Store, rel: &str, errors: &Vec<String>)
    ensures
        final(store)@ == (StoreView {
            import_errors: old(store)@.import_errors + first_errors(rel@, errors.deep_view()),
            ..old(store)@
        }),
{
    let ghost before = store@;
    let ghost added = first_errors(rel@, errors.deep_view());
    let n: usize = if errors.len() < 20 {
        errors.len()
    } else {
        20
    };
    let mut i: usize = 0;
    assert(before.import_errors + added.take(0) =~= before.import_errors);
    while i < n
        invariant
            n == added.len(),
            n <= errors@.len(),
            added == first_errors(rel@, errors.deep_view()),
            i <= n,
            store@ == (StoreView {
                import_errors: before.import_errors + added.take(i as int),
                ..before
            }),
        decreases n - i,
    {
        let ghost had = store@.import_errors;
        let e = errors[i].clone();
        assert(errors.deep_view()[i as int] == e@);
        store.import_errors.push((rel.to_owned(), e));
        assert(store@.import_errors =~= had.push(added[i as int]));
        assert(store@.import_errors =~= before.import_errors + added.take(i + 1));
        i += 1;
    }
    assert(added.take(n as int) =~= added);
}

/// Tells whether a file is as it was when it was last imported.
pub fn is_file_unchanged(store: &Store, home: &str, file: &SourceFile) -> (r: bool)
    ensures
        r == is_unchanged(store@.checkpoints, relative_to(file@.path, home@), file@),
{
    let rel = discovery::relative_path(file.path.as_str(), home);
    match store::get_checkpoint(store, rel.as_str()) {
        Some(c) => c.size == file.size && c.mtime_unix == file.mtime_unix,
        None => false,
    }
}

proof fn lemma_parsed_bounds(content: FileContentView, offset: u64, lines: u64, pending: bool)
    requires
        content_len(content) <= u64::MAX,
        lines <= offset,
    ensures
        ({
            let r = parsed(content, offset as int, lines as nat, pending);
            &&& offset <= r.end_offset <= u64::MAX
            &&& r.result.counters.lines_total <= r.end_offset - offset
        }),
{
    match content {
        FileContentView::Whole(bytes) => {
            lemma_reading_end(bytes, offset as int, pending);
            parser::lemma_counts_within(
                reading(bytes, offset as int, pending).contents,
                lines as nat,
            );
            lemma_reading_within(bytes, offset as int, pending);
        },
        FileContentView::Broken(bytes, e) => {
            let w = whole_lines(bytes);
            parser::lemma_whole_lines_len(bytes);
            lemma_reading_end(w, offset as int, pending);
            lemma_reading_within(w, offset as int, pending);
            parser::lemma_counts_within(
                reading(w, offset as int, pending).contents,
                lines as nat,
            );
        },
        FileContentView::Unreadable(e) => {},
    }
}

proof fn lemma_reading_within(bytes: Seq<u8>, at: int, pending: bool)
    requires
        0 <= at,
    ensures
        at >= bytes.len() ==> reading(bytes, at, pending).end == at,
{
}

/// Imports one file that has changed.
fn import_changed_file(
    store: &mut Store,
    report: &mut ImportReport,
    rel: String,
    file: &SourceFile,
    content: &FileContent,
    engine: &PricingEngine,
    force_full: bool,
)
    requires
        checkpoints_ok(old(store)@),
        content_len(content@) <= u64::MAX,
        old(report).files_changed < usize::MAX,
    ensures
        checkpoints_ok(final(store)@),
        (Progress { store: final(store)@, report: *final(report) }) == with_changed_file(
            Progress { store: old(store)@, report: *old(report) },
            (FileInput {
                rel: rel@,
                file: file@,
                content: content@,
                rules: engine.codex.rules.deep_view(),
                version: engine.codex.version@,
                force_full,
            }),
        ),
{
    let ghost p = Progress { store: store@, report: *report };
    let ghost input = FileInput {
        rel: rel@,
        file: file@,
        content: content@,
        rules: engine.codex.rules.deep_view(),
        version: engine.codex.version@,
        force_full,
    };
    let ghost start = file_start(p.store, input);
    let mut enrichment = FileEnrichment::default();
    let mut had_primary = false;
    let mut offset: u64 = 0;
    let mut lines: u64 = 0;
    let mut pending = false;
    if !force_full {
        if let Some(c) = store::get_checkpoint(store, rel.as_str()) {
            enrichment = c.enrichment.clone();
            had_primary = c.had_primary;
            if c.last_complete_offset <= file.size {
                offset = c.last_complete_offset;
                lines = c.lines_total;
                pending = c.pending_newline;
            }
        }
    }
    assert(start.offset == offset && start.lines == lines && start.pending == pending
        && start.had_primary == had_primary && start.enrichment == enrichment@);
    proof {
        lemma_parsed_bounds(content@, offset, lines, pending);
    }
    let session_before = if offset > 0 {
        copy_text(&enrichment.meta.session_id)
    } else {
        None
    };
    let read = parser::parse_file_from(content, offset, lines, pending);
    let end_offset: u64 = read.end_offset;
    let pending_newline = read.pending_newline;
    let res = read.result;
    assert(res@ == file_reading(p.store, input).result);
    enrichment.take_segment(&res);
    let primary = had_primary || res.primary_events > 0;
    let line_count: u64 = res.counters.lines_total;
    let settings = res.thread_settings;
    let errors = res.errors;
    let events = adopt_session(res.raw_calls, &session_before);
    let ghost x = file_context(p.store, input);
    assert(events.deep_view() == file_events(p.store, input));
    if primary {
        let sessions = find_covered(&enrichment.meta.session_id, &events);
        cover_sessions(store, report, &sessions);
    }
    note_settings(store, &settings);
    tell_events(
        store,
        report,
        &events,
        &enrichment,
        &settings,
        primary,
        rel.as_str(),
        file.archived,
        engine,
        Ghost(x),
    );
    proof {
        lemma_settled_keeps(p, input);
        lemma_events_keep(settled(p, input), x, events.deep_view());
    }
    let checkpoint = Checkpoint {
        archived: file.archived,
        size: file.size,
        mtime_unix: file.mtime_unix,
        last_complete_offset: end_offset,
        lines_total: lines + line_count,
        had_primary: primary,
        pending_newline,
        enrichment,
    };
    note_errors(store, rel.as_str(), &errors);
    store::save_checkpoint(store, rel, checkpoint);
    report.files_changed = report.files_changed + 1;
    report.bytes_read = report.bytes_read.wrapping_add(end_offset - offset);
    report.parse_errors = report.parse_errors.wrapping_add(errors.len() as u64);
    assert((Progress { store: store@, report: *report }) =~= with_changed_file(p, input));
}

pub proof fn lemma_covered_keeps(p: Progress, sessions: Seq<Seq<char>>)
    ensures
        with_covered(p, sessions).store.checkpoints == p.store.checkpoints,
        with_covered(p, sessions).report.files_changed == p.report.files_changed,
        with_covered(p, sessions).report.files_skipped == p.report.files_skipped,
        with_covered(p, sessions).report.files_seen == p.report.files_seen,
    decreases sessions.len(),
{
    if sessions.len() > 0 {
        lemma_covered_keeps(p, sessions.drop_last());
    }
}

pub proof fn lemma_settings_keep(s: StoreView, settings: Seq<TierSettingView>)
    ensures
        with_settings(s, settings) == (StoreView {
            thread_settings: with_settings(s, settings).thread_settings,
            ..s
        }),
    decreases settings.len(),
{
    if settings.len() > 0 {
        lemma_settings_keep(s, settings.drop_last());
    }
}

pub proof fn lemma_settled_keeps(p: Progress, i: FileInput)
    ensures
        settled(p, i).store.checkpoints == p.store.checkpoints,
        settled(p, i).report.files_changed == p.report.files_changed,
        settled(p, i).report.files_skipped == p.report.files_skipped,
        settled(p, i).report.files_seen == p.report.files_seen,
{
    let x = file_context(p.store, i);
    let sessions = covered_sessions(x.enrichment.meta.session_id, file_events(p.store, i));
    lemma_covered_keeps(p, sessions);
    let covered = if x.primary {
        with_covered(p, sessions)
    } else {
        p
    };
    lemma_settings_keep(covered.store, x.settings);
}

pub proof fn lemma_events_keep(p: Progress, x: FileContext, events: Seq<EventView>)
    ensures
        ({
            let q = with_events(p, x, events);
            &&& q.store == (StoreView { calls: q.store.calls, pricing: q.store.pricing, ..p.store })
            &&& q.report.files_changed == p.report.files_changed
            &&& q.report.files_skipped == p.report.files_skipped
            &&& q.report.files_seen == p.report.files_seen
        }),
    decreases events.len(),
{
    if events.len() > 0 {
        lemma_events_keep(p, x, events.drop_last());
    }
}

/// What the prices depend on.
fn pricing_fingerprint(engine: &PricingEngine) -> (r: String)
    ensures
        r@ == fingerprint_of(engine.codex.version@, engine.api.version@),
{
    let mut r = "codex:".to_owned();
    r.append(engine.codex.version.as_str());
    r.append("|api:");
    r.append(engine.api.version.as_str());
    r
}

/// Prepares the store for the files.
fn prepare(store: &mut Store, files: usize, force_full: bool) -> (r: ImportReport)
    ensures
        (Progress { store: final(store)@, report: r }) == prepared(
            old(store)@,
            files as nat,
            force_full,
        ),
        checkpoints_ok(old(store)@) ==> checkpoints_ok(final(store)@),
{
    let ghost before = store@;
    let mut report = ImportReport::default();
    report.legacy_pruned = store::backfill_primary_sessions(store);
    report.files_seen = files;
    if force_full {
        store.calls = CallTable::new();
        store.pricing = TextMap::new();
        store.primary_sessions = TextMap::new();
    }
    proof {
        assert((Progress { store: store@, report }) =~= prepared(before, files as nat, force_full));
        if checkpoints_ok(before) {
            assert forall|p: Seq<char>| #[trigger] store@.checkpoints.contains_key(p) implies store@.checkpoints[p].lines_total
                <= store@.checkpoints[p].last_complete_offset by {
                assert(before.checkpoints.contains_key(p));
            }
        }
    }
    report
}

/// Imports the files one by one.
fn import_files(
    store: &mut Store,
    report: &mut ImportReport,
    home: &str,
    files: &Vec<SourceFile>,
    contents: &Vec<FileContent>,
    engine: &PricingEngine,
    force_full: bool,
)
    requires
        checkpoints_ok(old(store)@),
        files@.len() == contents@.len(),
        old(report).files_changed == 0,
        old(report).files_skipped == 0,
    ensures
        checkpoints_ok(final(store)@),
        (Progress { store: final(store)@, report: *final(report) }) == with_files(
            Progress { store: old(store)@, report: *old(report) },
            home@,
            files.deep_view(),
            contents.deep_view(),
            engine.codex.rules.deep_view(),
            engine.codex.version@,
            force_full,
        ),
{
    let ghost p = Progress { store: store@, report: *report };
    let ghost views = files.deep_view();
    let ghost texts = contents.deep_view();
    let n: usize = files.len();
    let mut i: usize = 0;
    while i < n
        invariant
            n == files@.len(),
            n == contents@.len(),
            views == files.deep_view(),
            texts == contents.deep_view(),
            i <= n,
            checkpoints_ok(store@),
            report.files_changed + report.files_skipped == i,
            (Progress { store: store@, report: *report }) == with_files(
                p,
                home@,
                views.take(i as int),
                texts.take(i as int),
                engine.codex.rules.deep_view(),
                engine.codex.version@,
                force_full,
            ),
        decreases n - i,
    {
        let file = &files[i];
        let content = &contents[i];
        assert(views[i as int] == file@ && texts[i as int] == content@);
        assert(views.take(i + 1).drop_last() =~= views.take(i as int));
        assert(texts.take(i + 1).drop_last() =~= texts.take(i as int));
        let ghost q = Progress { store: store@, report: *report };
        if !force_full && is_file_unchanged(store, home, file) {
            report.files_skipped = report.files_skipped + 1;
        } else {
            let size: usize = match content {
                FileContent::Whole(bytes) => bytes.len(),
                FileContent::Broken(bytes, e) => bytes.len(),
                FileContent::Unreadable(e) => 0,
            };
            assert(size == content_len(content@));
            let rel = discovery::relative_path(file.path.as_str(), home);
            proof {
                lemma_changed_file_counts(
                    q,
                    FileInput {
                        rel: rel@,
                        file: file@,
                        content: content@,
                        rules: engine.codex.rules.deep_view(),
                        version: engine.codex.version@,
                        force_full,
                    },
                );
            }
            import_changed_file(store, report, rel, file, content, engine, force_full);
        }
        i += 1;
    }
    assert(views.take(n as int) =~= views);
    assert(texts.take(n as int) =~= texts);
}

pub proof fn lemma_changed_file_counts(p: Progress, i: FileInput)
    ensures
        with_changed_file(p, i).report.files_changed == (p.report.files_changed + 1) as usize,
        with_changed_file(p, i).report.files_skipped == p.report.files_skipped,
        with_changed_file(p, i).report.files_seen == p.report.files_seen,
{
    lemma_settled_keeps(p, i);
    lemma_events_keep(settled(p, i), file_context(p.store, i), file_events(p.store, i));
}

/// Imports files into the store: each from its checkpoint, each call once. What is known of the
/// threads is then told to the calls, and all calls are priced anew where the catalogues have
/// changed or tiers were filled in. A file that is unchanged is not looked into.
pub fn import(
    store: &mut Store,
    home: &str,
    files: &Vec<SourceFile>,
    contents: &Vec<FileContent>,
    threads: &Option<Vec<StateThread>>,
    engine: &PricingEngine,
    force_full: bool,
    force_reprice: bool,
) -> (r: ImportReport)
    requires
        checkpoints_ok(old(store)@),
        files@.len() == contents@.len(),
    ensures
        checkpoints_ok(final(store)@),
        (Progress { store: final(store)@, report: r }) == imported(
            old(store)@,
            home@,
            files.deep_view(),
            contents.deep_view(),
            threads.deep_view(),
            *engine,
            force_full,
            force_reprice,
        ),
{
    let mut report = prepare(store, files.len(), force_full);
    import_files(store, &mut report, home, files, contents, engine, force_full);
    let (threads_enriched, calls_enriched) = state::enrich_calls(store, threads);
    if threads.is_some() {
        report.threads_enriched = threads_enriched;
        report.calls_enriched = calls_enriched;
    }
    let ghost p = Progress { store: store@, report };
    let fingerprint = pricing_fingerprint(engine);
    let outdated = match store::get_meta(store, "pricing_fingerprint") {
        Some(known) => !text::same(known.as_str(), fingerprint.as_str()),
        None => true,
    };
    if force_reprice || report.tiers_repaired > 0 || outdated {
        report.repriced = true;
        report.priced_calls = store::reprice_all(store, engine);
        store::set_meta(store, "pricing_fingerprint", fingerprint.as_str());
    }
    report
}

/// Gives the calls of a period for counting.
pub fn load_calls(store: &Store, from: Option<&str>, to: Option<&str>) -> (r: Vec<InferenceCall>)
    ensures
        is_sorting_of::<InferenceCall>(
            r.deep_view(),
            calls_in_period(rows_of(store@.calls), bound(from), bound(to)),
        ),
{
    store::load_calls(store, from, to)
}

} // verus!
