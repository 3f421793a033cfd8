//! What was imported: the calls, and what is needed to go on importing.

use vstd::prelude::*;

use crate::call_table::count_where;
use crate::call_table::is_call_table;
use crate::call_table::is_taken;
use crate::call_table::kept;
use crate::call_table::lemma_count_step;
use crate::call_table::CallTable;
use crate::call_table::CallTest;
use crate::model::usage_sum;
use crate::model::CallView;
use crate::model::EnrichmentView;
use crate::model::FileEnrichment;
use crate::model::InferenceCall;
use crate::model::ModelConfidence;
use crate::model::ServiceTier;
use crate::model::SourceFormat;
use crate::model::TokenUsage;
use crate::order;
use crate::order::is_sorting_of;
use crate::order::Ranked;
use crate::pricing::cost_of;
use crate::pricing::CostBreakdown;
use crate::pricing::CostView;
use crate::pricing::PricingEngine;
use crate::pricing::RuleView;
use crate::scan::bound;
use crate::scan::in_period;
use crate::scan::is_in_period;
use crate::state::StateThread;
use crate::state::ThreadView;
use crate::text;
use crate::text::text_le;
use crate::text::text_lt;
use crate::text_map::lemma_next_row;
use crate::text_map::lemma_ordered_take;
use crate::text_map::lemma_rows_count;
use crate::text_map::lemma_rows_map_at;
use crate::text_map::lemma_rows_of;
use crate::text_map::ordered;
use crate::text_map::rows_map;
use crate::text_map::rows_of;
use crate::text_map::TextMap;

verus! {

/// How far a file was imported, and what its lines so far say about those to come.
pub struct Checkpoint {
    pub archived: bool,
    pub size: u64,
    pub mtime_unix: Option<i64>,
    pub last_complete_offset: u64,
    pub lines_total: u64,
    pub had_primary: bool,
    pub pending_newline: bool,
    pub enrichment: FileEnrichment,
}

/// What a [`Checkpoint`] says.
#[verifier::ext_equal]
pub struct CheckpointView {
    pub archived: bool,
    pub size: u64,
    pub mtime_unix: Option<i64>,
    pub last_complete_offset: u64,
    pub lines_total: u64,
    pub had_primary: bool,
    pub pending_newline: bool,
    pub enrichment: EnrichmentView,
}

impl View for Checkpoint {
    type V = CheckpointView;

    open spec fn view(&self) -> CheckpointView {
        CheckpointView {
            archived: self.archived,
            size: self.size,
            mtime_unix: self.mtime_unix,
            last_complete_offset: self.last_complete_offset,
            lines_total: self.lines_total,
            had_primary: self.had_primary,
            pending_newline: self.pending_newline,
            enrichment: self.enrichment@,
        }
    }
}

impl DeepView for Checkpoint {
    type V = CheckpointView;

    open spec fn deep_view(&self) -> CheckpointView {
        self.view()
    }
}

impl Clone for Checkpoint {
    fn clone(&self) -> (r: Self)
        ensures
            r@ == self@,
    {
        Checkpoint {
            archived: self.archived,
            size: self.size,
            mtime_unix: self.mtime_unix,
            last_complete_offset: self.last_complete_offset,
            lines_total: self.lines_total,
            had_primary: self.had_primary,
            pending_newline: self.pending_newline,
            enrichment: self.enrichment.clone(),
        }
    }
}

/// What a call is charged by, and in which version of the catalogue.
#[derive(Debug)]
pub struct PricingRow {
    pub catalog_version: String,
    pub cost: CostBreakdown,
}

/// What a [`PricingRow`] says.
pub struct PricingRowView {
    pub catalog_version: Seq<char>,
    pub cost: CostView,
}

impl DeepView for PricingRow {
    type V = PricingRowView;

    open spec fn deep_view(&self) -> PricingRowView {
        PricingRowView { catalog_version: self.catalog_version@, cost: self.cost@ }
    }
}

/// The tables of the store.
pub struct Store {
    pub calls: CallTable,
    pub primary_sessions: TextMap<()>,
    /// The last tier of each thread, and when it was applied.
    pub thread_settings: TextMap<(String, String)>,
    /// The checkpoint of each file, under its path as seen from the home.
    pub checkpoints: TextMap<Checkpoint>,
    pub meta: TextMap<String>,
    pub threads: TextMap<StateThread>,
    /// The price of each call, under its identity.
    pub pricing: TextMap<PricingRow>,
    /// Messages, each with the file it is about.
    pub import_errors: Vec<(String, String)>,
}

/// What a [`Store`] holds.
#[verifier::ext_equal]
pub struct StoreView {
    pub calls: Map<Seq<char>, CallView>,
    pub primary_sessions: Set<Seq<char>>,
    pub thread_settings: Map<Seq<char>, (Seq<char>, Seq<char>)>,
    pub checkpoints: Map<Seq<char>, CheckpointView>,
    pub meta: Map<Seq<char>, Seq<char>>,
    pub threads: Map<Seq<char>, ThreadView>,
    pub pricing: Map<Seq<char>, PricingRowView>,
    pub import_errors: Seq<(Seq<char>, Seq<char>)>,
}

impl View for Store {
    type V = StoreView;

    open spec fn view(&self) -> StoreView {
        StoreView {
            calls: self.calls@,
            primary_sessions: self.primary_sessions@.dom(),
            thread_settings: self.thread_settings@,
            checkpoints: self.checkpoints@,
            meta: self.meta@,
            threads: self.threads@,
            pricing: self.pricing@,
            import_errors: self.import_errors.deep_view(),
        }
    }
}

/// A store with nothing in it.
pub open spec fn empty_store() -> StoreView {
    StoreView {
        calls: Map::empty(),
        primary_sessions: Set::empty(),
        thread_settings: Map::empty(),
        checkpoints: Map::empty(),
        meta: Map::empty(),
        threads: Map::empty(),
        pricing: Map::empty(),
        import_errors: Seq::empty(),
    }
}

impl Store {
    pub fn new() -> (r: Self)
        ensures
            r@ == empty_store(),
    {
        let r = Store {
            calls: CallTable::new(),
            primary_sessions: TextMap::new(),
            thread_settings: TextMap::new(),
            checkpoints: TextMap::new(),
            meta: TextMap::new(),
            threads: TextMap::new(),
            pricing: TextMap::new(),
            import_errors: Vec::new(),
        };
        assert(r@ =~= empty_store());
        r
    }
}

/// Finds the checkpoint of a file.
pub fn get_checkpoint<'a>(store: &'a Store, rel_path: &str) -> (r: Option<&'a Checkpoint>)
    ensures
        match r {
            Some(c) => store@.checkpoints.contains_key(rel_path@) && c@
                == store@.checkpoints[rel_path@],
            None => !store@.checkpoints.contains_key(rel_path@),
        },
{
    store.checkpoints.get(rel_path)
}

/// Saves the checkpoint of a file, in place of the one that it had.
pub fn save_checkpoint(store: &mut Store, rel_path: String, checkpoint: Checkpoint)
    ensures
        final(store)@ == (StoreView {
            checkpoints: old(store)@.checkpoints.insert(rel_path@, checkpoint@),
            ..old(store)@
        }),
{
    store.checkpoints.insert(rel_path, checkpoint);
}

/// A call is already there: by its identity, or by its response id.
pub open spec fn is_known(calls: Map<Seq<char>, CallView>, c: CallView) -> bool {
    calls.contains_key(c.event_uid) || c.response_id is Some && is_taken(calls, c.response_id->0)
}

/// The call that is there lacks the tier that this one tells.
pub open spec fn is_repaired_by(calls: Map<Seq<char>, CallView>, c: CallView) -> bool {
    &&& is_known(calls, c)
    &&& c.service_tier != ServiceTier::Unknown
    &&& calls.contains_key(c.event_uid)
    &&& calls[c.event_uid].service_tier == ServiceTier::Unknown
}

/// The calls once one more is told: a new one is added; of one that is there only a missing tier
/// is filled in.
pub open spec fn with_call(calls: Map<Seq<char>, CallView>, c: CallView) -> Map<
    Seq<char>,
    CallView,
> {
    if !is_known(calls, c) {
        calls.insert(c.event_uid, c)
    } else if is_repaired_by(calls, c) {
        calls.insert(
            c.event_uid,
            CallView { service_tier: c.service_tier, ..calls[c.event_uid] },
        )
    } else {
        calls
    }
}

/// Adds a call unless it is there. Tells whether it is new, and whether it filled in the tier of
/// the one that is there.
pub fn insert_call(store: &mut Store, call: &InferenceCall) -> (r: (bool, bool))
    ensures
        final(store)@ == (StoreView {
            calls: with_call(old(store)@.calls, call@),
            ..old(store)@
        }),
        r.0 == !is_known(old(store)@.calls, call@),
        r.1 == is_repaired_by(old(store)@.calls, call@),
{
    let taken = match &call.response_id {
        Some(rid) => store.calls.has_response_id(rid.as_str()),
        None => false,
    };
    let prior = match store.calls.get(call.event_uid.as_str()) {
        Some(c) => Some(c.clone()),
        None => None,
    };
    match prior {
        None => {
            if taken {
                (false, false)
            } else {
                store.calls.insert(call.clone());
                (true, false)
            }
        },
        Some(mut there) => {
            if call.service_tier != ServiceTier::Unknown && there.service_tier
                == ServiceTier::Unknown {
                there.service_tier = call.service_tier;
                store.calls.replace(there);
                (false, true)
            } else {
                (false, false)
            }
        },
    }
}

/// A setting takes the place of an earlier one, or of one at the same time.
pub open spec fn with_setting(
    settings: Map<Seq<char>, (Seq<char>, Seq<char>)>,
    thread_id: Seq<char>,
    tier: Seq<char>,
    applied_ts: Seq<char>,
) -> Map<Seq<char>, (Seq<char>, Seq<char>)> {
    if settings.contains_key(thread_id) && !text_le(settings[thread_id].1, applied_ts) {
        settings
    } else {
        settings.insert(thread_id, (tier, applied_ts))
    }
}

/// Notes the tier of a thread, unless a later one is known.
pub fn upsert_thread_settings(store: &mut Store, thread_id: &str, tier: &str, applied_ts: &str)
    ensures
        final(store)@ == (StoreView {
            thread_settings: with_setting(
                old(store)@.thread_settings,
                thread_id@,
                tier@,
                applied_ts@,
            ),
            ..old(store)@
        }),
{
    let replace = match store.thread_settings.get(thread_id) {
        Some(prev) => !text::is_before(applied_ts, prev.1.as_str()),
        None => true,
    };
    if replace {
        store.thread_settings.insert(
            thread_id.to_owned(),
            (tier.to_owned(), applied_ts.to_owned()),
        );
    }
}

/// Finds the last tier of a thread, and when it was applied.
pub fn get_thread_tier<'a>(store: &'a Store, thread_id: &str) -> (r: Option<&'a (String, String)>)
    ensures
        match r {
            Some(s) => store@.thread_settings.contains_key(thread_id@) && s.deep_view()
                == store@.thread_settings[thread_id@],
            None => !store@.thread_settings.contains_key(thread_id@),
        },
{
    store.thread_settings.get(thread_id)
}

/// Marks a session as covered by usage records: its legacy events never count from now on.
pub fn mark_primary_session(store: &mut Store, session_id: &str)
    ensures
        final(store)@ == (StoreView {
            primary_sessions: old(store)@.primary_sessions.insert(session_id@),
            ..old(store)@
        }),
{
    let ghost before = store@;
    store.primary_sessions.insert(session_id.to_owned(), ());
    assert(store@.primary_sessions =~= before.primary_sessions.insert(session_id@));
}

/// Tells whether usage records cover a session.
pub fn is_primary_session(store: &Store, session_id: &str) -> (r: bool)
    ensures
        r == store@.primary_sessions.contains(session_id@),
{
    store.primary_sessions.contains_key(session_id)
}

/// The prices without those of the calls that are dropped.
pub open spec fn kept_prices(
    pricing: Map<Seq<char>, PricingRowView>,
    calls: Map<Seq<char>, CallView>,
    drop: spec_fn(CallView) -> bool,
) -> Map<Seq<char>, PricingRowView> {
    Map::new(
        |u: Seq<char>| pricing.contains_key(u) && !(calls.contains_key(u) && drop(calls[u])),
        |u: Seq<char>| pricing[u],
    )
}

/// The store without the calls that a test drops, and without their prices.
pub open spec fn without_calls(s: StoreView, drop: spec_fn(CallView) -> bool) -> StoreView {
    StoreView {
        calls: kept(s.calls, drop),
        pricing: kept_prices(s.pricing, s.calls, drop),
        ..s
    }
}

/// Drops the calls that meet a test together with their prices, and tells how many.
fn delete_calls<T: CallTest>(store: &mut Store, t: &T) -> (r: u64)
    ensures
        final(store)@ == without_calls(old(store)@, |c: CallView| t.holds(c)),
        r == count_where(old(store)@.calls, |c: CallView| t.holds(c)),
{
    let ghost before = store@;
    let ghost drop = |c: CallView| t.holds(c);
    let removed = store.calls.remove_where(t);
    let ghost gone = removed.deep_view();
    let n: usize = removed.len();
    let mut i: usize = 0;
    while i < n
        invariant
            n == removed@.len(),
            gone == removed.deep_view(),
            i <= n,
            store@.calls == kept(before.calls, drop),
            store@ == (StoreView {
                calls: store@.calls,
                pricing: store@.pricing,
                ..before
            }),
            forall|u: Seq<char>|
                #[trigger] store@.pricing.contains_key(u) <==> before.pricing.contains_key(u)
                    && !gone.take(i as int).contains(u),
            forall|u: Seq<char>|
                #[trigger] store@.pricing.contains_key(u) ==> store@.pricing[u]
                    == before.pricing[u],
        decreases n - i,
    {
        let ghost prices = store@.pricing;
        store.pricing.remove(removed[i].as_str());
        proof {
            let (a, b) = (gone.take(i as int), gone.take(i + 1));
            assert(gone[i as int] == removed@[i as int]@);
            assert forall|u: Seq<char>| b.contains(u) <==> a.contains(u) || u == gone[i as int] by {
                if a.contains(u) {
                    let j = choose|j: int| 0 <= j < a.len() && a[j] == u;
                    assert(b[j] == u);
                }
                assert(b[i as int] == gone[i as int]);
                if b.contains(u) && u != gone[i as int] {
                    let j = choose|j: int| 0 <= j < b.len() && b[j] == u;
                    assert(a[j] == u);
                }
            }
        }
        i += 1;
    }
    proof {
        assert(gone.take(n as int) =~= gone);
        assert(store@.pricing =~= kept_prices(before.pricing, before.calls, drop));
    }
    n as u64
}

/// A legacy call of a session.
pub open spec fn is_legacy_of(c: CallView, session: Seq<char>) -> bool {
    c.source_format == SourceFormat::LegacyTokenCount && c.session_id == Some(session)
}

struct LegacyOf<'a> {
    session: &'a str,
}

impl<'a> CallTest for LegacyOf<'a> {
    closed spec fn holds(&self, c: CallView) -> bool {
        is_legacy_of(c, self.session@)
    }

    fn test(&self, c: &InferenceCall) -> (r: bool) {
        c.source_format == SourceFormat::LegacyTokenCount && match &c.session_id {
            Some(s) => text::same(s.as_str(), self.session),
            None => false,
        }
    }
}

/// Drops the legacy calls of a session that usage records cover, with their prices, and tells how
/// many.
pub fn clear_legacy_for_session(store: &mut Store, session_id: &str) -> (r: u64)
    ensures
        final(store)@ == without_calls(
            old(store)@,
            |c: CallView| is_legacy_of(c, session_id@),
        ),
        r == count_where(old(store)@.calls, |c: CallView| is_legacy_of(c, session_id@)),
{
    let t = LegacyOf { session: session_id };
    proof {
        assert((|c: CallView| t.holds(c)) =~= (|c: CallView| is_legacy_of(c, session_id@)));
    }
    delete_calls(store, &t)
}

/// Some usage record of the store has this session, which is not empty.
pub open spec fn has_record_session(calls: Map<Seq<char>, CallView>, session: Seq<char>) -> bool {
    session.len() > 0 && exists|u: Seq<char>|
        #[trigger] calls.contains_key(u) && calls[u].source_format
            == SourceFormat::TokenUsageRecord && calls[u].session_id == Some(session)
}

/// Some usage record of the store comes from this file, whose name is not empty.
pub open spec fn has_record_file(calls: Map<Seq<char>, CallView>, path: Seq<char>) -> bool {
    path.len() > 0 && exists|u: Seq<char>|
        #[trigger] calls.contains_key(u) && calls[u].source_format
            == SourceFormat::TokenUsageRecord && calls[u].source_file == path
}

/// The checkpoints, those of files with usage records being marked.
pub open spec fn marked_files(
    checkpoints: Map<Seq<char>, CheckpointView>,
    calls: Map<Seq<char>, CallView>,
) -> Map<Seq<char>, CheckpointView> {
    Map::new(
        |p: Seq<char>| checkpoints.contains_key(p),
        |p: Seq<char>|
            CheckpointView {
                had_primary: checkpoints[p].had_primary || has_record_file(calls, p),
                ..checkpoints[p]
            },
    )
}

/// A legacy call that does not count: usage records cover its session or its file.
pub open spec fn is_superseded(
    c: CallView,
    sessions: Set<Seq<char>>,
    checkpoints: Map<Seq<char>, CheckpointView>,
) -> bool {
    &&& c.source_format == SourceFormat::LegacyTokenCount
    &&& c.session_id is Some && sessions.contains(c.session_id->0) || checkpoints.contains_key(
        c.source_file,
    ) && checkpoints[c.source_file].had_primary
}

/// The store once what its usage records cover is marked, before legacy calls are dropped.
pub open spec fn marked(s: StoreView) -> StoreView {
    StoreView {
        primary_sessions: s.primary_sessions.union(
            Set::new(|x: Seq<char>| has_record_session(s.calls, x)),
        ),
        checkpoints: marked_files(s.checkpoints, s.calls),
        ..s
    }
}

/// The test that backfilling drops calls by.
pub open spec fn superseded_in(s: StoreView) -> spec_fn(CallView) -> bool {
    |c: CallView| is_superseded(c, s.primary_sessions, s.checkpoints)
}

/// The store once it is made to agree with its own usage records.
pub open spec fn backfilled(s: StoreView) -> StoreView {
    without_calls(marked(s), superseded_in(marked(s)))
}

struct Superseded<'a> {
    sessions: &'a TextMap<()>,
    files: &'a TextMap<()>,
}

impl<'a> CallTest for Superseded<'a> {
    closed spec fn holds(&self, c: CallView) -> bool {
        &&& c.source_format == SourceFormat::LegacyTokenCount
        &&& c.session_id is Some && self.sessions@.contains_key(c.session_id->0)
            || self.files@.contains_key(c.source_file)
    }

    fn test(&self, c: &InferenceCall) -> (r: bool) {
        if c.source_format != SourceFormat::LegacyTokenCount {
            return false;
        }
        if let Some(s) = &c.session_id {
            if self.sessions.contains_key(s.as_str()) {
                return true;
            }
        }
        self.files.contains_key(c.source_file.as_str())
    }
}

proof fn lemma_record_step(m: Map<Seq<char>, CallView>, k: Seq<char>, c: CallView, x: Seq<char>)
    requires
        !m.contains_key(k),
    ensures
        ({
            let is_record = c.source_format == SourceFormat::TokenUsageRecord;
            &&& has_record_session(m.insert(k, c), x) <==> has_record_session(m, x) || x.len() > 0
                && is_record && c.session_id == Some(x)
            &&& has_record_file(m.insert(k, c), x) <==> has_record_file(m, x) || x.len() > 0
                && is_record && c.source_file == x
        }),
{
    let n = m.insert(k, c);
    let in_session = |q: Map<Seq<char>, CallView>, u: Seq<char>|
        q[u].source_format == SourceFormat::TokenUsageRecord && q[u].session_id == Some(x);
    let in_file = |q: Map<Seq<char>, CallView>, u: Seq<char>|
        q[u].source_format == SourceFormat::TokenUsageRecord && q[u].source_file == x;
    assert(n.contains_key(k));
    if has_record_session(m, x) {
        let u = choose|u: Seq<char>| #[trigger] m.contains_key(u) && in_session(m, u);
        assert(n.contains_key(u) && in_session(n, u));
    }
    if has_record_session(n, x) {
        let u = choose|u: Seq<char>| #[trigger] n.contains_key(u) && in_session(n, u);
        if u != k {
            assert(m.contains_key(u) && in_session(m, u));
        }
    }
    if has_record_file(m, x) {
        let u = choose|u: Seq<char>| #[trigger] m.contains_key(u) && in_file(m, u);
        assert(n.contains_key(u) && in_file(n, u));
    }
    if has_record_file(n, x) {
        let u = choose|u: Seq<char>| #[trigger] n.contains_key(u) && in_file(n, u);
        if u != k {
            assert(m.contains_key(u) && in_file(m, u));
        }
    }
}

fn is_empty_text(s: &str) -> (r: bool)
    ensures
        r == (s@.len() == 0),
{
    text::letters(s).len() == 0
}

/// Adds the sessions of the usage records to `sessions`, and their files to `files`.
fn collect_records(calls: &CallTable, sessions: &mut TextMap<()>, files: &mut TextMap<()>)
    requires
        old(files)@ == Map::<Seq<char>, ()>::empty(),
    ensures
        forall|x: Seq<char>|
            #[trigger] final(sessions)@.contains_key(x) <==> old(sessions)@.contains_key(x)
                || has_record_session(calls@, x),
        forall|x: Seq<char>|
            #[trigger] final(files)@.contains_key(x) <==> has_record_file(calls@, x),
{
    let n: usize = calls.len();
    let ghost rows = calls.rows();
    let ghost first = sessions@;
    let mut i: usize = 0;
    while i < n
        invariant
            n == rows.len(),
            rows == calls.rows(),
            ordered(rows),
            i <= n,
            forall|x: Seq<char>|
                #[trigger] sessions@.contains_key(x) <==> first.contains_key(x)
                    || has_record_session(rows_map(rows.take(i as int)), x),
            forall|x: Seq<char>|
                #[trigger] files@.contains_key(x) <==> has_record_file(
                    rows_map(rows.take(i as int)),
                    x,
                ),
        decreases n - i,
    {
        let c = calls.call_at(i);
        let ghost before = rows_map(rows.take(i as int));
        let ghost after = rows_map(rows.take(i + 1));
        let ghost had_sessions = sessions@;
        let ghost had_files = files@;
        proof {
            lemma_next_row(rows, i as int);
        }
        if c.source_format == SourceFormat::TokenUsageRecord {
            if let Some(s) = &c.session_id {
                if !is_empty_text(s.as_str()) {
                    sessions.insert(s.clone(), ());
                }
            }
            if !is_empty_text(c.source_file.as_str()) {
                files.insert(c.source_file.clone(), ());
            }
        }
        proof {
            let k = rows[i as int].0;
            assert forall|x: Seq<char>| #[trigger] sessions@.contains_key(x) <==> first.contains_key(
                x,
            ) || has_record_session(after, x) by {
                lemma_record_step(before, k, c@, x);
                assert(had_sessions.contains_key(x) <==> first.contains_key(x)
                    || has_record_session(before, x));
            }
            assert forall|x: Seq<char>| #[trigger] files@.contains_key(x) <==> has_record_file(
                after,
                x,
            ) by {
                lemma_record_step(before, k, c@, x);
                assert(had_files.contains_key(x) <==> has_record_file(before, x));
            }
        }
        i += 1;
    }
    assert(rows.take(n as int) =~= rows);
}

/// Marks the checkpoints of the given files. Also tells which checkpoints are marked in the end.
fn mark_files(checkpoints: &TextMap<Checkpoint>, files: &TextMap<()>) -> (r: (
    TextMap<Checkpoint>,
    TextMap<()>,
))
    ensures
        r.0@ == Map::new(
            |p: Seq<char>| checkpoints@.contains_key(p),
            |p: Seq<char>|
                CheckpointView {
                    had_primary: checkpoints@[p].had_primary || files@.contains_key(p),
                    ..checkpoints@[p]
                },
        ),
        forall|p: Seq<char>|
            #[trigger] r.1@.contains_key(p) <==> r.0@.contains_key(p) && r.0@[p].had_primary,
{
    let n: usize = checkpoints.len();
    let ghost rows = checkpoints.rows();
    let ghost mark = |m: Map<Seq<char>, CheckpointView>|
        Map::new(
            |p: Seq<char>| m.contains_key(p),
            |p: Seq<char>|
                CheckpointView {
                    had_primary: m[p].had_primary || files@.contains_key(p),
                    ..m[p]
                },
        );
    let mut out: TextMap<Checkpoint> = TextMap::new();
    let mut primary: TextMap<()> = TextMap::new();
    let mut i: usize = 0;
    assert(out@ =~= mark(rows_map(rows.take(0))));
    while i < n
        invariant
            n == rows.len(),
            rows == checkpoints.rows(),
            ordered(rows),
            i <= n,
            mark == (|m: Map<Seq<char>, CheckpointView>|
                Map::new(
                    |p: Seq<char>| m.contains_key(p),
                    |p: Seq<char>|
                        CheckpointView {
                            had_primary: m[p].had_primary || files@.contains_key(p),
                            ..m[p]
                        },
                )),
            out@ == mark(rows_map(rows.take(i as int))),
            forall|p: Seq<char>|
                #[trigger] primary@.contains_key(p) <==> out@.contains_key(p)
                    && out@[p].had_primary,
        decreases n - i,
    {
        let path = checkpoints.key_at(i);
        let mut c = checkpoints.value_at(i).clone();
        let ghost had = primary@;
        let ghost had_out = out@;
        proof {
            lemma_next_row(rows, i as int);
        }
        if files.contains_key(path.as_str()) {
            c.had_primary = true;
        }
        if c.had_primary {
            primary.insert(path.clone(), ());
        }
        let ghost v = c@;
        out.insert(path.clone(), c);
        proof {
            assert(!had_out.contains_key(path@));
            assert forall|p: Seq<char>| #[trigger] primary@.contains_key(p) <==> out@.contains_key(p)
                && out@[p].had_primary by {
                assert(had.contains_key(p) <==> had_out.contains_key(p) && had_out[p].had_primary);
            }
            assert(out@ =~= mark(rows_map(rows.take(i + 1))));
        }
        i += 1;
    }
    assert(rows.take(n as int) =~= rows);
    (out, primary)
}

/// Makes the store agree with its own usage records: marks their sessions and files, drops the
/// legacy calls of those, and tells how many. Doing so again changes nothing.
pub fn backfill_primary_sessions(store: &mut Store) -> (r: u64)
    ensures
        final(store)@ == backfilled(old(store)@),
        r == count_where(old(store)@.calls, superseded_in(marked(old(store)@))),
{
    let ghost before = store@;
    let mut sessions: TextMap<()> = TextMap::new();
    std::mem::swap(&mut sessions, &mut store.primary_sessions);
    let mut files: TextMap<()> = TextMap::new();
    collect_records(&store.calls, &mut sessions, &mut files);
    let (checkpoints, primary) = mark_files(&store.checkpoints, &files);
    store.checkpoints = checkpoints;
    let t = Superseded { sessions: &sessions, files: &primary };
    proof {
        let m = marked(before);
        assert(sessions@.dom() =~= m.primary_sessions);
        assert(store@.checkpoints =~= m.checkpoints);
        assert((|c: CallView| t.holds(c)) =~= superseded_in(m));
    }
    let n: u64 = delete_calls(store, &t);
    store.primary_sessions = sessions;
    assert(store@ =~= backfilled(before));
    n
}

/// Notes what a call is charged by, in place of what was noted.
pub fn insert_pricing_result(
    store: &mut Store,
    event_uid: &str,
    cd: CostBreakdown,
    catalog_version: &str,
)
    ensures
        final(store)@ == (StoreView {
            pricing: old(store)@.pricing.insert(
                event_uid@,
                PricingRowView { catalog_version: catalog_version@, cost: cd@ },
            ),
            ..old(store)@
        }),
{
    store.pricing.insert(
        event_uid.to_owned(),
        PricingRow { catalog_version: catalog_version.to_owned(), cost: cd },
    );
}

/// Finds a value by its key.
pub fn get_meta<'a>(store: &'a Store, key: &str) -> (r: Option<&'a String>)
    ensures
        match r {
            Some(v) => store@.meta.contains_key(key@) && v@ == store@.meta[key@],
            None => !store@.meta.contains_key(key@),
        },
{
    store.meta.get(key)
}

/// Sets a value.
pub fn set_meta(store: &mut Store, key: &str, value: &str)
    ensures
        final(store)@ == (StoreView {
            meta: old(store)@.meta.insert(key@, value@),
            ..old(store)@
        }),
{
    store.meta.insert(key.to_owned(), value.to_owned());
}

/// A call has a price.
pub open spec fn is_priceable(rules: Seq<RuleView>) -> spec_fn(CallView) -> bool {
    |c: CallView| cost_of(rules, c).model_known
}

/// The prices of all calls that have one.
pub open spec fn all_prices(
    calls: Map<Seq<char>, CallView>,
    rules: Seq<RuleView>,
    version: Seq<char>,
) -> Map<Seq<char>, PricingRowView> {
    Map::new(
        |u: Seq<char>| calls.contains_key(u) && is_priceable(rules)(calls[u]),
        |u: Seq<char>|
            PricingRowView { catalog_version: version, cost: cost_of(rules, calls[u]) },
    )
}

/// Prices all calls anew, each by its own day and tier, and tells how many have a price.
pub fn reprice_all(store: &mut Store, engine: &PricingEngine) -> (r: u64)
    ensures
        final(store)@ == (StoreView {
            pricing: all_prices(
                old(store)@.calls,
                engine.codex.rules.deep_view(),
                engine.codex.version@,
            ),
            ..old(store)@
        }),
        r == count_where(old(store)@.calls, is_priceable(engine.codex.rules.deep_view())),
{
    let ghost before = store@;
    let ghost rules = engine.codex.rules.deep_view();
    let ghost version = engine.codex.version@;
    let ghost test = is_priceable(rules);
    let mut pricing: TextMap<PricingRow> = TextMap::new();
    let n: usize = store.calls.len();
    let ghost rows = store.calls.rows();
    let mut priced: u64 = 0;
    let mut i: usize = 0;
    proof {
        let none = rows_map(rows.take(0));
        assert(none.dom() =~= Set::empty());
        assert(none.dom().filter(|u: Seq<char>| test(none[u])) =~= Set::empty());
        assert(pricing@ =~= all_prices(none, rules, version));
    }
    while i < n
        invariant
            n == rows.len(),
            rows == store.calls.rows(),
            store@ == before,
            before.calls == rows_map(rows),
            is_call_table(before.calls),
            ordered(rows),
            i <= n,
            priced <= i,
            rules == engine.codex.rules.deep_view(),
            version == engine.codex.version@,
            test == is_priceable(rules),
            pricing@ == all_prices(rows_map(rows.take(i as int)), rules, version),
            priced == count_where(rows_map(rows.take(i as int)), test),
        decreases n - i,
    {
        let c = store.calls.call_at(i);
        let ghost had = rows_map(rows.take(i as int));
        let ghost k = rows[i as int].0;
        proof {
            lemma_next_row(rows, i as int);
            lemma_rows_map_at(rows, i as int);
            lemma_ordered_take(rows, i as int);
            lemma_rows_count(rows.take(i as int));
            lemma_count_step(had, k, c@, test);
            assert(c@.event_uid == k);
        }
        let cd = engine.cost_codex(c);
        if cd.model_known {
            pricing.insert(
                c.event_uid.clone(),
                PricingRow { catalog_version: engine.codex.version.clone(), cost: cd },
            );
            priced += 1;
        }
        assert(pricing@ =~= all_prices(rows_map(rows.take(i + 1)), rules, version));
        i += 1;
    }
    assert(rows.take(n as int) =~= rows);
    store.pricing = pricing;
    priced
}

/// Reads a confidence; what is no confidence is unknown.
pub fn parse_confidence(s: &str) -> (r: ModelConfidence)
    ensures
        r == ModelConfidence::of_text(s@),
{
    if text::same(s, "exact") {
        ModelConfidence::Exact
    } else if text::same(s, "inferred") {
        ModelConfidence::Inferred
    } else {
        ModelConfidence::Unknown
    }
}

/// The order of times; no time comes first.
pub open spec fn time_lt(a: Option<Seq<char>>, b: Option<Seq<char>>) -> bool {
    match (a, b) {
        (None, Some(y)) => true,
        (Some(x), Some(y)) => text_lt(x, y),
        _ => false,
    }
}

/// The order of calls: by time, then by file, then by line.
pub open spec fn call_lt(a: CallView, b: CallView) -> bool {
    ||| time_lt(a.timestamp_utc, b.timestamp_utc)
    ||| a.timestamp_utc == b.timestamp_utc && (text_lt(a.source_file, b.source_file)
        || a.source_file == b.source_file && a.source_ordinal < b.source_ordinal)
}

proof fn lemma_text_lt_asymmetric(a: Seq<char>, b: Seq<char>)
    requires
        text_lt(a, b),
    ensures
        !text_lt(b, a),
{
    if text_lt(b, a) {
        text::lemma_text_lt_transitive(a, b, a);
        text::lemma_text_lt_irreflexive(a);
    }
}

proof fn lemma_time_order(
    a: Option<Seq<char>>,
    b: Option<Seq<char>>,
    c: Option<Seq<char>>,
)
    ensures
        !time_lt(a, a),
        time_lt(a, b) ==> !time_lt(b, a),
        time_lt(a, b) || a == b || time_lt(b, a),
        time_lt(a, b) && time_lt(b, c) ==> time_lt(a, c),
{
    if let Some(x) = a {
        text::lemma_text_lt_irreflexive(x);
        if let Some(y) = b {
            text::lemma_text_lt_total(x, y);
            if text_lt(x, y) {
                lemma_text_lt_asymmetric(x, y);
                if let Some(z) = c {
                    if text_lt(y, z) {
                        text::lemma_text_lt_transitive(x, y, z);
                    }
                }
            }
        }
    }
}

proof fn lemma_text_order(a: Seq<char>, b: Seq<char>, c: Seq<char>)
    ensures
        !text_lt(a, a),
        text_lt(a, b) ==> !text_lt(b, a),
        text_lt(a, b) || a == b || text_lt(b, a),
        text_lt(a, b) && text_lt(b, c) ==> text_lt(a, c),
{
    lemma_time_order(Some(a), Some(b), Some(c));
}

impl Ranked for InferenceCall {
    open spec fn before(a: CallView, b: CallView) -> bool {
        call_lt(a, b)
    }

    fn is_before(&self, other: &Self) -> (r: bool) {
        proof {
            lemma_time_order(self@.timestamp_utc, other@.timestamp_utc, None);
            lemma_text_order(self@.source_file, other@.source_file, self@.source_file);
        }
        if time_before(&self.timestamp_utc, &other.timestamp_utc) {
            return true;
        }
        if time_before(&other.timestamp_utc, &self.timestamp_utc) {
            proof {
                lemma_time_order(other@.timestamp_utc, self@.timestamp_utc, None);
            }
            return false;
        }
        if text::is_before(self.source_file.as_str(), other.source_file.as_str()) {
            return true;
        }
        if text::is_before(other.source_file.as_str(), self.source_file.as_str()) {
            proof {
                lemma_text_order(other@.source_file, self@.source_file, self@.source_file);
            }
            return false;
        }
        self.source_ordinal < other.source_ordinal
    }

    proof fn lemma_asymmetric(a: CallView, b: CallView) {
        lemma_time_order(a.timestamp_utc, b.timestamp_utc, a.timestamp_utc);
        lemma_time_order(b.timestamp_utc, a.timestamp_utc, b.timestamp_utc);
        lemma_text_order(a.source_file, b.source_file, a.source_file);
        lemma_text_order(b.source_file, a.source_file, b.source_file);
    }

    proof fn lemma_transitive(a: CallView, b: CallView, c: CallView) {
        if call_lt(c, a) {
            lemma_time_order(a.timestamp_utc, b.timestamp_utc, c.timestamp_utc);
            lemma_time_order(b.timestamp_utc, c.timestamp_utc, a.timestamp_utc);
            lemma_time_order(c.timestamp_utc, a.timestamp_utc, b.timestamp_utc);
            lemma_text_order(a.source_file, b.source_file, c.source_file);
            lemma_text_order(b.source_file, c.source_file, a.source_file);
            lemma_text_order(c.source_file, a.source_file, b.source_file);
        }
    }
}

fn time_before(a: &Option<String>, b: &Option<String>) -> (r: bool)
    ensures
        r == time_lt(a.deep_view(), b.deep_view()),
{
    match (a, b) {
        (None, Some(_)) => true,
        (Some(x), Some(y)) => text::is_before(x.as_str(), y.as_str()),
        _ => false,
    }
}

/// The calls of rows that lie in a period.
pub open spec fn calls_in_period(
    rows: Seq<(Seq<char>, CallView)>,
    from: Option<Seq<char>>,
    to: Option<Seq<char>>,
) -> Seq<CallView>
    decreases rows.len(),
{
    if rows.len() == 0 {
        Seq::empty()
    } else if in_period(rows.last().1, from, to) {
        calls_in_period(rows.drop_last(), from, to).push(rows.last().1)
    } else {
        calls_in_period(rows.drop_last(), from, to)
    }
}

/// Gives the calls of the period, each bound being optional, in order.
pub fn load_calls(store: &Store, from: Option<&str>, to: Option<&str>) -> (r: Vec<InferenceCall>)
    ensures
        is_sorting_of::<InferenceCall>(
            r.deep_view(),
            calls_in_period(rows_of(store@.calls), bound(from), bound(to)),
        ),
{
    let n: usize = store.calls.len();
    let ghost rows = store.calls.rows();
    proof {
        lemma_rows_of(rows);
    }
    let mut out: Vec<InferenceCall> = Vec::new();
    let mut i: usize = 0;
    assert(out.deep_view() =~= calls_in_period(rows.take(0), bound(from), bound(to)));
    while i < n
        invariant
            n == rows.len(),
            rows == store.calls.rows(),
            i <= n,
            out.deep_view() == calls_in_period(rows.take(i as int), bound(from), bound(to)),
        decreases n - i,
    {
        let c = store.calls.call_at(i);
        let ghost had = out.deep_view();
        assert(rows.take(i + 1).drop_last() =~= rows.take(i as int));
        if is_in_period(c, from, to) {
            let kept = c.clone();
            out.push(kept);
            assert(out.deep_view() =~= had.push(c@));
        }
        i += 1;
    }
    assert(rows.take(n as int) =~= rows);
    order::sort(out)
}

/// The calls of rows.
pub open spec fn row_calls(rows: Seq<(Seq<char>, CallView)>) -> Seq<CallView> {
    rows.map_values(|r: (Seq<char>, CallView)| r.1)
}

/// Gives the number of calls and their usage.
pub fn db_totals(store: &Store) -> (r: (u64, TokenUsage))
    ensures
        r.0 == store@.calls.dom().len(),
        r.1 == usage_sum(row_calls(rows_of(store@.calls))),
{
    let n: usize = store.calls.len();
    let ghost rows = store.calls.rows();
    let ghost all = row_calls(rows);
    proof {
        lemma_rows_of(rows);
        lemma_rows_count(rows);
    }
    let mut usage = TokenUsage::default();
    let mut i: usize = 0;
    while i < n
        invariant
            n == rows.len(),
            rows == store.calls.rows(),
            all == row_calls(rows),
            i <= n,
            usage == usage_sum(all.take(i as int)),
        decreases n - i,
    {
        let c = store.calls.call_at(i);
        assert(all.take(i + 1).drop_last() =~= all.take(i as int));
        usage.add(&c.usage);
        i += 1;
    }
    assert(all.take(n as int) =~= all);
    (n as u64, usage)
}

} // verus!
