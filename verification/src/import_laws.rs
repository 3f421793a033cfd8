//! What holds of every import.

use vstd::prelude::*;

use crate::call_table::is_call_table;
use crate::call_table::is_taken;
use crate::call_table::kept;
use crate::discovery::relative_to;
use crate::discovery::FileView;
use crate::import::call_step;
use crate::import::covered_sessions;
use crate::import::event_call;
use crate::import::file_context;
use crate::import::file_events;
use crate::import::file_reading;
use crate::import::file_start;
use crate::import::imported;
use crate::import::is_counted;
use crate::import::is_unchanged;
use crate::import::legacy_of;
use crate::import::lemma_events_keep;
use crate::import::lemma_settings_keep;
use crate::import::lemma_settled_keeps;
use crate::import::prepared;
use crate::import::settled;
use crate::import::with_changed_file;
use crate::import::with_covered;
use crate::import::with_events;
use crate::import::with_files;
use crate::import::with_state;
use crate::import::FileContext;
use crate::import::FileInput;
use crate::import::ImportReport;
use crate::import::Progress;
use crate::model::CallView;
use crate::model::EventView;
use crate::model::SourceFormat;
use crate::parser::content_len;
use crate::parser::first_of;
use crate::parser::uid_of;
use crate::parser::FileContentView;
use crate::pricing::PricingEngine;
use crate::pricing::RuleView;
use crate::scan_laws::lemma_file_with_record;
use crate::state::told_calls;
use crate::state::with_threads;
use crate::state::ThreadView;
use crate::store::backfilled;
use crate::store::empty_store;
use crate::store::has_record_file;
use crate::store::has_record_session;
use crate::store::is_known;
use crate::store::is_legacy_of;
use crate::store::is_repaired_by;
use crate::store::marked;
use crate::store::superseded_in;
use crate::store::with_call;
use crate::store::without_calls;
use crate::store::StoreView;

verus! {

/// A call that was told once is known; telling it again adds nothing and changes nothing.
pub proof fn law_telling_twice_is_telling_once(calls: Map<Seq<char>, CallView>, c: CallView)
    ensures
        is_known(with_call(calls, c), c),
        !is_repaired_by(with_call(calls, c), c),
        with_call(with_call(calls, c), c) == with_call(calls, c),
{
    let once = with_call(calls, c);
    if !is_known(calls, c) {
        assert(once.contains_key(c.event_uid));
    }
}

/// However calls are told, each stands under its own identity, and no two share a response id.
pub proof fn law_calls_stay_distinct(calls: Map<Seq<char>, CallView>, c: CallView)
    requires
        is_call_table(calls),
    ensures
        is_call_table(with_call(calls, c)),
{
    let n = with_call(calls, c);
    assert forall|u: Seq<char>| #[trigger] n.contains_key(u) implies n[u].event_uid == u by {
        if u != c.event_uid {
            assert(calls.contains_key(u));
        } else if calls.contains_key(u) {
            assert(calls[u].event_uid == u);
        }
    }
    assert forall|u: Seq<char>, v: Seq<char>|
        #![trigger n.contains_key(u), n.contains_key(v)]
        n.contains_key(u) && n.contains_key(v) && n[u].response_id is Some && n[u].response_id
            == n[v].response_id implies u == v by {
        if u != v {
            let k = c.event_uid;
            if calls.contains_key(u) && calls.contains_key(v) {
                assert(calls[u].response_id == n[u].response_id);
                assert(calls[v].response_id == n[v].response_id);
            } else if u == k {
                assert(calls.contains_key(v));
                assert(is_taken(calls, c.response_id->0));
            } else {
                assert(v == k && calls.contains_key(u));
                assert(is_taken(calls, c.response_id->0));
            }
        }
    }
}

/// Usage records have their sessions marked, as far as the name of the session has `least` letters
/// or more, and no legacy call is of a marked session.
pub open spec fn is_sorted_out(s: StoreView, least: nat) -> bool {
    &&& forall|u: Seq<char>|
        #[trigger] s.calls.contains_key(u) && s.calls[u].source_format
            == SourceFormat::TokenUsageRecord && s.calls[u].session_id is Some
            && s.calls[u].session_id->0.len() >= least ==> s.primary_sessions.contains(
            s.calls[u].session_id->0,
        )
    &&& forall|u: Seq<char>|
        #[trigger] s.calls.contains_key(u) && s.calls[u].source_format
            == SourceFormat::LegacyTokenCount && s.calls[u].session_id is Some
            ==> !s.primary_sessions.contains(s.calls[u].session_id->0)
}

/// A new store is sorted out, for every name of a session.
pub proof fn law_new_store_is_sorted_out()
    ensures
        is_sorted_out(empty_store(), 0),
{
}

/// In a store that is sorted out, no session is counted by both methods.
pub proof fn law_sorted_out_store_never_mixes(
    s: StoreView,
    least: nat,
    u: Seq<char>,
    v: Seq<char>,
)
    requires
        is_sorted_out(s, least),
        s.calls.contains_key(u),
        s.calls.contains_key(v),
        s.calls[u].source_format == SourceFormat::LegacyTokenCount,
        s.calls[v].source_format == SourceFormat::TokenUsageRecord,
        s.calls[v].session_id is Some,
        s.calls[v].session_id->0.len() >= least,
    ensures
        s.calls[u].session_id != s.calls[v].session_id,
{
}

proof fn lemma_backfilled_is_sorted_out(s: StoreView, least: nat)
    requires
        least > 0 || is_sorted_out(s, least),
    ensures
        is_sorted_out(backfilled(s), least),
{
    let m = marked(s);
    let b = backfilled(s);
    assert forall|u: Seq<char>|
        #[trigger] b.calls.contains_key(u) && b.calls[u].source_format
            == SourceFormat::TokenUsageRecord && b.calls[u].session_id is Some
            && b.calls[u].session_id->0.len() >= least implies b.primary_sessions.contains(
        b.calls[u].session_id->0,
    ) by {
        assert(s.calls.contains_key(u));
        if s.calls[u].session_id->0.len() > 0 {
            assert(has_record_session(s.calls, s.calls[u].session_id->0));
        }
    }
    assert forall|u: Seq<char>|
        #[trigger] b.calls.contains_key(u) && b.calls[u].source_format
            == SourceFormat::LegacyTokenCount && b.calls[u].session_id is Some
            implies !b.primary_sessions.contains(b.calls[u].session_id->0) by {
        assert(!superseded_in(m)(m.calls[u]));
    }
}

/// Making the store agree with its usage records once more changes nothing.
pub proof fn law_backfilling_again_changes_nothing(s: StoreView)
    ensures
        backfilled(backfilled(s)) == backfilled(s),
{
    let m = marked(s);
    let b = backfilled(s);
    let n = marked(b);
    assert forall|x: Seq<char>|
        has_record_session(b.calls, x) == has_record_session(s.calls, x) && has_record_file(
            b.calls,
            x,
        ) == has_record_file(s.calls, x) by {
        lemma_records_stay(s, x);
    }
    assert(n.primary_sessions =~= m.primary_sessions);
    assert(n.checkpoints =~= m.checkpoints);
    assert forall|u: Seq<char>| #[trigger] b.calls.contains_key(u) implies !superseded_in(n)(
        b.calls[u],
    ) by {
        assert(!superseded_in(m)(m.calls[u]));
    }
    assert(backfilled(b).calls =~= b.calls);
    assert(backfilled(b).pricing =~= b.pricing);
    assert(backfilled(b) =~= b);
}

/// Dropping legacy calls leaves the usage records.
proof fn lemma_records_stay(s: StoreView, x: Seq<char>)
    ensures
        has_record_session(backfilled(s).calls, x) == has_record_session(s.calls, x),
        has_record_file(backfilled(s).calls, x) == has_record_file(s.calls, x),
{
    let b = backfilled(s);
    let m = marked(s);
    assert forall|u: Seq<char>|
        #[trigger] s.calls.contains_key(u) && s.calls[u].source_format
            == SourceFormat::TokenUsageRecord implies b.calls.contains_key(u) && b.calls[u]
        == s.calls[u] by {
        assert(!superseded_in(m)(m.calls[u]));
    }
    if has_record_session(s.calls, x) {
        let u = choose|u: Seq<char>|
            #[trigger] s.calls.contains_key(u) && s.calls[u].source_format
                == SourceFormat::TokenUsageRecord && s.calls[u].session_id == Some(x);
        assert(b.calls.contains_key(u));
    }
    if has_record_session(b.calls, x) {
        let u = choose|u: Seq<char>|
            #[trigger] b.calls.contains_key(u) && b.calls[u].source_format
                == SourceFormat::TokenUsageRecord && b.calls[u].session_id == Some(x);
        assert(s.calls.contains_key(u));
    }
    if has_record_file(s.calls, x) {
        let u = choose|u: Seq<char>|
            #[trigger] s.calls.contains_key(u) && s.calls[u].source_format
                == SourceFormat::TokenUsageRecord && s.calls[u].source_file == x;
        assert(b.calls.contains_key(u));
    }
    if has_record_file(b.calls, x) {
        let u = choose|u: Seq<char>|
            #[trigger] b.calls.contains_key(u) && b.calls[u].source_format
                == SourceFormat::TokenUsageRecord && b.calls[u].source_file == x;
        assert(s.calls.contains_key(u));
    }
}

proof fn lemma_covered_stays_sorted_out(p: Progress, sessions: Seq<Seq<char>>, least: nat)
    requires
        is_sorted_out(p.store, least),
    ensures
        is_sorted_out(with_covered(p, sessions).store, least),
        forall|i: int|
            0 <= i < sessions.len() ==> with_covered(p, sessions).store.primary_sessions.contains(
                #[trigger] sessions[i],
            ),
    decreases sessions.len(),
{
    if sessions.len() > 0 {
        let init = sessions.drop_last();
        let q = with_covered(p, init);
        let s = sessions.last();
        lemma_covered_stays_sorted_out(p, init, least);
        let r = with_covered(p, sessions);
        assert forall|u: Seq<char>|
            #[trigger] r.store.calls.contains_key(u) && r.store.calls[u].source_format
                == SourceFormat::LegacyTokenCount && r.store.calls[u].session_id is Some
                implies !r.store.primary_sessions.contains(r.store.calls[u].session_id->0) by {
            assert(q.store.calls.contains_key(u));
            assert(!legacy_of(s)(q.store.calls[u]));
        }
        assert forall|u: Seq<char>|
            #[trigger] r.store.calls.contains_key(u) && r.store.calls[u].source_format
                == SourceFormat::TokenUsageRecord && r.store.calls[u].session_id is Some
                && r.store.calls[u].session_id->0.len() >= least
                implies r.store.primary_sessions.contains(r.store.calls[u].session_id->0) by {
            assert(q.store.calls.contains_key(u));
        }
        assert forall|i: int| 0 <= i < sessions.len() implies r.store.primary_sessions.contains(
            #[trigger] sessions[i],
        ) by {
            if i < init.len() {
                assert(init[i] == sessions[i]);
            }
        }
    }
}

proof fn lemma_covered_sessions_hold(
    meta_session: Option<Seq<char>>,
    events: Seq<EventView>,
    j: int,
)
    ensures
        meta_session is Some ==> covered_sessions(meta_session, events).contains(meta_session->0),
        0 <= j < events.len() && events[j].source_format == SourceFormat::TokenUsageRecord
            && events[j].session_id is Some ==> covered_sessions(meta_session, events).contains(
            events[j].session_id->0,
        ),
    decreases events.len(),
{
    if events.len() == 0 {
        if meta_session is Some {
            assert(covered_sessions(meta_session, events)[0] == meta_session->0);
        }
    } else {
        let init = covered_sessions(meta_session, events.drop_last());
        let all = covered_sessions(meta_session, events);
        lemma_covered_sessions_hold(meta_session, events.drop_last(), j);
        let e = events.last();
        assert forall|x: Seq<char>| init.contains(x) implies all.contains(x) by {
            let i = choose|i: int| 0 <= i < init.len() && init[i] == x;
            assert(all[i] == x);
        }
        if e.source_format == SourceFormat::TokenUsageRecord && e.session_id is Some
            && !init.contains(e.session_id->0) {
            assert(all[init.len() as int] == e.session_id->0);
        }
    }
}

/// The sessions of the usage records among the events, their own or that of the file, are marked.
spec fn records_are_marked(s: StoreView, x: FileContext, events: Seq<EventView>) -> bool {
    forall|j: int|
        0 <= j < events.len() && (#[trigger] events[j]).source_format
            == SourceFormat::TokenUsageRecord ==> {
            let session = first_of(events[j].session_id, x.enrichment.meta.session_id);
            session is Some ==> s.primary_sessions.contains(session->0)
        }
}

proof fn lemma_settled_is_sorted_out(p: Progress, i: FileInput, least: nat)
    requires
        is_sorted_out(p.store, least),
        content_len(i.content) <= u64::MAX,
    ensures
        is_sorted_out(settled(p, i).store, least),
        records_are_marked(
            settled(p, i).store,
            file_context(p.store, i),
            file_events(p.store, i),
        ),
{
    let x = file_context(p.store, i);
    let events = file_events(p.store, i);
    let start = file_start(p.store, i);
    let r = file_reading(p.store, i);
    let sessions = covered_sessions(x.enrichment.meta.session_id, events);
    let covered = if x.primary {
        with_covered(p, sessions)
    } else {
        p
    };
    lemma_covered_stays_sorted_out(p, sessions, least);
    lemma_settings_keep(covered.store, x.settings);
    assert forall|j: int|
        0 <= j < events.len() && (#[trigger] events[j]).source_format
            == SourceFormat::TokenUsageRecord implies ({
        let session = first_of(events[j].session_id, x.enrichment.meta.session_id);
        session is Some ==> settled(p, i).store.primary_sessions.contains(session->0)
    }) by {
        assert(r.result.raw_calls[j].source_format == SourceFormat::TokenUsageRecord);
        lemma_file_with_record(
            i.content,
            start.offset as int,
            start.lines as nat,
            start.pending,
            j,
        );
        assert(x.primary);
        lemma_covered_sessions_hold(x.enrichment.meta.session_id, events, j);
        let session = first_of(events[j].session_id, x.enrichment.meta.session_id);
        if session is Some {
            assert(sessions.contains(session->0));
            let k = choose|k: int| 0 <= k < sessions.len() && sessions[k] == session->0;
            assert(covered.store.primary_sessions.contains(sessions[k]));
        }
    }
}

proof fn lemma_events_stay_sorted_out(
    p: Progress,
    x: FileContext,
    events: Seq<EventView>,
    least: nat,
)
    requires
        is_sorted_out(p.store, least),
        records_are_marked(p.store, x, events),
    ensures
        is_sorted_out(with_events(p, x, events).store, least),
    decreases events.len(),
{
    if events.len() > 0 {
        let init = events.drop_last();
        assert(records_are_marked(p.store, x, init)) by {
            assert forall|j: int|
                0 <= j < init.len() && (#[trigger] init[j]).source_format
                    == SourceFormat::TokenUsageRecord implies ({
                let session = first_of(init[j].session_id, x.enrichment.meta.session_id);
                session is Some ==> p.store.primary_sessions.contains(session->0)
            }) by {
                assert(init[j] == events[j]);
            }
        }
        lemma_events_stay_sorted_out(p, x, init, least);
        lemma_events_keep(p, x, init);
        let q = with_events(p, x, init);
        let e = events.last();
        assert(events[events.len() - 1] == e);
        if is_counted(q.store, x, e) {
            let c = event_call(q.store, x, e);
            let n = call_step(q, x, c).store;
            assert forall|u: Seq<char>|
                #[trigger] n.calls.contains_key(u) && u != c.event_uid implies q.store.calls.contains_key(
                u) && n.calls[u] == q.store.calls[u] by {}
            assert(is_sorted_out(n, least)) by {
                if is_known(q.store.calls, c) && q.store.calls.contains_key(c.event_uid) {
                    let d = q.store.calls[c.event_uid];
                    assert(n.calls[c.event_uid].source_format == d.source_format);
                    assert(n.calls[c.event_uid].session_id == d.session_id);
                }
            }
        }
    }
}

proof fn lemma_changed_file_stays_sorted_out(p: Progress, i: FileInput, least: nat)
    requires
        is_sorted_out(p.store, least),
        content_len(i.content) <= u64::MAX,
    ensures
        is_sorted_out(with_changed_file(p, i).store, least),
{
    lemma_settled_is_sorted_out(p, i, least);
    lemma_events_stay_sorted_out(
        settled(p, i),
        file_context(p.store, i),
        file_events(p.store, i),
        least,
    );
}

proof fn lemma_files_stay_sorted_out(
    p: Progress,
    home: Seq<char>,
    files: Seq<FileView>,
    contents: Seq<FileContentView>,
    rules: Seq<RuleView>,
    version: Seq<char>,
    force_full: bool,
    least: nat,
)
    requires
        is_sorted_out(p.store, least),
        files.len() == contents.len(),
        forall|i: int| 0 <= i < contents.len() ==> content_len(#[trigger] contents[i]) <= u64::MAX,
    ensures
        is_sorted_out(
            with_files(p, home, files, contents, rules, version, force_full).store,
            least,
        ),
    decreases files.len(),
{
    if files.len() > 0 {
        let (fs, cs) = (files.drop_last(), contents.drop_last());
        assert forall|i: int| 0 <= i < cs.len() implies content_len(#[trigger] cs[i])
            <= u64::MAX by {
            assert(cs[i] == contents[i]);
        }
        lemma_files_stay_sorted_out(p, home, fs, cs, rules, version, force_full, least);
        assert(contents[contents.len() - 1] == contents.last());
        let q = with_files(p, home, fs, cs, rules, version, force_full);
        lemma_changed_file_stays_sorted_out(
            q,
            FileInput {
                rel: relative_to(files.last().path, home),
                file: files.last(),
                content: contents.last(),
                rules,
                version,
                force_full,
            },
            least,
        );
    }
}

/// After an import no session is counted by both methods. In a store that only imports have
/// written, from a new one on, nothing is left out. In one that was never sorted out this leaves
/// out the session with the empty name, unless the import is a full one.
pub proof fn law_import_never_mixes_methods(
    s: StoreView,
    home: Seq<char>,
    files: Seq<FileView>,
    contents: Seq<FileContentView>,
    threads: Option<Seq<ThreadView>>,
    engine: PricingEngine,
    force_full: bool,
    force_reprice: bool,
    least: nat,
)
    requires
        least > 0 || force_full || is_sorted_out(s, least),
        files.len() == contents.len(),
        forall|i: int| 0 <= i < contents.len() ==> content_len(#[trigger] contents[i]) <= u64::MAX,
    ensures
        is_sorted_out(
            imported(
                s,
                home,
                files,
                contents,
                threads,
                engine,
                force_full,
                force_reprice,
            ).store,
            least,
        ),
{
    if !force_full {
        lemma_backfilled_is_sorted_out(s, least);
    }
    let p = prepared(s, files.len(), force_full);
    assert(is_sorted_out(p.store, least));
    let rules = engine.codex.rules.deep_view();
    let version = engine.codex.version@;
    lemma_files_stay_sorted_out(p, home, files, contents, rules, version, force_full, least);
    let q = with_files(p, home, files, contents, rules, version, force_full);
    if let Some(t) = threads {
        let table = with_threads(q.store.threads, t);
        let c = told_calls(q.store.calls, table);
        assert forall|u: Seq<char>| #[trigger] c.contains_key(u) implies q.store.calls.contains_key(
            u,
        ) && c[u].source_format == q.store.calls[u].source_format && c[u].session_id
            == q.store.calls[u].session_id by {
        }
    }
}

/// Every price belongs to a call, and is that of a known model.
pub open spec fn prices_ok(s: StoreView) -> bool {
    forall|u: Seq<char>|
        #[trigger] s.pricing.contains_key(u) ==> s.calls.contains_key(u)
            && s.pricing[u].cost.model_known
}

proof fn lemma_without_calls_prices(s: StoreView, drop: spec_fn(CallView) -> bool)
    requires
        prices_ok(s),
    ensures
        prices_ok(without_calls(s, drop)),
{
    let w = without_calls(s, drop);
    assert forall|u: Seq<char>| #[trigger] w.pricing.contains_key(u) implies w.calls.contains_key(u)
        && w.pricing[u].cost.model_known by {
        assert(s.pricing.contains_key(u));
    }
}

proof fn lemma_covered_prices(p: Progress, sessions: Seq<Seq<char>>)
    requires
        prices_ok(p.store),
    ensures
        prices_ok(with_covered(p, sessions).store),
    decreases sessions.len(),
{
    if sessions.len() > 0 {
        lemma_covered_prices(p, sessions.drop_last());
        let q = with_covered(p, sessions.drop_last()).store;
        let s = sessions.last();
        lemma_without_calls_prices(
            StoreView { primary_sessions: q.primary_sessions.insert(s), ..q },
            legacy_of(s),
        );
    }
}

proof fn lemma_events_prices(p: Progress, x: FileContext, events: Seq<EventView>)
    requires
        prices_ok(p.store),
    ensures
        prices_ok(with_events(p, x, events).store),
    decreases events.len(),
{
    if events.len() > 0 {
        lemma_events_prices(p, x, events.drop_last());
        let q = with_events(p, x, events.drop_last());
        let e = events.last();
        if is_counted(q.store, x, e) {
            let n = call_step(q, x, event_call(q.store, x, e)).store;
            assert forall|u: Seq<char>| #[trigger] n.pricing.contains_key(
                u,
            ) implies n.calls.contains_key(u) && n.pricing[u].cost.model_known by {
                if q.store.pricing.contains_key(u) {
                    assert(q.store.calls.contains_key(u));
                }
            }
        }
    }
}

proof fn lemma_files_prices(
    p: Progress,
    home: Seq<char>,
    files: Seq<FileView>,
    contents: Seq<FileContentView>,
    rules: Seq<RuleView>,
    version: Seq<char>,
    force_full: bool,
)
    requires
        prices_ok(p.store),
        files.len() == contents.len(),
    ensures
        prices_ok(with_files(p, home, files, contents, rules, version, force_full).store),
    decreases files.len(),
{
    if files.len() > 0 {
        let (fs, cs) = (files.drop_last(), contents.drop_last());
        lemma_files_prices(p, home, fs, cs, rules, version, force_full);
        let q = with_files(p, home, fs, cs, rules, version, force_full);
        let i = FileInput {
            rel: relative_to(files.last().path, home),
            file: files.last(),
            content: contents.last(),
            rules,
            version,
            force_full,
        };
        let x = file_context(q.store, i);
        let events = file_events(q.store, i);
        let sessions = covered_sessions(x.enrichment.meta.session_id, events);
        lemma_covered_prices(q, sessions);
        let covered = if x.primary {
            with_covered(q, sessions)
        } else {
            q
        };
        lemma_settings_keep(covered.store, x.settings);
        lemma_events_prices(settled(q, i), x, events);
    }
}

/// An import keeps the prices in order: each belongs to a call of the store, and none is that of
/// an unknown model.
pub proof fn law_import_prices_only_known_models(
    s: StoreView,
    home: Seq<char>,
    files: Seq<FileView>,
    contents: Seq<FileContentView>,
    threads: Option<Seq<ThreadView>>,
    engine: PricingEngine,
    force_full: bool,
    force_reprice: bool,
)
    requires
        prices_ok(s),
        files.len() == contents.len(),
    ensures
        prices_ok(
            imported(
                s,
                home,
                files,
                contents,
                threads,
                engine,
                force_full,
                force_reprice,
            ).store,
        ),
{
    lemma_without_calls_prices(marked(s), superseded_in(marked(s)));
    let p = prepared(s, files.len(), force_full);
    let rules = engine.codex.rules.deep_view();
    let version = engine.codex.version@;
    lemma_files_prices(p, home, files, contents, rules, version, force_full);
    let q = with_state(with_files(p, home, files, contents, rules, version, force_full), threads);
    assert(prices_ok(q.store));
}

/// No two files have the same name in the store.
pub open spec fn names_differ(files: Seq<FileView>, home: Seq<char>) -> bool {
    forall|i: int, j: int|
        0 <= i < j < files.len() ==> relative_to((#[trigger] files[i]).path, home) != relative_to(
            (#[trigger] files[j]).path,
            home,
        )
}

/// All files are as they were when they were last imported.
pub open spec fn all_unchanged(s: StoreView, files: Seq<FileView>, home: Seq<char>) -> bool {
    forall|i: int|
        0 <= i < files.len() ==> is_unchanged(
            s.checkpoints,
            relative_to((#[trigger] files[i]).path, home),
            files[i],
        )
}

pub proof fn lemma_files_are_noted(
    p: Progress,
    home: Seq<char>,
    files: Seq<FileView>,
    contents: Seq<FileContentView>,
    rules: Seq<RuleView>,
    version: Seq<char>,
    force_full: bool,
)
    requires
        names_differ(files, home),
    ensures
        all_unchanged(
            with_files(p, home, files, contents, rules, version, force_full).store,
            files,
            home,
        ),
    decreases files.len(),
{
    if files.len() > 0 {
        let (fs, cs) = (files.drop_last(), contents.drop_last());
        assert(names_differ(fs, home)) by {
            assert forall|i: int, j: int| 0 <= i < j < fs.len() implies relative_to(
                (#[trigger] fs[i]).path,
                home,
            ) != relative_to((#[trigger] fs[j]).path, home) by {
                assert(fs[i] == files[i] && fs[j] == files[j]);
            }
        }
        lemma_files_are_noted(p, home, fs, cs, rules, version, force_full);
        let q = with_files(p, home, fs, cs, rules, version, force_full);
        let i = FileInput {
            rel: relative_to(files.last().path, home),
            file: files.last(),
            content: contents.last(),
            rules,
            version,
            force_full,
        };
        lemma_settled_keeps(q, i);
        lemma_events_keep(settled(q, i), file_context(q.store, i), file_events(q.store, i));
        let r = with_files(p, home, files, contents, rules, version, force_full);
        assert forall|k: int| 0 <= k < files.len() implies is_unchanged(
            r.store.checkpoints,
            relative_to((#[trigger] files[k]).path, home),
            files[k],
        ) by {
            if k < fs.len() {
                assert(fs[k] == files[k]);
                assert(files[files.len() - 1] == files.last());
            }
        }
    }
}

pub proof fn lemma_unchanged_are_passed_over(
    p: Progress,
    home: Seq<char>,
    files: Seq<FileView>,
    contents: Seq<FileContentView>,
    rules: Seq<RuleView>,
    version: Seq<char>,
)
    requires
        all_unchanged(p.store, files, home),
        p.report.files_skipped + files.len() <= usize::MAX,
    ensures
        ({
            let q = with_files(p, home, files, contents, rules, version, false);
            &&& q.store == p.store
            &&& q.report == (ImportReport {
                files_skipped: (p.report.files_skipped + files.len()) as usize,
                ..p.report
            })
        }),
    decreases files.len(),
{
    if files.len() > 0 {
        let fs = files.drop_last();
        assert forall|i: int| 0 <= i < fs.len() implies is_unchanged(
            p.store.checkpoints,
            relative_to((#[trigger] fs[i]).path, home),
            fs[i],
        ) by {
            assert(fs[i] == files[i]);
        }
        lemma_unchanged_are_passed_over(p, home, fs, contents.drop_last(), rules, version);
        assert(files[files.len() - 1] == files.last());
    }
}

/// An import passes over every file that is unchanged: nothing of it is read, and no call is
/// added. Only what the usage records of the store itself supersede is dropped.
pub proof fn law_unchanged_files_are_passed_over(
    s: StoreView,
    home: Seq<char>,
    files: Seq<FileView>,
    contents: Seq<FileContentView>,
    threads: Option<Seq<ThreadView>>,
    engine: PricingEngine,
    force_reprice: bool,
)
    requires
        all_unchanged(s, files, home),
        files.len() <= usize::MAX,
    ensures
        ({
            let p = imported(s, home, files, contents, threads, engine, false, force_reprice);
            &&& p.report.files_skipped == files.len()
            &&& p.report.files_changed == 0
            &&& p.report.bytes_read == 0
            &&& p.report.calls_inserted == 0
            &&& p.report.duplicates_ignored == 0
            &&& p.report.parse_errors == 0
            &&& p.store.calls.dom() == backfilled(s).calls.dom()
        }),
{
    let p = prepared(s, files.len(), false);
    assert(all_unchanged(p.store, files, home)) by {
        assert forall|i: int| 0 <= i < files.len() implies is_unchanged(
            p.store.checkpoints,
            relative_to((#[trigger] files[i]).path, home),
            files[i],
        ) by {
            assert(s.checkpoints.contains_key(relative_to(files[i].path, home)));
        }
    }
    let rules = engine.codex.rules.deep_view();
    let version = engine.codex.version@;
    lemma_unchanged_are_passed_over(p, home, files, contents, rules, version);
    let q = with_files(p, home, files, contents, rules, version, false);
    lemma_state_keeps_calls(q, threads);
    assert(with_state(q, threads).store.calls.dom() == backfilled(s).calls.dom());
}

proof fn lemma_state_keeps_calls(p: Progress, threads: Option<Seq<ThreadView>>)
    ensures
        with_state(p, threads).store.calls.dom() == p.store.calls.dom(),
        with_state(p, threads).store.checkpoints == p.store.checkpoints,
{
    assert(with_state(p, threads).store.calls.dom() =~= p.store.calls.dom());
}

/// Importing the same files again passes over all of them and adds no call, whatever the threads
/// and the catalogues are by then.
pub proof fn law_second_import_adds_nothing(
    s: StoreView,
    home: Seq<char>,
    files: Seq<FileView>,
    contents: Seq<FileContentView>,
    threads: Option<Seq<ThreadView>>,
    engine: PricingEngine,
    force_full: bool,
    force_reprice: bool,
    later_contents: Seq<FileContentView>,
    later_threads: Option<Seq<ThreadView>>,
    later_engine: PricingEngine,
    later_reprice: bool,
)
    requires
        names_differ(files, home),
        files.len() <= usize::MAX,
    ensures
        ({
            let first = imported(
                s,
                home,
                files,
                contents,
                threads,
                engine,
                force_full,
                force_reprice,
            );
            let second = imported(
                first.store,
                home,
                files,
                later_contents,
                later_threads,
                later_engine,
                false,
                later_reprice,
            );
            &&& second.report.files_skipped == files.len()
            &&& second.report.calls_inserted == 0
            &&& second.report.duplicates_ignored == 0
            &&& second.store.calls.dom().subset_of(first.store.calls.dom())
        }),
{
    let p = prepared(s, files.len(), force_full);
    let rules = engine.codex.rules.deep_view();
    let version = engine.codex.version@;
    lemma_files_are_noted(p, home, files, contents, rules, version, force_full);
    let q = with_files(p, home, files, contents, rules, version, force_full);
    lemma_state_keeps_calls(q, threads);
    let first = imported(s, home, files, contents, threads, engine, force_full, force_reprice);
    assert(first.store.checkpoints == q.store.checkpoints);
    law_unchanged_files_are_passed_over(
        first.store,
        home,
        files,
        later_contents,
        later_threads,
        later_engine,
        later_reprice,
    );
}

/// The store knows an event: by its identity, or by its response id.
spec fn knows(calls: Map<Seq<char>, CallView>, e: EventView) -> bool {
    calls.contains_key(uid_of(e)) || e.response_id is Some && is_taken(calls, e.response_id->0)
}

proof fn lemma_still_knows(calls: Map<Seq<char>, CallView>, c: CallView, e: EventView)
    requires
        knows(calls, e),
    ensures
        knows(with_call(calls, c), e),
{
    let n = with_call(calls, c);
    if !n.contains_key(uid_of(e)) {
        let rid = e.response_id->0;
        let u = choose|u: Seq<char>|
            #[trigger] calls.contains_key(u) && calls[u].response_id == Some(rid);
        assert(n.contains_key(u) && n[u].response_id == Some(rid));
    }
}

/// After a file is told, the store knows all its events that count.
proof fn lemma_told_events_are_known(p: Progress, x: FileContext, events: Seq<EventView>)
    ensures
        forall|j: int|
            0 <= j < events.len() && is_counted(p.store, x, #[trigger] events[j]) ==> knows(
                with_events(p, x, events).store.calls,
                events[j],
            ),
    decreases events.len(),
{
    if events.len() > 0 {
        let init = events.drop_last();
        lemma_told_events_are_known(p, x, init);
        lemma_events_keep(p, x, init);
        let q = with_events(p, x, init);
        let r = with_events(p, x, events);
        let e = events.last();
        let c = event_call(q.store, x, e);
        assert forall|j: int|
            0 <= j < events.len() && is_counted(p.store, x, #[trigger] events[j]) implies knows(
            r.store.calls,
            events[j],
        ) by {
            if j < init.len() {
                assert(init[j] == events[j]);
                if is_counted(q.store, x, e) {
                    lemma_still_knows(q.store.calls, c, events[j]);
                }
            } else {
                law_telling_twice_is_telling_once(q.store.calls, c);
            }
        }
    }
}

/// Events that the store knows add no call.
proof fn lemma_known_events_add_nothing(p: Progress, x: FileContext, events: Seq<EventView>)
    requires
        forall|j: int|
            0 <= j < events.len() && is_counted(p.store, x, #[trigger] events[j]) ==> knows(
                p.store.calls,
                events[j],
            ),
    ensures
        with_events(p, x, events).store.calls.dom() == p.store.calls.dom(),
        with_events(p, x, events).report.calls_inserted == p.report.calls_inserted,
        forall|u: Seq<char>|
            #[trigger] p.store.calls.contains_key(u) ==> with_events(p, x, events).store.calls[u]
                == (CallView {
                service_tier: with_events(p, x, events).store.calls[u].service_tier,
                ..p.store.calls[u]
            }),
    decreases events.len(),
{
    if events.len() > 0 {
        let init = events.drop_last();
        assert forall|j: int|
            0 <= j < init.len() && is_counted(p.store, x, #[trigger] init[j]) implies knows(
            p.store.calls,
            init[j],
        ) by {
            assert(init[j] == events[j]);
        }
        lemma_known_events_add_nothing(p, x, init);
        lemma_events_keep(p, x, init);
        let q = with_events(p, x, init);
        let r = with_events(p, x, events);
        let e = events.last();
        assert(events[events.len() - 1] == e);
        if is_counted(q.store, x, e) {
            let c = event_call(q.store, x, e);
            if !p.store.calls.contains_key(uid_of(e)) {
                let rid = e.response_id->0;
                let u = choose|u: Seq<char>|
                    #[trigger] p.store.calls.contains_key(u) && p.store.calls[u].response_id
                        == Some(rid);
                assert(q.store.calls.contains_key(u));
                assert(q.store.calls[u].response_id == Some(rid));
            }
            assert(is_known(q.store.calls, c));
            assert(r.store.calls.dom() =~= q.store.calls.dom());
        }
    }
}

/// No legacy call is of one of these sessions.
spec fn no_legacy_of(calls: Map<Seq<char>, CallView>, sessions: Seq<Seq<char>>) -> bool {
    forall|u: Seq<char>, i: int|
        #![trigger calls.contains_key(u), sessions[i]]
        calls.contains_key(u) && 0 <= i < sessions.len() ==> !is_legacy_of(calls[u], sessions[i])
}

proof fn lemma_covered_has_no_legacy(p: Progress, sessions: Seq<Seq<char>>)
    ensures
        no_legacy_of(with_covered(p, sessions).store.calls, sessions),
    decreases sessions.len(),
{
    if sessions.len() > 0 {
        let init = sessions.drop_last();
        lemma_covered_has_no_legacy(p, init);
        let q = with_covered(p, init).store.calls;
        let r = with_covered(p, sessions).store.calls;
        let s = sessions.last();
        assert forall|u: Seq<char>, i: int|
            #![trigger r.contains_key(u), sessions[i]]
            r.contains_key(u) && 0 <= i < sessions.len() implies !is_legacy_of(
            r[u],
            sessions[i],
        ) by {
            assert(q.contains_key(u) && r[u] == q[u]);
            assert(!legacy_of(s)(q[u]));
            if i < init.len() {
                assert(init[i] == sessions[i]);
            }
        }
    }
}

proof fn lemma_covering_again_drops_nothing(p: Progress, sessions: Seq<Seq<char>>)
    requires
        no_legacy_of(p.store.calls, sessions),
    ensures
        with_covered(p, sessions).store.calls == p.store.calls,
        with_covered(p, sessions).report.calls_inserted == p.report.calls_inserted,
        p.store.primary_sessions.subset_of(with_covered(p, sessions).store.primary_sessions),
    decreases sessions.len(),
{
    if sessions.len() > 0 {
        let init = sessions.drop_last();
        assert forall|u: Seq<char>, i: int|
            #![trigger p.store.calls.contains_key(u), init[i]]
            p.store.calls.contains_key(u) && 0 <= i < init.len() implies !is_legacy_of(
            p.store.calls[u],
            init[i],
        ) by {
            assert(init[i] == sessions[i]);
        }
        lemma_covering_again_drops_nothing(p, init);
        let s = sessions.last();
        assert(sessions[sessions.len() - 1] == s);
        assert(kept(p.store.calls, legacy_of(s)) =~= p.store.calls);
    }
}

/// A file with usage records adds no legacy call.
proof fn lemma_primary_adds_no_legacy(
    p: Progress,
    x: FileContext,
    events: Seq<EventView>,
    sessions: Seq<Seq<char>>,
)
    requires
        x.primary,
        no_legacy_of(p.store.calls, sessions),
    ensures
        no_legacy_of(with_events(p, x, events).store.calls, sessions),
    decreases events.len(),
{
    if events.len() > 0 {
        let init = events.drop_last();
        lemma_primary_adds_no_legacy(p, x, init, sessions);
        let q = with_events(p, x, init).store;
        let r = with_events(p, x, events).store;
        let e = events.last();
        if is_counted(q, x, e) {
            let c = event_call(q, x, e);
            assert forall|u: Seq<char>, i: int|
                #![trigger r.calls.contains_key(u), sessions[i]]
                r.calls.contains_key(u) && 0 <= i < sessions.len() implies !is_legacy_of(
                r.calls[u],
                sessions[i],
            ) by {
                if q.calls.contains_key(u) {
                    assert(!is_legacy_of(q.calls[u], sessions[i]));
                    assert(r.calls[u].source_format == q.calls[u].source_format);
                    assert(r.calls[u].session_id == q.calls[u].session_id);
                } else {
                    assert(u == c.event_uid && r.calls[u] == c);
                    assert(c.source_format == SourceFormat::TokenUsageRecord);
                }
            }
        }
    }
}

/// A file that is moved, or copied, adds no call: importing the same content under another name
/// leaves the same calls.
pub proof fn law_moved_file_adds_nothing(p: Progress, before: FileInput, after: FileInput)
    requires
        before.content == after.content,
        before.rel != after.rel,
        before.force_full || !p.store.checkpoints.contains_key(before.rel),
        after.force_full || !p.store.checkpoints.contains_key(after.rel),
    ensures
        ({
            let q = with_changed_file(p, before);
            let r = with_changed_file(q, after);
            &&& r.store.calls.dom() == q.store.calls.dom()
            &&& r.report.calls_inserted == q.report.calls_inserted
        }),
{
    let q = with_changed_file(p, before);
    let x = file_context(p.store, before);
    let y = file_context(q.store, after);
    let events = file_events(p.store, before);
    let first = settled(p, before);
    let told = with_events(first, x, events);
    lemma_settled_keeps(p, before);
    lemma_events_keep(first, x, events);
    assert(q.store.checkpoints == told.store.checkpoints.insert(
        before.rel,
        q.store.checkpoints[before.rel],
    ));
    assert(after.force_full || !q.store.checkpoints.contains_key(after.rel));
    assert(file_events(q.store, after) == events);
    assert(x.primary == y.primary && x.enrichment == y.enrichment);
    let sessions = covered_sessions(x.enrichment.meta.session_id, events);
    let second = settled(q, after);
    lemma_told_events_are_known(first, x, events);
    let covered_first = if x.primary {
        with_covered(p, sessions)
    } else {
        p
    };
    let covered_second = if x.primary {
        with_covered(q, sessions)
    } else {
        q
    };
    lemma_settings_keep(covered_first.store, x.settings);
    lemma_settings_keep(covered_second.store, y.settings);
    if x.primary {
        lemma_covered_has_no_legacy(p, sessions);
        lemma_primary_adds_no_legacy(first, x, events, sessions);
        lemma_covering_again_drops_nothing(q, sessions);
    }
    assert(second.store.calls == q.store.calls);
    assert(first.store.primary_sessions.subset_of(second.store.primary_sessions));
    assert forall|j: int|
        0 <= j < events.len() && is_counted(second.store, y, #[trigger] events[j]) implies knows(
        second.store.calls,
        events[j],
    ) by {
        assert(is_counted(first.store, x, events[j]));
    }
    lemma_known_events_add_nothing(second, y, events);
}

} // verus!
