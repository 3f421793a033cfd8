//! What an import does with a file, a session, a setting and a call.

use vstd::prelude::*;

use crate::call_table::count_where;
use crate::discovery::FileView;
use crate::import::call_step;
use crate::import::covered_sessions;
use crate::import::event_call;
use crate::import::fingerprint_of;
use crate::import::first_errors;
use crate::import::is_counted;
use crate::import::is_unchanged;
use crate::import::needs_prices;
use crate::import::prepared;
use crate::import::start_of;
use crate::import::with_changed_file;
use crate::import::with_covered;
use crate::import::with_events;
use crate::import::with_file;
use crate::import::with_known_tier;
use crate::import::with_prices;
use crate::import::with_settings;
use crate::import::with_state;
use crate::import::FileContext;
use crate::import::FileInput;
use crate::import::Progress;
use crate::model::enriched;
use crate::model::CallView;
use crate::model::EnrichmentView;
use crate::model::EventView;
use crate::model::ResultView;
use crate::model::RootModelView;
use crate::model::ServiceTier;
use crate::model::SourceFormat;
use crate::model::TierSettingView;
use crate::parser::FileContentView;
use crate::pricing::cost_of;
use crate::pricing::RuleView;
use crate::resume::adopted_all;
use crate::state::ThreadView;
use crate::store::all_prices;
use crate::store::with_call;
use crate::store::with_setting;
use crate::store::CheckpointView;
use crate::store::StoreView;
use crate::text::text_le;

verus! {

/// A file is unchanged if and only if its checkpoint has its size and its time.
pub proof fn law_unchanged_is_same_size_and_time(
    checkpoints: Map<Seq<char>, CheckpointView>,
    rel: Seq<char>,
    f: FileView,
)
    ensures
        !checkpoints.contains_key(rel) ==> !is_unchanged(checkpoints, rel, f),
        checkpoints.contains_key(rel) ==> (is_unchanged(checkpoints, rel, f)
            <==> checkpoints[rel].size == f.size && checkpoints[rel].mtime_unix == f.mtime_unix),
{
}

/// Reading starts where the checkpoint ended, with all that the checkpoint tells. It starts anew
/// where there is no checkpoint or a full import is asked for, and at the first line, though with
/// what is known of the file, where the file has shrunk.
pub proof fn law_reading_starts_at_the_checkpoint(
    checkpoints: Map<Seq<char>, CheckpointView>,
    rel: Seq<char>,
    size: u64,
    full: bool,
)
    ensures
        ({
            let s = start_of(checkpoints, rel, size, full);
            let c = checkpoints[rel];
            let known = !full && checkpoints.contains_key(rel);
            let shrunk = c.last_complete_offset > size;
            &&& !known ==> s.offset == 0 && s.lines == 0 && !s.pending && !s.had_primary
                && s.enrichment.meta.session_id is None
            &&& known ==> s.had_primary == c.had_primary && s.enrichment == c.enrichment
            &&& known && !shrunk ==> s.offset == c.last_complete_offset && s.lines == c.lines_total
                && s.pending == c.pending_newline
            &&& known && shrunk ==> s.offset == 0 && s.lines == 0 && !s.pending
        }),
{
}

/// What a further stretch of a file tells comes before what was known: its header where it names a
/// session, and the models and directories of its turns. A root keeps a model only where both agree.
pub proof fn law_later_stretch_prevails(prior: EnrichmentView, r: ResultView, k: Seq<char>)
    ensures
        ({
            let x = enriched(prior, r);
            &&& r.meta.session_id is Some ==> x.meta == r.meta
            &&& r.meta.session_id is None ==> x.meta == prior.meta
            &&& r.turn_models.contains_key(k) ==> x.turn_models.contains_pair(k, r.turn_models[k])
            &&& !r.turn_models.contains_key(k) ==> (x.turn_models.contains_key(k)
                <==> prior.turn_models.contains_key(k))
            &&& !r.turn_models.contains_key(k) && prior.turn_models.contains_key(k)
                ==> x.turn_models[k] == prior.turn_models[k]
            &&& r.turn_cwd.contains_key(k) ==> x.turn_cwd.contains_pair(k, r.turn_cwd[k])
            &&& !r.turn_cwd.contains_key(k) ==> (x.turn_cwd.contains_key(k)
                <==> prior.turn_cwd.contains_key(k))
            &&& !r.turn_cwd.contains_key(k) && prior.turn_cwd.contains_key(k) ==> x.turn_cwd[k]
                == prior.turn_cwd[k]
            &&& x.root_models.contains_key(k) <==> prior.root_models.contains_key(k)
                || r.root_models.contains_key(k)
            &&& prior.root_models.contains_key(k) && r.root_models.contains_key(k) ==> (
            x.root_models[k] == prior.root_models[k] && x.root_models[k] == r.root_models[k]) || (
            x.root_models[k] == RootModelView::Ambiguous && prior.root_models[k]
                != r.root_models[k])
            &&& prior.root_models.contains_key(k) && !r.root_models.contains_key(k)
                ==> x.root_models[k] == prior.root_models[k]
            &&& !prior.root_models.contains_key(k) && r.root_models.contains_key(k)
                ==> x.root_models[k] == r.root_models[k]
        }),
{
}

/// A file covers the session of its header and those of its usage records, and no others.
pub proof fn law_covered_sessions(
    header: Option<Seq<char>>,
    events: Seq<EventView>,
    s: Seq<char>,
)
    ensures
        covered_sessions(header, events).contains(s) <==> header == Some(s) || exists|j: int|
            0 <= j < events.len() && (#[trigger] events[j]).source_format
                == SourceFormat::TokenUsageRecord && events[j].session_id == Some(s),
        covered_sessions(header, events).no_duplicates(),
    decreases events.len(),
{
    let all = covered_sessions(header, events);
    if events.len() == 0 {
        if header is Some {
            assert(all[0] == header->0);
        }
    } else {
        let init = events.drop_last();
        let e = events.last();
        law_covered_sessions(header, init, s);
        let before = covered_sessions(header, init);
        assert(events[events.len() - 1] == e);
        assert forall|j: int| 0 <= j < init.len() implies init[j] == #[trigger] events[j] by {}
        if exists|j: int|
            0 <= j < init.len() && (#[trigger] init[j]).source_format
                == SourceFormat::TokenUsageRecord && init[j].session_id == Some(s) {
            let j = choose|j: int|
                0 <= j < init.len() && (#[trigger] init[j]).source_format
                    == SourceFormat::TokenUsageRecord && init[j].session_id == Some(s);
            assert(events[j].session_id == Some(s));
        }
        if all != before {
            assert(all == before.push(e.session_id->0));
            assert(all[before.len() as int] == e.session_id->0);
            if before.contains(s) {
                let k = choose|k: int| 0 <= k < before.len() && before[k] == s;
                assert(all[k] == s);
            }
            if all.contains(s) && s != e.session_id->0 {
                let k = choose|k: int| 0 <= k < all.len() && all[k] == s;
                assert(before[k] == s);
            }
        }
    }
}

/// Covering one more session marks it and drops the legacy calls of that session, with their prices;
/// it changes nothing else, and the calls that are dropped are counted.
pub proof fn law_covering_a_session_drops_its_legacy_calls(
    p: Progress,
    sessions: Seq<Seq<char>>,
    s: Seq<char>,
    u: Seq<char>,
)
    ensures
        ({
            let (a, b) = (with_covered(p, sessions), with_covered(p, sessions.push(s)));
            let legacy = |c: CallView|
                c.source_format == SourceFormat::LegacyTokenCount && c.session_id == Some(s);
            &&& with_covered(p, Seq::<Seq<char>>::empty()) == p
            &&& b.store.primary_sessions == a.store.primary_sessions.insert(s)
            &&& b.store.calls.contains_key(u) <==> a.store.calls.contains_key(u) && !legacy(
                a.store.calls[u],
            )
            &&& b.store.calls.contains_key(u) ==> b.store.calls[u] == a.store.calls[u]
            &&& b.store.pricing.contains_key(u) <==> a.store.pricing.contains_key(u) && !(
            a.store.calls.contains_key(u) && legacy(a.store.calls[u]))
            &&& b.store.pricing.contains_key(u) ==> b.store.pricing[u] == a.store.pricing[u]
            &&& b.store.thread_settings == a.store.thread_settings
            &&& b.store.checkpoints == a.store.checkpoints
            &&& b.store.meta == a.store.meta
            &&& b.store.threads == a.store.threads
            &&& b.store.import_errors == a.store.import_errors
            &&& b.report.legacy_pruned == a.report.legacy_pruned.wrapping_add(
                count_where(a.store.calls, legacy) as u64,
            )
            &&& b.report == (crate::import::ImportReport {
                legacy_pruned: b.report.legacy_pruned,
                ..a.report
            })
        }),
{
    assert(sessions.push(s).drop_last() =~= sessions);
    let legacy = |c: CallView|
        c.source_format == SourceFormat::LegacyTokenCount && c.session_id == Some(s);
    assert(crate::import::legacy_of(s) =~= legacy);
}

/// Settings are noted one by one, in their order; nothing else of the store changes.
pub proof fn law_settings_are_noted(s: StoreView, settings: Seq<TierSettingView>, t: TierSettingView)
    ensures
        ({
            let (a, b) = (with_settings(s, settings), with_settings(s, settings.push(t)));
            &&& with_settings(s, Seq::<TierSettingView>::empty()) == s
            &&& b.thread_settings == with_setting(
                a.thread_settings,
                t.thread_id,
                t.service_tier,
                t.applied_ts,
            )
            &&& b == (StoreView { thread_settings: b.thread_settings, ..a })
        }),
{
    assert(settings.push(t).drop_last() =~= settings);
}

/// A call whose tier is known keeps it. One whose tier is not known takes the noted tier of its own
/// thread, unless that was applied later than the call; nothing else of the call changes.
pub proof fn law_noted_tier_fills_in(
    c: CallView,
    settings: Map<Seq<char>, (Seq<char>, Seq<char>)>,
)
    ensures
        ({
            let d = with_known_tier(c, settings);
            let noted = c.thread_id is Some && settings.contains_key(c.thread_id->0);
            let (tier, time) = settings[c.thread_id->0];
            let timely = c.timestamp_utc is None || text_le(time, c.timestamp_utc->0);
            &&& c.service_tier != ServiceTier::Unknown ==> d == c
            &&& !noted || !timely ==> d == c
            &&& c.service_tier == ServiceTier::Unknown && noted && timely ==> d.service_tier
                == ServiceTier::of_text(tier)
            &&& d == (CallView { service_tier: d.service_tier, ..c })
        }),
{
}

/// The tier that a text names.
pub proof fn law_tier_of_a_text(t: Seq<char>)
    ensures
        ServiceTier::of_text(t) == ServiceTier::Fast <==> t == "fast"@,
        ServiceTier::of_text(t) == ServiceTier::Standard <==> t == "standard"@ || t == "default"@
            || t == "priority"@ || t == "flex"@,
{
    reveal_strlit("fast");
    reveal_strlit("standard");
    reveal_strlit("default");
    reveal_strlit("priority");
    reveal_strlit("flex");
    assert("fast"@[1] != "flex"@[1]);
    assert("fast"@.len() == 4 && "standard"@.len() == 8 && "default"@.len() == 7
        && "priority"@.len() == 8);
}

/// The call of an event is that event: its usage, ids, time, format and line, with the file that it
/// was read from.
pub proof fn law_imported_call_is_its_event(s: StoreView, x: FileContext, e: EventView)
    ensures
        ({
            let c = event_call(s, x, e);
            &&& c.usage == e.usage
            &&& c.response_id == e.response_id
            &&& c.timestamp_utc == e.timestamp_utc
            &&& c.thread_id == e.thread_id
            &&& c.turn_id == e.turn_id
            &&& c.root_turn_id == e.root_turn_id
            &&& c.source_format == e.source_format
            &&& c.source_ordinal == e.source_ordinal
            &&& c.source_file == x.rel
            &&& c.archived == x.archived
            &&& e.session_id is Some ==> c.session_id == e.session_id
            &&& e.session_id is None ==> c.session_id == x.enrichment.meta.session_id
            &&& c.model_slug == crate::parser::model_of(
                e,
                x.enrichment.turn_models,
                x.enrichment.root_models,
            ).0
            &&& crate::parser::tier_of(e, x.settings) != ServiceTier::Unknown ==> c.service_tier
                == crate::parser::tier_of(e, x.settings)
        }),
{
}

/// Every usage record counts; a legacy event counts if and only if its file has no usage records and
/// its session, its own or else that of the file, is not marked.
pub proof fn law_which_events_are_imported(s: StoreView, x: FileContext, e: EventView)
    ensures
        e.source_format == SourceFormat::TokenUsageRecord ==> is_counted(s, x, e),
        e.source_format == SourceFormat::LegacyTokenCount ==> ({
            let session = if e.session_id is Some {
                e.session_id
            } else {
                x.enrichment.meta.session_id
            };
            is_counted(s, x, e) <==> !x.primary && (session is None || !s.primary_sessions.contains(
                session->0,
            ))
        }),
{
}

/// A new call is inserted, and priced where its model is known; a known one is a duplicate. Nothing
/// else of the store changes, and each counts once.
pub proof fn law_call_is_inserted_or_ignored(p: Progress, x: FileContext, c: CallView)
    ensures
        ({
            let q = call_step(p, x, c);
            let known = p.store.calls.contains_key(c.event_uid) || (c.response_id is Some
                && exists|u: Seq<char>| #[trigger]
                p.store.calls.contains_key(u) && p.store.calls[u].response_id == c.response_id);
            let repaired = p.store.calls.contains_key(c.event_uid)
                && p.store.calls[c.event_uid].service_tier == ServiceTier::Unknown
                && c.service_tier != ServiceTier::Unknown;
            &&& q.store.calls == with_call(p.store.calls, c)
            &&& !known ==> q.report.calls_inserted == p.report.calls_inserted.wrapping_add(1)
                && q.report.duplicates_ignored == p.report.duplicates_ignored
            &&& known ==> q.report.calls_inserted == p.report.calls_inserted
                && q.report.duplicates_ignored == p.report.duplicates_ignored.wrapping_add(1)
            &&& repaired ==> q.report.tiers_repaired == p.report.tiers_repaired.wrapping_add(1)
            &&& !repaired ==> q.report.tiers_repaired == p.report.tiers_repaired
            &&& !known && cost_of(x.rules, c).model_known ==> q.store.pricing.contains_key(
                c.event_uid,
            ) && q.store.pricing[c.event_uid].catalog_version == x.version
                && q.store.pricing[c.event_uid].cost == cost_of(x.rules, c)
            &&& known || !cost_of(x.rules, c).model_known ==> q.store.pricing == p.store.pricing
            &&& q.store == (StoreView {
                calls: q.store.calls,
                pricing: q.store.pricing,
                ..p.store
            })
            &&& q.report == (crate::import::ImportReport {
                calls_inserted: q.report.calls_inserted,
                duplicates_ignored: q.report.duplicates_ignored,
                tiers_repaired: q.report.tiers_repaired,
                ..p.report
            })
        }),
{
    if c.response_id is Some {
        assert(crate::call_table::is_taken(p.store.calls, c.response_id->0) <==> exists|
            u: Seq<char>,
        | #[trigger]
            p.store.calls.contains_key(u) && p.store.calls[u].response_id == c.response_id);
    }
}

/// One more event is told to the store if and only if it counts.
pub proof fn law_events_are_told_in_order(
    p: Progress,
    x: FileContext,
    events: Seq<EventView>,
    e: EventView,
)
    ensures
        ({
            let (a, b) = (with_events(p, x, events), with_events(p, x, events.push(e)));
            &&& with_events(p, x, Seq::<EventView>::empty()) == p
            &&& is_counted(a.store, x, e) ==> b == call_step(a, x, event_call(a.store, x, e))
            &&& !is_counted(a.store, x, e) ==> b == a
        }),
{
    assert(events.push(e).drop_last() =~= events);
}

/// An event keeps all but its session, which the lines before tell where a legacy event has none.
pub proof fn law_adopted_events_keep_themselves(
    events: Seq<EventView>,
    session: Option<Seq<char>>,
    i: int,
)
    requires
        0 <= i < events.len(),
    ensures
        ({
            let (e, a) = (events[i], adopted_all(events, session)[i]);
            &&& adopted_all(events, session).len() == events.len()
            &&& a == (EventView { session_id: a.session_id, ..e })
            &&& e.session_id is Some || e.source_format == SourceFormat::TokenUsageRecord
                ==> a.session_id == e.session_id
            &&& e.session_id is None && e.source_format == SourceFormat::LegacyTokenCount
                ==> a.session_id == session
        }),
{
}

/// The first messages of a file are kept in their order, twenty at most, each with the file.
pub proof fn law_first_messages_are_kept(rel: Seq<char>, errors: Seq<Seq<char>>, i: int)
    ensures
        errors.len() <= 20 ==> first_errors(rel, errors).len() == errors.len(),
        errors.len() > 20 ==> first_errors(rel, errors).len() == 20,
        0 <= i < errors.len() && i < 20 ==> first_errors(rel, errors)[i] == (rel, errors[i]),
{
}

/// Once a file is imported, its checkpoint has the size and the time of the file and says how far
/// its lines were read, and nothing is said of any other file; the messages of the file stand behind
/// the earlier ones; and the file counts as changed, with the bytes that were read.
pub proof fn law_import_leaves_a_checkpoint(p: Progress, i: FileInput, other: Seq<char>)
    requires
        p.report.files_changed < usize::MAX,
    ensures
        ({
            let q = with_changed_file(p, i);
            let c = q.store.checkpoints[i.rel];
            let start = start_of(p.store.checkpoints, i.rel, i.file.size, i.force_full);
            let r = crate::import::file_reading(p.store, i);
            &&& q.store.checkpoints.contains_key(i.rel)
            &&& c.archived == i.file.archived
            &&& c.size == i.file.size
            &&& c.mtime_unix == i.file.mtime_unix
            &&& c.last_complete_offset == r.end_offset as u64
            &&& c.lines_total == (start.lines + r.result.counters.lines_total) as u64
            &&& c.had_primary <==> start.had_primary || r.result.primary_events > 0
            &&& c.pending_newline == r.pending_newline
            &&& c.enrichment == enriched(start.enrichment, r.result)
            &&& other != i.rel ==> (q.store.checkpoints.contains_key(other)
                <==> p.store.checkpoints.contains_key(other))
            &&& other != i.rel && p.store.checkpoints.contains_key(other)
                ==> q.store.checkpoints[other] == p.store.checkpoints[other]
            &&& q.store.import_errors == p.store.import_errors + first_errors(
                i.rel,
                r.result.errors,
            )
            &&& q.store.meta == p.store.meta
            &&& q.store.threads == p.store.threads
            &&& q.report.files_changed == p.report.files_changed + 1
            &&& q.report.files_skipped == p.report.files_skipped
            &&& q.report.bytes_read == p.report.bytes_read.wrapping_add(
                (r.end_offset - start.offset) as u64,
            )
            &&& q.report.parse_errors == p.report.parse_errors.wrapping_add(
                r.result.errors.len() as u64,
            )
        }),
{
    let x = crate::import::file_context(p.store, i);
    let events = crate::import::file_events(p.store, i);
    let sessions = covered_sessions(x.enrichment.meta.session_id, events);
    let s = crate::import::settled(p, i);
    lemma_covering_keeps(p, sessions);
    let covered = if x.primary {
        with_covered(p, sessions)
    } else {
        p
    };
    lemma_settings_keep(covered.store, x.settings);
    lemma_events_keep(s, x, events);
}

proof fn lemma_covering_keeps(p: Progress, sessions: Seq<Seq<char>>)
    ensures
        ({
            let q = with_covered(p, sessions);
            &&& q.store.checkpoints == p.store.checkpoints
            &&& q.store.import_errors == p.store.import_errors
            &&& q.store.meta == p.store.meta
            &&& q.store.threads == p.store.threads
            &&& q.report.files_changed == p.report.files_changed
            &&& q.report.files_skipped == p.report.files_skipped
            &&& q.report.bytes_read == p.report.bytes_read
            &&& q.report.parse_errors == p.report.parse_errors
        }),
    decreases sessions.len(),
{
    if sessions.len() > 0 {
        lemma_covering_keeps(p, sessions.drop_last());
    }
}

proof fn lemma_settings_keep(s: StoreView, settings: Seq<TierSettingView>)
    ensures
        ({
            let t = with_settings(s, settings);
            &&& t.checkpoints == s.checkpoints
            &&& t.import_errors == s.import_errors
            &&& t.meta == s.meta
            &&& t.threads == s.threads
        }),
    decreases settings.len(),
{
    if settings.len() > 0 {
        lemma_settings_keep(s, settings.drop_last());
    }
}

proof fn lemma_events_keep(p: Progress, x: FileContext, events: Seq<EventView>)
    ensures
        ({
            let q = with_events(p, x, events);
            &&& q.store.checkpoints == p.store.checkpoints
            &&& q.store.import_errors == p.store.import_errors
            &&& q.store.meta == p.store.meta
            &&& q.store.threads == p.store.threads
            &&& q.report.files_changed == p.report.files_changed
            &&& q.report.files_skipped == p.report.files_skipped
            &&& q.report.bytes_read == p.report.bytes_read
            &&& q.report.parse_errors == p.report.parse_errors
        }),
    decreases events.len(),
{
    if events.len() > 0 {
        lemma_events_keep(p, x, events.drop_last());
    }
}

/// A full import starts without calls, prices and marked sessions, but with all that is otherwise
/// known; any other starts with what the store agrees on. The report starts with the number of the
/// files.
pub proof fn law_full_import_starts_without_calls(s: StoreView, files: nat)
    requires
        files <= usize::MAX,
    ensures
        ({
            let (a, b) = (prepared(s, files, true), prepared(s, files, false));
            &&& a.store.calls == Map::<Seq<char>, CallView>::empty()
            &&& a.store.pricing.dom() == Set::<Seq<char>>::empty()
            &&& a.store.primary_sessions == Set::<Seq<char>>::empty()
            &&& a.store.thread_settings == s.thread_settings
            &&& a.store.meta == s.meta
            &&& a.store.threads == s.threads
            &&& a.store.import_errors == s.import_errors
            &&& b.store == crate::store::backfilled(s)
            &&& a.report.files_seen == files && b.report.files_seen == files
            &&& a.report.calls_inserted == 0 && b.report.calls_inserted == 0
            &&& a.report.files_changed == 0 && b.report.files_changed == 0
            &&& a.report.files_skipped == 0 && b.report.files_skipped == 0
            &&& !a.report.repriced && !b.report.repriced
        }),
{
}

/// What the prices depend on tells both versions apart.
pub proof fn law_fingerprint_tells_the_versions(a: Seq<char>, b: Seq<char>, v: Seq<char>)
    ensures
        fingerprint_of(a, v) == fingerprint_of(b, v) ==> a == b,
        fingerprint_of(v, a) == fingerprint_of(v, b) ==> a == b,
{
    let n = "codex:"@.len() as int;
    let m = "|api:"@.len() as int;
    if fingerprint_of(a, v) == fingerprint_of(b, v) {
        assert(fingerprint_of(a, v).len() == n + a.len() + m + v.len());
        assert(fingerprint_of(b, v).len() == n + b.len() + m + v.len());
        assert(fingerprint_of(a, v).subrange(n, n + a.len()) =~= a);
        assert(fingerprint_of(b, v).subrange(n, n + b.len()) =~= b);
    }
    if fingerprint_of(v, a) == fingerprint_of(v, b) {
        assert(fingerprint_of(v, a).skip(n + v.len() + m) =~= a);
        assert(fingerprint_of(v, b).skip(n + v.len() + m) =~= b);
    }
}

/// All calls are priced anew if and only if that is asked for, a tier was filled in, or the stored
/// fingerprint is not that of the catalogues; the new prices are those of all calls, and the
/// fingerprint is stored with them. Otherwise nothing changes.
pub proof fn law_prices_are_renewed_where_needed(
    p: Progress,
    fingerprint: Seq<char>,
    rules: Seq<RuleView>,
    version: Seq<char>,
    asked: bool,
)
    ensures
        ({
            let q = with_prices(p, fingerprint, rules, version, asked);
            let needed = asked || p.report.tiers_repaired != 0
                || !p.store.meta.contains_pair("pricing_fingerprint"@, fingerprint);
            &&& needs_prices(p, fingerprint, asked) <==> needed
            &&& !needed ==> q == p
            &&& needed ==> {
                &&& q.store.pricing == all_prices(p.store.calls, rules, version)
                &&& q.store.meta == p.store.meta.insert("pricing_fingerprint"@, fingerprint)
                &&& q.store == (StoreView {
                    pricing: q.store.pricing,
                    meta: q.store.meta,
                    ..p.store
                })
                &&& q.report.repriced
                &&& q.report.priced_calls == count_where(
                    p.store.calls,
                    |c: CallView| cost_of(rules, c).model_known,
                ) as u64
                &&& q.report == (crate::import::ImportReport {
                    repriced: true,
                    priced_calls: q.report.priced_calls,
                    ..p.report
                })
            }
        }),
{
    assert(crate::store::is_priceable(rules) =~= (|c: CallView| cost_of(rules, c).model_known));
}

/// Threads that are at hand are told to the calls and counted; without them nothing changes.
pub proof fn law_threads_are_told_where_known(p: Progress, threads: Seq<ThreadView>)
    requires
        threads.len() <= usize::MAX,
    ensures
        with_state(p, None) == p,
        with_state(p, Some(threads)).store == crate::state::enriched_store(p.store, threads),
        with_state(p, Some(threads)).report.threads_enriched == threads.len(),
        with_state(p, Some(threads)).report == (crate::import::ImportReport {
            threads_enriched: with_state(p, Some(threads)).report.threads_enriched,
            calls_enriched: with_state(p, Some(threads)).report.calls_enriched,
            ..p.report
        }),
{
}

/// A file is passed over, and only counted, if and only if it is unchanged and no full import is
/// asked for; any other is read.
pub proof fn law_only_unchanged_files_are_passed_over(
    p: Progress,
    home: Seq<char>,
    f: FileView,
    content: FileContentView,
    rules: Seq<RuleView>,
    version: Seq<char>,
    full: bool,
)
    requires
        p.report.files_skipped < usize::MAX,
        p.report.files_changed < usize::MAX,
    ensures
        ({
            let q = with_file(p, home, f, content, rules, version, full);
            let rel = crate::discovery::relative_to(f.path, home);
            let passed = !full && p.store.checkpoints.contains_key(rel)
                && p.store.checkpoints[rel].size == f.size && p.store.checkpoints[rel].mtime_unix
                == f.mtime_unix;
            &&& passed ==> q.store == p.store && q.report.files_skipped == p.report.files_skipped
                + 1 && q.report.files_changed == p.report.files_changed && q.report.calls_inserted
                == p.report.calls_inserted && q.report.bytes_read == p.report.bytes_read
            &&& !passed ==> q.report.files_changed == p.report.files_changed + 1
                && q.report.files_skipped == p.report.files_skipped
                && q.store.checkpoints.contains_key(rel) && q.store.checkpoints[rel].size == f.size
                && q.store.checkpoints[rel].mtime_unix == f.mtime_unix
        }),
{
    let rel = crate::discovery::relative_to(f.path, home);
    let i = FileInput { rel, file: f, content, rules, version, force_full: full };
    law_import_leaves_a_checkpoint(p, i, rel);
}

/// An imported call is made with what is known of its file: the models of its turns and roots, its
/// header and its directories.
pub proof fn law_imported_call_is_made_with_its_file(s: StoreView, x: FileContext, e: EventView)
    ensures
        ({
            let c = event_call(s, x, e);
            let k = x.enrichment;
            &&& (c.model_slug, c.model_confidence) == crate::parser::model_of(
                e,
                k.turn_models,
                k.root_models,
            )
            &&& k.meta.cwd is Some ==> c.project_path == k.meta.cwd
            &&& k.meta.cwd is None && e.turn_id is Some && k.turn_cwd.contains_key(e.turn_id->0)
                ==> c.project_path == Some(k.turn_cwd[e.turn_id->0])
            &&& k.meta.cwd is None && !(e.turn_id is Some && k.turn_cwd.contains_key(e.turn_id->0))
                ==> c.project_path is None
            &&& c.activity is None && c.thread_title is None && c.parent_thread_id is None
        }),
{
}

/// What is dropped before the files are read is counted: the legacy calls that usage records make
/// void.
pub proof fn law_void_calls_are_counted(s: StoreView, files: nat, full: bool)
    ensures
        prepared(s, files, full).report.legacy_pruned == count_where(
            s.calls,
            |c: CallView| crate::store_laws::is_void(s, c),
        ) as u64,
{
    let test = crate::store::superseded_in(crate::store::marked(s));
    let void = |c: CallView| crate::store_laws::is_void(s, c);
    assert forall|c: CallView| #[trigger] test(c) == void(c) by {
        if c.session_id is Some {
            assert(crate::store::has_record_session(s.calls, c.session_id->0)
                == crate::store_laws::records_tell_session(s, c.session_id->0));
        }
        assert(crate::store::has_record_file(s.calls, c.source_file)
            == crate::store_laws::records_tell_file(s, c.source_file));
    }
    assert(test =~= void);
}

/// A file without usage records covers no session: before its events are told it drops no call, and
/// it only notes its settings.
pub proof fn law_files_without_records_drop_nothing(p: Progress, i: FileInput)
    requires
        !crate::import::file_start(p.store, i).had_primary,
        crate::import::file_reading(p.store, i).result.primary_events == 0,
    ensures
        ({
            let q = crate::import::settled(p, i);
            &&& q.report == p.report
            &&& q.store == with_settings(
                p.store,
                crate::import::file_reading(p.store, i).result.thread_settings,
            )
        }),
{
}

/// Only where reading goes on from a checkpoint do events take the session of the lines before.
pub proof fn law_events_of_a_file(p: Progress, i: FileInput)
    ensures
        ({
            let start = crate::import::file_start(p.store, i);
            let raw = crate::import::file_reading(p.store, i).result.raw_calls;
            let events = crate::import::file_events(p.store, i);
            &&& events.len() == raw.len()
            &&& start.offset > 0 ==> events == adopted_all(raw, start.enrichment.meta.session_id)
            &&& start.offset == 0 ==> forall|k: int|
                0 <= k < raw.len() ==> #[trigger] events[k] == raw[k]
        }),
{
}

/// The files are told to the store one by one, in their order.
pub proof fn law_files_are_told_in_order(
    p: Progress,
    home: Seq<char>,
    files: Seq<FileView>,
    contents: Seq<FileContentView>,
    f: FileView,
    content: FileContentView,
    rules: Seq<RuleView>,
    version: Seq<char>,
    full: bool,
)
    ensures
        crate::import::with_files(
            p,
            home,
            Seq::<FileView>::empty(),
            Seq::<FileContentView>::empty(),
            rules,
            version,
            full,
        ) == p,
        crate::import::with_files(
            p,
            home,
            files.push(f),
            contents.push(content),
            rules,
            version,
            full,
        ) == with_file(
            crate::import::with_files(p, home, files, contents, rules, version, full),
            home,
            f,
            content,
            rules,
            version,
            full,
        ),
{
    assert(files.push(f).drop_last() =~= files);
    assert(contents.push(content).drop_last() =~= contents);
}

/// An import without files and threads, with prices that are up to date, only makes the store agree
/// with itself.
pub proof fn law_import_of_nothing_changes_nothing(
    s: StoreView,
    home: Seq<char>,
    engine: crate::pricing::PricingEngine,
)
    requires
        s.meta.contains_pair(
            "pricing_fingerprint"@,
            fingerprint_of(engine.codex.version@, engine.api.version@),
        ),
    ensures
        crate::import::imported(
            s,
            home,
            Seq::empty(),
            Seq::empty(),
            None,
            engine,
            false,
            false,
        ).store == crate::store::backfilled(s),
{
}

} // verus!
