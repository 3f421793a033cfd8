//! What a store takes in, drops and hands out.

use vstd::prelude::*;

use crate::model::day_of;
use crate::model::CallView;
use crate::model::ServiceTier;
use crate::model::SourceFormat;
use crate::pricing::cost_of;
use crate::pricing::RuleView;
use crate::scan::in_period;
use crate::store::all_prices;
use crate::store::backfilled;
use crate::store::call_lt;
use crate::store::calls_in_period;
use crate::store::with_call;
use crate::store::with_setting;
use crate::store::StoreView;
use crate::text::text_le;
use crate::text::text_lt;

verus! {

/// Texts are ordered by their first difference, and a text stands before any longer one that starts
/// with it.
pub proof fn law_texts_differ_at_their_first_difference(
    start: Seq<char>,
    a: Seq<char>,
    b: Seq<char>,
)
    ensures
        a.len() > 0 && b.len() > 0 && (a[0] as int) < (b[0] as int) ==> text_lt(
            start + a,
            start + b,
        ),
        b.len() > 0 ==> text_lt(start, start + b),
        text_le(start, start),
    decreases start.len(),
{
    crate::text::lemma_text_lt_irreflexive(start);
    if start.len() == 0 {
        assert(start + a =~= a);
        assert(start + b =~= b);
    } else {
        let rest = start.drop_first();
        law_texts_differ_at_their_first_difference(rest, a, b);
        assert((start + a).drop_first() =~= rest + a);
        assert((start + b).drop_first() =~= rest + b);
    }
}

/// A call of a new identity, whose response id no stored call has, is stored as it is; no other call
/// changes.
pub proof fn law_new_call_is_stored(
    calls: Map<Seq<char>, CallView>,
    c: CallView,
    other: Seq<char>,
)
    requires
        !calls.contains_key(c.event_uid),
        c.response_id is Some ==> forall|u: Seq<char>| #[trigger]
            calls.contains_key(u) ==> calls[u].response_id != c.response_id,
    ensures
        with_call(calls, c).contains_pair(c.event_uid, c),
        other != c.event_uid ==> (with_call(calls, c).contains_key(other) <==> calls.contains_key(
            other,
        )),
        other != c.event_uid && calls.contains_key(other) ==> with_call(calls, c)[other]
            == calls[other],
{
}

/// A call that is there already, by its identity or by its response id, is not stored again. Of the
/// one with its identity only a tier that was unknown is filled in; all other calls stay as they
/// are.
pub proof fn law_known_call_only_gains_a_tier(
    calls: Map<Seq<char>, CallView>,
    c: CallView,
    other: Seq<char>,
)
    requires
        calls.contains_key(c.event_uid) || c.response_id is Some && exists|u: Seq<char>| #[trigger]
            calls.contains_key(u) && calls[u].response_id == c.response_id,
    ensures
        with_call(calls, c).contains_key(other) <==> calls.contains_key(other),
        other != c.event_uid && calls.contains_key(other) ==> with_call(calls, c)[other]
            == calls[other],
        calls.contains_key(c.event_uid) ==> ({
            let (a, b) = (calls[c.event_uid], with_call(calls, c)[c.event_uid]);
            &&& a.service_tier != ServiceTier::Unknown ==> b == a
            &&& a.service_tier == ServiceTier::Unknown ==> b.service_tier == c.service_tier
            &&& b == CallView { service_tier: b.service_tier, ..a }
        }),
{
    if !calls.contains_key(c.event_uid) {
        let u = choose|u: Seq<char>| #[trigger]
            calls.contains_key(u) && calls[u].response_id == c.response_id;
        assert(calls.contains_key(u) && calls[u].response_id == Some(c.response_id->0));
    }
}

/// The last setting of a thread prevails: one that was applied earlier changes nothing, one that
/// was not takes its place, and no other thread is touched.
pub proof fn law_latest_setting_prevails(
    settings: Map<Seq<char>, (Seq<char>, Seq<char>)>,
    thread: Seq<char>,
    tier: Seq<char>,
    time: Seq<char>,
    other: Seq<char>,
)
    ensures
        ({
            let b = with_setting(settings, thread, tier, time);
            let earlier = settings.contains_key(thread) && text_lt(time, settings[thread].1);
            &&& b.contains_key(thread)
            &&& earlier ==> b[thread] == settings[thread]
            &&& !earlier ==> b[thread].0 == tier && b[thread].1 == time
            &&& other != thread ==> (b.contains_key(other) <==> settings.contains_key(other))
            &&& other != thread && settings.contains_key(other) ==> b[other] == settings[other]
        }),
{
}

/// Some stored usage record has this session.
pub open spec fn records_tell_session(s: StoreView, session: Seq<char>) -> bool {
    session.len() > 0 && exists|u: Seq<char>| #[trigger]
        s.calls.contains_key(u) && s.calls[u].source_format == SourceFormat::TokenUsageRecord
            && s.calls[u].session_id == Some(session)
}

/// Some stored usage record comes from this file.
pub open spec fn records_tell_file(s: StoreView, path: Seq<char>) -> bool {
    path.len() > 0 && exists|u: Seq<char>| #[trigger]
        s.calls.contains_key(u) && s.calls[u].source_format == SourceFormat::TokenUsageRecord
            && s.calls[u].source_file == path
}

/// A legacy call that usage records make void: its session is marked or one of a stored record, or
/// its file, which has a checkpoint, is marked or that of a stored record.
pub open spec fn is_void(s: StoreView, c: CallView) -> bool {
    &&& c.source_format == SourceFormat::LegacyTokenCount
    &&& {
        ||| c.session_id is Some && (s.primary_sessions.contains(c.session_id->0)
            || records_tell_session(s, c.session_id->0))
        ||| s.checkpoints.contains_key(c.source_file) && (s.checkpoints[c.source_file].had_primary
            || records_tell_file(s, c.source_file))
    }
}

/// Making a store agree with its own usage records drops the legacy calls that these make void, with
/// their prices, and nothing else; what is kept stays as it is. Sessions of records are marked, as
/// are the checkpoints of their files.
pub proof fn law_backfilling_drops_void_calls(s: StoreView, u: Seq<char>)
    ensures
        ({
            let b = backfilled(s);
            &&& b.calls.contains_key(u) <==> s.calls.contains_key(u) && !is_void(s, s.calls[u])
            &&& b.calls.contains_key(u) ==> b.calls[u] == s.calls[u]
            &&& b.pricing.contains_key(u) <==> s.pricing.contains_key(u) && !(s.calls.contains_key(
                u,
            ) && is_void(s, s.calls[u]))
            &&& b.pricing.contains_key(u) ==> b.pricing[u] == s.pricing[u]
            &&& b.primary_sessions.contains(u) <==> s.primary_sessions.contains(u)
                || records_tell_session(s, u)
            &&& b.checkpoints.contains_key(u) <==> s.checkpoints.contains_key(u)
            &&& s.checkpoints.contains_key(u) ==> (b.checkpoints[u].had_primary
                <==> s.checkpoints[u].had_primary || records_tell_file(s, u))
            &&& s.checkpoints.contains_key(u) ==> b.checkpoints[u]
                == (crate::store::CheckpointView {
                had_primary: b.checkpoints[u].had_primary,
                ..s.checkpoints[u]
            })
            &&& b.thread_settings == s.thread_settings
            &&& b.meta == s.meta
            &&& b.threads == s.threads
            &&& b.import_errors == s.import_errors
        }),
{
    if s.calls.contains_key(u) {
        let c = s.calls[u];
        if c.session_id is Some {
            assert(crate::store::has_record_session(s.calls, c.session_id->0)
                == records_tell_session(s, c.session_id->0));
        }
        assert(crate::store::has_record_file(s.calls, c.source_file) == records_tell_file(
            s,
            c.source_file,
        ));
    }
    assert(crate::store::has_record_session(s.calls, u) == records_tell_session(s, u));
    assert(crate::store::has_record_file(s.calls, u) == records_tell_file(s, u));
}

/// The calls with a price are those whose model a rule knows, each under the given version.
pub proof fn law_known_models_are_priced(
    calls: Map<Seq<char>, CallView>,
    rules: Seq<RuleView>,
    version: Seq<char>,
    u: Seq<char>,
)
    ensures
        ({
            let p = all_prices(calls, rules, version);
            &&& p.contains_key(u) <==> calls.contains_key(u) && cost_of(rules, calls[u]).model_known
            &&& p.contains_key(u) ==> p[u].catalog_version == version && p[u].cost == cost_of(
                rules,
                calls[u],
            )
        }),
{
}

/// A call lies in a period where its day is no earlier than the first and no later than the last; a
/// bound that is not given bounds nothing.
pub proof fn law_period_bounds_the_day(c: CallView, from: Seq<char>, to: Seq<char>)
    ensures
        ({
            let day = day_of(c.timestamp_utc);
            &&& in_period(c, None, None)
            &&& in_period(c, Some(from), None) <==> !text_lt(day, from)
            &&& in_period(c, None, Some(to)) <==> !text_lt(to, day)
            &&& in_period(c, Some(from), Some(to)) <==> !text_lt(day, from) && !text_lt(to, day)
            &&& in_period(c, Some(day), Some(day))
        }),
{
    crate::text::lemma_text_lt_irreflexive(day_of(c.timestamp_utc));
}

/// One more row adds its call to those of a period if and only if the call lies in it.
pub proof fn law_calls_of_a_period(
    rows: Seq<(Seq<char>, CallView)>,
    u: Seq<char>,
    c: CallView,
    from: Option<Seq<char>>,
    to: Option<Seq<char>>,
)
    ensures
        ({
            let day = day_of(c.timestamp_utc);
            let within = (from is None || text_le(from->0, day)) && (to is None || text_le(
                day,
                to->0,
            ));
            let (a, b) = (
                calls_in_period(rows, from, to),
                calls_in_period(rows.push((u, c)), from, to),
            );
            &&& within ==> b == a.push(c)
            &&& !within ==> b == a
        }),
{
    assert(rows.push((u, c)).drop_last() =~= rows);
}

/// Calls are ordered by their time, one without a time first; those of one time by their file, and
/// those of one file by their line.
pub proof fn law_calls_are_ordered_by_time_file_and_line(a: CallView, b: CallView)
    ensures
        a.timestamp_utc is None && b.timestamp_utc is Some ==> call_lt(a, b) && !call_lt(b, a),
        a.timestamp_utc is Some && b.timestamp_utc is Some && text_lt(
            a.timestamp_utc->0,
            b.timestamp_utc->0,
        ) ==> call_lt(a, b) && !call_lt(b, a),
        a.timestamp_utc == b.timestamp_utc && text_lt(a.source_file, b.source_file) ==> call_lt(a, b)
            && !call_lt(b, a),
        a.timestamp_utc == b.timestamp_utc && a.source_file == b.source_file ==> (call_lt(a, b)
            <==> a.source_ordinal < b.source_ordinal),
{
    crate::text::lemma_text_lt_irreflexive(a.source_file);
    if a.timestamp_utc is Some {
        crate::text::lemma_text_lt_irreflexive(a.timestamp_utc->0);
        if b.timestamp_utc is Some && text_lt(a.timestamp_utc->0, b.timestamp_utc->0) {
            if text_lt(b.timestamp_utc->0, a.timestamp_utc->0) {
                crate::text::lemma_text_lt_transitive(
                    a.timestamp_utc->0,
                    b.timestamp_utc->0,
                    a.timestamp_utc->0,
                );
            }
        }
    }
    if text_lt(a.source_file, b.source_file) && text_lt(b.source_file, a.source_file) {
        crate::text::lemma_text_lt_transitive(a.source_file, b.source_file, a.source_file);
    }
}

/// The calls of a period are those of the rows that lie in it, and no others.
pub proof fn law_period_holds_all_its_calls(
    rows: Seq<(Seq<char>, CallView)>,
    from: Option<Seq<char>>,
    to: Option<Seq<char>>,
    c: CallView,
)
    ensures
        calls_in_period(rows, from, to).contains(c) <==> in_period(c, from, to) && exists|i: int|
            0 <= i < rows.len() && (#[trigger] rows[i]).1 == c,
    decreases rows.len(),
{
    let all = calls_in_period(rows, from, to);
    if rows.len() > 0 {
        let init = rows.drop_last();
        law_period_holds_all_its_calls(init, from, to, c);
        let before = calls_in_period(init, from, to);
        assert forall|i: int| 0 <= i < init.len() implies init[i] == #[trigger] rows[i] by {}
        assert(rows[rows.len() - 1] == rows.last());
        if exists|i: int| 0 <= i < init.len() && (#[trigger] init[i]).1 == c {
            let i = choose|i: int| 0 <= i < init.len() && (#[trigger] init[i]).1 == c;
            assert(rows[i].1 == c);
        }
        if in_period(rows.last().1, from, to) {
            assert(all == before.push(rows.last().1));
            assert(all[before.len() as int] == rows.last().1);
            if before.contains(c) {
                let k = choose|k: int| 0 <= k < before.len() && before[k] == c;
                assert(all[k] == c);
            }
            if all.contains(c) && c != rows.last().1 {
                let k = choose|k: int| 0 <= k < all.len() && all[k] == c;
                assert(before[k] == c);
            }
        }
    }
}

/// The calls of rows are theirs, in their order.
pub proof fn law_calls_of_rows(rows: Seq<(Seq<char>, CallView)>, i: int)
    requires
        0 <= i < rows.len(),
    ensures
        crate::store::row_calls(rows).len() == rows.len(),
        crate::store::row_calls(rows)[i] == rows[i].1,
{
}

} // verus!
