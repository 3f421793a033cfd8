//! One file of an import: it brings the store from what was read of the file before to the file as
//! it stands.

use vstd::prelude::*;

use crate::agreement::counts_under;
use crate::agreement::lemma_covered_sessions;
use crate::agreement::lemma_covering;
use crate::agreement::lemma_legacy_without_id;
use crate::call_table::is_taken;
use crate::discovery::relative_to;
use crate::discovery::FileView;
use crate::growth::lemma_records_of_both;
use crate::import::covered_sessions;
use crate::import::event_call;
use crate::import::file_context;
use crate::import::file_events;
use crate::import::is_counted;
use crate::import::lemma_events_keep;
use crate::import::lemma_settings_keep;
use crate::import::lemma_settled_keeps;
use crate::import::settled;
use crate::import::with_changed_file;
use crate::import::with_covered;
use crate::import::with_events;
use crate::import::FileContext;
use crate::import::FileInput;
use crate::import::Progress;
use crate::import_laws::names_differ;
use crate::model::CallView;
use crate::model::EventView;
use crate::model::ResultView;
use crate::model::SourceFormat;
use crate::parser::first_of;
use crate::parser::reading;
use crate::parser::uid_of;
use crate::parser::FileContentView;
use crate::repeat::is_named;
use crate::scan::covers;
use crate::scan::has_record_of;
use crate::stages::headers_agree;
use crate::stages::is_grown;
use crate::stages::is_loose_in;
use crate::stages::is_noted;
use crate::stages::is_steady;
use crate::stages::lemma_context_session;
use crate::stages::lemma_file_input;
use crate::stages::lemma_grown;
use crate::stages::lemma_stage;
use crate::stages::only_records;
use crate::stages::told_by;
use crate::store::is_known;
use crate::store::with_call;
use crate::store::StoreView;

verus! {

/// The event number `j` of file number `k`, as the files stand.
pub open spec fn event_at(now: Seq<Seq<u8>>, k: int, j: int) -> EventView {
    told_by(now[k]).raw_calls[j]
}

/// There is an event number `j` of file number `k`.
pub open spec fn is_event_at(now: Seq<Seq<u8>>, k: int, j: int) -> bool {
    0 <= k < now.len() && 0 <= j < told_by(now[k]).raw_calls.len()
}

/// No event before this one, in its file or in a file before it, has its response id.
#[verifier::opaque]
pub open spec fn is_foremost(now: Seq<Seq<u8>>, k: int, j: int) -> bool {
    event_at(now, k, j).response_id is Some ==> forall|i: int, l: int|
        is_event_at(now, i, l) && (i < k || i == k && l < j) ==> (#[trigger] event_at(
            now,
            i,
            l,
        )).response_id != event_at(now, k, j).response_id
}

/// One event is foremost of those with a response id.
pub proof fn lemma_one_is_foremost(now: Seq<Seq<u8>>, k: int, j: int, m: int, l: int)
    requires
        is_event_at(now, k, j),
        is_event_at(now, m, l),
        is_foremost(now, k, j),
        is_foremost(now, m, l),
        event_at(now, k, j).response_id is Some,
        event_at(now, k, j).response_id == event_at(now, m, l).response_id,
    ensures
        k == m,
        j == l,
{
    reveal(is_foremost);
}

/// Some event is foremost of those with a response id.
pub proof fn lemma_foremost(now: Seq<Seq<u8>>, k: int, j: int) -> (r: (int, int))
    requires
        is_event_at(now, k, j),
        event_at(now, k, j).response_id is Some,
    ensures
        is_event_at(now, r.0, r.1),
        is_foremost(now, r.0, r.1),
        event_at(now, r.0, r.1).response_id == event_at(now, k, j).response_id,
        r.0 < k || r.0 == k && r.1 <= j,
    decreases k, j,
{
    reveal(is_foremost);
    if is_foremost(now, k, j) {
        (k, j)
    } else {
        let (i, l) = choose|i: int, l: int|
            is_event_at(now, i, l) && (i < k || i == k && l < j) && (#[trigger] event_at(
                now,
                i,
                l,
            )).response_id == event_at(now, k, j).response_id;
        lemma_foremost(now, i, l)
    }
}

/// A response id that has come goes on standing for what it stood for first.
#[verifier::opaque]
pub open spec fn ids_stay(now: Seq<Seq<u8>>, all: Seq<Seq<u8>>) -> bool {
    forall|k: int, j: int, m: int, l: int|
        #![trigger event_at(now, k, j), event_at(all, m, l)]
        is_event_at(now, k, j) && is_event_at(all, m, l) && is_foremost(now, k, j) && is_foremost(
            all,
            m,
            l,
        ) && event_at(now, k, j).response_id is Some && event_at(now, k, j).response_id == event_at(
            all,
            m,
            l,
        ).response_id ==> uid_of(event_at(now, k, j)) == uid_of(event_at(all, m, l))
}

pub proof fn lemma_ids_stay(now: Seq<Seq<u8>>, all: Seq<Seq<u8>>, k: int, j: int, m: int, l: int)
    requires
        ids_stay(now, all),
        is_event_at(now, k, j),
        is_event_at(all, m, l),
        is_foremost(now, k, j),
        is_foremost(all, m, l),
        event_at(now, k, j).response_id is Some,
        event_at(now, k, j).response_id == event_at(all, m, l).response_id,
    ensures
        uid_of(event_at(now, k, j)) == uid_of(event_at(all, m, l)),
{
    reveal(ids_stay);
}

/// What a response id stands for in two states of the files, it stands for in both, where it stays
/// so to the end.
pub proof fn lemma_ids_meet(
    a: Seq<Seq<u8>>,
    b: Seq<Seq<u8>>,
    all: Seq<Seq<u8>>,
    k: int,
    j: int,
    m: int,
    l: int,
)
    requires
        ids_stay(a, all),
        ids_stay(b, all),
        all_grown(b, all),
        are_steady(all),
        is_event_at(a, k, j),
        is_event_at(b, m, l),
        is_foremost(a, k, j),
        is_foremost(b, m, l),
        event_at(a, k, j).response_id is Some,
        event_at(a, k, j).response_id == event_at(b, m, l).response_id,
    ensures
        uid_of(event_at(a, k, j)) == uid_of(event_at(b, m, l)),
{
    assert(is_grown(b[m], all[m]) && is_steady(all[m]));
    lemma_stage(b[m], all[m]);
    assert(event_at(all, m, l) == event_at(b, m, l));
    let (x, y) = lemma_foremost(all, m, l);
    lemma_ids_stay(a, all, k, j, x, y);
    lemma_ids_stay(b, all, m, l, x, y);
}

/// Which of the events of a file from number `from` on are foremost.
pub open spec fn foremost_from(now: Seq<Seq<u8>>, k: int, from: int) -> spec_fn(int) -> bool {
    |t: int| is_foremost(now, k, from + t)
}

/// All events alike.
pub open spec fn any_event() -> spec_fn(int) -> bool {
    |t: int| true
}

/// Some event of the files has this identity, is foremost, and counts where these sessions are
/// covered.
#[verifier::opaque]
pub open spec fn has_counted(sessions: Set<Seq<char>>, now: Seq<Seq<u8>>, u: Seq<char>) -> bool {
    exists|k: int, j: int|
        is_event_at(now, k, j) && uid_of(#[trigger] event_at(now, k, j)) == u && is_foremost(
            now,
            k,
            j,
        ) && counts_under(sessions, told_by(now[k]), event_at(now, k, j))
}

/// A call is that of an event of the file that the call names.
#[verifier::opaque]
pub open spec fn has_source(
    c: CallView,
    home: Seq<char>,
    files: Seq<FileView>,
    now: Seq<Seq<u8>>,
) -> bool {
    exists|k: int, j: int|
        is_event_at(now, k, j) && relative_to(files[k].path, home) == c.source_file && is_call_at(
            c,
            #[trigger] event_at(now, k, j),
            told_by(now[k]).meta.session_id,
        )
}

/// A call is that of an event, as far as counting goes. A legacy call has the session of its event,
/// or that of the file where its event has none.
pub open spec fn is_call_at(c: CallView, e: EventView, session_id: Option<Seq<char>>) -> bool {
    &&& c.event_uid == uid_of(e)
    &&& c.response_id == e.response_id
    &&& c.source_format == e.source_format
    &&& c.usage == e.usage
    &&& c.source_format == SourceFormat::LegacyTokenCount ==> c.session_id == e.session_id
        || c.session_id == first_of(e.session_id, session_id)
}

/// Some file covers the session with usage records, as the files stand.
pub open spec fn is_covered_now(now: Seq<Seq<u8>>, session: Seq<char>) -> bool {
    exists|k: int| 0 <= k < now.len() && covers(#[trigger] told_by(now[k]), session)
}

/// A file whose headers do not agree names this session in one of them.
pub open spec fn is_loose(now: Seq<Seq<u8>>, session: Seq<char>) -> bool {
    exists|k: int| 0 <= k < now.len() && is_loose_in(#[trigger] now[k], session)
}

/// No file covers the session, and no headers name it which do not agree.
pub open spec fn is_free(all: Seq<Seq<u8>>, session: Seq<char>) -> bool {
    !is_covered_now(all, session) && !is_loose(all, session)
}

/// Two sessions count alike: they are the same, or neither is one that may be covered.
pub open spec fn count_alike(
    all: Seq<Seq<u8>>,
    a: Option<Seq<char>>,
    b: Option<Seq<char>>,
) -> bool {
    ||| a == b
    ||| (a is Some ==> is_free(all, a->0)) && (b is Some ==> is_free(all, b->0))
}

/// The session of an event, which is that of its file where it has none itself.
pub open spec fn session_at(all: Seq<Seq<u8>>, k: int, j: int) -> Option<Seq<char>> {
    first_of(event_at(all, k, j).session_id, told_by(all[k]).meta.session_id)
}

/// The store has taken in the files as they stand: each up to its checkpoint; the calls are those
/// of the events that count; and the marked sessions are those that the files cover, apart from
/// sessions that headers name which do not agree.
pub open spec fn is_up_to(
    s: StoreView,
    home: Seq<char>,
    files: Seq<FileView>,
    now: Seq<Seq<u8>>,
) -> bool {
    &&& files.len() == now.len()
    &&& forall|rel: Seq<char>| #[trigger]
        s.checkpoints.contains_key(rel) ==> is_named(files, home, rel)
    &&& forall|k: int|
        0 <= k < files.len() ==> is_noted(
            s,
            relative_to((#[trigger] files[k]).path, home),
            now[k],
        )
    &&& forall|u: Seq<char>| #[trigger]
        s.calls.contains_key(u) <==> has_counted(s.primary_sessions, now, u)
    &&& forall|u: Seq<char>| #[trigger]
        s.calls.contains_key(u) ==> s.calls[u].event_uid == u && has_source(
            s.calls[u],
            home,
            files,
            now,
        )
    &&& forall|x: Seq<char>|
        !is_loose(now, x) ==> (#[trigger] s.primary_sessions.contains(x) <==> is_covered_now(
            now,
            x,
        ))
}

/// Events with the same identity have the same response id and the same format, and, where they are
/// legacy events, sessions that count alike.
pub open spec fn events_tell(all: Seq<Seq<u8>>) -> bool {
    forall|i: int, j: int, k: int, l: int|
        #![trigger event_at(all, i, j), event_at(all, k, l)]
        is_event_at(all, i, j) && is_event_at(all, k, l) && uid_of(event_at(all, i, j)) == uid_of(
            event_at(all, k, l),
        ) ==> {
            let (e, d) = (event_at(all, i, j), event_at(all, k, l));
            &&& e.response_id == d.response_id
            &&& e.source_format == d.source_format
            &&& e.source_format == SourceFormat::LegacyTokenCount ==> count_alike(
                all,
                session_at(all, i, j),
                session_at(all, k, l),
            )
        }
}

/// Some event among the leading ones of these has this identity and counts.
#[verifier::opaque]
pub open spec fn has_told(
    s: StoreView,
    x: FileContext,
    events: Seq<EventView>,
    lead: spec_fn(int) -> bool,
    u: Seq<char>,
) -> bool {
    exists|t: int|
        0 <= t < events.len() && lead(t) && uid_of(#[trigger] events[t]) == u && is_counted(
            s,
            x,
            events[t],
        )
}

/// The call is that of some event among the leading ones of these that counts.
#[verifier::opaque]
pub open spec fn is_told_of(
    s: StoreView,
    x: FileContext,
    events: Seq<EventView>,
    lead: spec_fn(int) -> bool,
    c: CallView,
) -> bool {
    exists|t: int|
        0 <= t < events.len() && lead(t) && is_counted(s, x, #[trigger] events[t]) && c == (
        CallView { service_tier: c.service_tier, ..event_call(s, x, events[t]) })
}

pub proof fn lemma_told_one_more(
    s: StoreView,
    x: FileContext,
    events: Seq<EventView>,
    lead: spec_fn(int) -> bool,
    u: Seq<char>,
    c: CallView,
)
    requires
        events.len() > 0,
    ensures
        has_told(s, x, events, lead, u) <==> has_told(s, x, events.drop_last(), lead, u) || lead(
            events.len() - 1,
        ) && uid_of(events.last()) == u && is_counted(s, x, events.last()),
        is_told_of(s, x, events.drop_last(), lead, c) ==> is_told_of(s, x, events, lead, c),
        lead(events.len() - 1) && is_counted(s, x, events.last()) && c == (CallView {
            service_tier: c.service_tier,
            ..event_call(s, x, events.last())
        }) ==> is_told_of(s, x, events, lead, c),
{
    reveal(has_told);
    reveal(is_told_of);
    let init = events.drop_last();
    assert(events[events.len() - 1] == events.last());
    if has_told(s, x, events, lead, u) {
        let t = choose|t: int|
            0 <= t < events.len() && lead(t) && uid_of(#[trigger] events[t]) == u && is_counted(
                s,
                x,
                events[t],
            );
        if t < init.len() {
            assert(init[t] == events[t]);
        }
    }
    if has_told(s, x, init, lead, u) {
        let t = choose|t: int|
            0 <= t < init.len() && lead(t) && uid_of(#[trigger] init[t]) == u && is_counted(
                s,
                x,
                init[t],
            );
        assert(init[t] == events[t]);
    }
    if is_told_of(s, x, init, lead, c) {
        let t = choose|t: int|
            0 <= t < init.len() && lead(t) && is_counted(s, x, #[trigger] init[t]) && c == (
            CallView { service_tier: c.service_tier, ..event_call(s, x, init[t]) });
        assert(init[t] == events[t]);
    }
}

/// An event before number `t` has its response id.
pub open spec fn has_id_before(events: Seq<EventView>, t: int) -> bool {
    exists|i: int| 0 <= i < t && (#[trigger] events[i]).response_id == events[t].response_id
}

/// Calls with the response id of an event have its identity.
pub open spec fn takes_alone(calls: Map<Seq<char>, CallView>, e: EventView) -> bool {
    forall|u: Seq<char>| #[trigger]
        calls.contains_key(u) && calls[u].response_id == e.response_id ==> u == uid_of(e)
}

/// Those events lead whose response ids are new, or taken by their own identity alone; only usage
/// records have response ids, and an identity has one response id.
#[verifier::opaque]
pub open spec fn ids_fit(
    calls: Map<Seq<char>, CallView>,
    events: Seq<EventView>,
    lead: spec_fn(int) -> bool,
) -> bool {
    &&& forall|t: int|
        0 <= t < events.len() && (#[trigger] events[t]).response_id is Some && lead(t)
            ==> takes_alone(calls, events[t]) && !has_id_before(events, t)
    &&& forall|t: int|
        0 <= t < events.len() && !lead(t) ==> (#[trigger] events[t]).response_id is Some && (
        is_taken(calls, events[t].response_id->0) || has_id_before(events, t))
    &&& forall|t: int|
        0 <= t < events.len() && (#[trigger] events[t]).response_id is Some
            ==> events[t].source_format == SourceFormat::TokenUsageRecord
    &&& forall|t: int|
        0 <= t < events.len() && calls.contains_key(uid_of(#[trigger] events[t]))
            ==> calls[uid_of(events[t])].response_id == events[t].response_id
    &&& forall|t: int, i: int|
        0 <= t < events.len() && 0 <= i < events.len() && uid_of(#[trigger] events[t]) == uid_of(
            #[trigger] events[i],
        ) ==> events[t].response_id == events[i].response_id
}

proof fn lemma_ids_fit_before(
    calls: Map<Seq<char>, CallView>,
    events: Seq<EventView>,
    lead: spec_fn(int) -> bool,
)
    requires
        ids_fit(calls, events, lead),
        events.len() > 0,
    ensures
        ids_fit(calls, events.drop_last(), lead),
{
    reveal(ids_fit);
    let init = events.drop_last();
    assert forall|t: int| 0 <= t < init.len() implies #[trigger] init[t] == events[t]
        && has_id_before(init, t) == has_id_before(events, t) by {
        if has_id_before(events, t) {
            let i = choose|i: int|
                0 <= i < t && (#[trigger] events[i]).response_id == events[t].response_id;
            assert(init[i] == events[i]);
        }
        if has_id_before(init, t) {
            let i = choose|i: int|
                0 <= i < t && (#[trigger] init[i]).response_id == init[t].response_id;
            assert(init[i] == events[i]);
        }
    }
}

/// The response ids of the events are taken.
pub open spec fn are_taken(calls: Map<Seq<char>, CallView>, events: Seq<EventView>) -> bool {
    forall|t: int|
        0 <= t < events.len() && (#[trigger] events[t]).response_id is Some ==> is_taken(
            calls,
            events[t].response_id->0,
        )
}

/// Only usage records have response ids.
pub open spec fn ids_of_records(r: ResultView) -> bool {
    forall|j: int|
        0 <= j < r.raw_calls.len() && (#[trigger] r.raw_calls[j]).response_id is Some
            ==> r.raw_calls[j].source_format == SourceFormat::TokenUsageRecord
}

proof fn lemma_stays_taken(calls: Map<Seq<char>, CallView>, c: CallView, rid: Seq<char>)
    requires
        is_taken(calls, rid),
    ensures
        is_taken(with_call(calls, c), rid),
{
    let u = choose|u: Seq<char>| #[trigger] calls.contains_key(u) && calls[u].response_id == Some(
        rid,
    );
    let n = with_call(calls, c);
    assert(n.contains_key(u) && n[u].response_id == Some(rid));
}

/// What telling events has done to the calls.
pub open spec fn are_told(
    s: StoreView,
    x: FileContext,
    events: Seq<EventView>,
    lead: spec_fn(int) -> bool,
    q: Map<Seq<char>, CallView>,
) -> bool {
    &&& forall|u: Seq<char>| #[trigger]
        q.contains_key(u) <==> s.calls.contains_key(u) || has_told(s, x, events, lead, u)
    &&& are_taken(q, events)
    &&& forall|u: Seq<char>| #[trigger]
        s.calls.contains_key(u) ==> q[u] == (CallView {
            service_tier: q[u].service_tier,
            ..s.calls[u]
        })
    &&& forall|u: Seq<char>| #[trigger]
        q.contains_key(u) && !s.calls.contains_key(u) ==> q[u].event_uid == u && is_told_of(
            s,
            x,
            events,
            lead,
            q[u],
        )
}

/// A call that was told of events has the ids of one of them.
proof fn lemma_told_ids(
    s: StoreView,
    x: FileContext,
    events: Seq<EventView>,
    lead: spec_fn(int) -> bool,
    c: CallView,
) -> (t: int)
    requires
        is_told_of(s, x, events, lead, c),
    ensures
        0 <= t < events.len(),
        c.event_uid == uid_of(events[t]),
        c.response_id == events[t].response_id,
{
    reveal(is_told_of);
    choose|t: int|
        0 <= t < events.len() && lead(t) && is_counted(s, x, #[trigger] events[t]) && c == (
        CallView { service_tier: c.service_tier, ..event_call(s, x, events[t]) })
}

/// The call of the next event is known by its identity where the event leads, and in any case where
/// it does not.
proof fn lemma_known_by_lead(
    s: StoreView,
    x: FileContext,
    events: Seq<EventView>,
    lead: spec_fn(int) -> bool,
    q: Map<Seq<char>, CallView>,
    c: CallView,
)
    requires
        events.len() > 0,
        ids_fit(s.calls, events, lead),
        are_told(s, x, events.drop_last(), lead, q),
        c.event_uid == uid_of(events.last()),
        c.response_id == events.last().response_id,
    ensures
        lead(events.len() - 1) ==> is_known(q, c) == q.contains_key(c.event_uid),
        !lead(events.len() - 1) ==> is_known(q, c),
        c.response_id is Some ==> is_taken(with_call(q, c), c.response_id->0),
{
    reveal(ids_fit);
    let init = events.drop_last();
    let n = events.len() - 1;
    let e = events[n];
    assert(e == events.last());
    if lead(n) {
        if c.response_id is Some && is_taken(q, c.response_id->0) {
            let u = choose|u: Seq<char>|
                #[trigger] q.contains_key(u) && q[u].response_id == Some(c.response_id->0);
            if !s.calls.contains_key(u) {
                let t = lemma_told_ids(s, x, init, lead, q[u]);
                assert(init[t] == events[t]);
                assert(has_id_before(events, n));
            }
            assert(u == c.event_uid);
        }
    } else {
        let rid = e.response_id->0;
        if is_taken(s.calls, rid) {
            let u = choose|u: Seq<char>|
                #[trigger] s.calls.contains_key(u) && s.calls[u].response_id == Some(rid);
            assert(q.contains_key(u) && q[u].response_id == Some(rid));
        } else {
            let i = choose|i: int|
                0 <= i < n && (#[trigger] events[i]).response_id == events[n].response_id;
            assert(init[i] == events[i]);
        }
    }
    if c.response_id is Some {
        let rid = c.response_id->0;
        let w = with_call(q, c);
        if is_taken(q, rid) {
            lemma_stays_taken(q, c, rid);
        } else {
            if q.contains_key(c.event_uid) {
                if s.calls.contains_key(c.event_uid) {
                    assert(s.calls[uid_of(events[n])].response_id == e.response_id);
                } else {
                    let t = lemma_told_ids(s, x, init, lead, q[c.event_uid]);
                    assert(init[t] == events[t]);
                    assert(uid_of(events[t]) == uid_of(events[n]));
                }
                assert(q[c.event_uid].response_id == Some(rid));
            }
            assert(w.contains_key(c.event_uid) && w[c.event_uid].response_id == Some(rid));
        }
    }
}

/// Telling events adds exactly the identities of those that lead and count.
pub proof fn lemma_events_by_identity(
    p: Progress,
    x: FileContext,
    events: Seq<EventView>,
    lead: spec_fn(int) -> bool,
)
    requires
        ids_fit(p.store.calls, events, lead),
    ensures
        are_told(p.store, x, events, lead, with_events(p, x, events).store.calls),
    decreases events.len(),
{
    if events.len() == 0 {
        assert forall|u: Seq<char>| !has_told(p.store, x, events, lead, u) by {
            reveal(has_told);
        }
    } else {
        let init = events.drop_last();
        lemma_ids_fit_before(p.store.calls, events, lead);
        lemma_events_by_identity(p, x, init, lead);
        lemma_events_keep(p, x, init);
        let q = with_events(p, x, init).store;
        let r = with_events(p, x, events).store.calls;
        let e = events.last();
        let n = events.len() - 1;
        assert(events[n] == e);
        let c = event_call(q, x, e);
        assert(is_counted(q, x, e) == is_counted(p.store, x, e));
        assert(q.thread_settings == p.store.thread_settings);
        assert(c == event_call(p.store, x, e));
        lemma_known_by_lead(p.store, x, events, lead, q.calls, c);
        assert forall|u: Seq<char>| #[trigger]
            r.contains_key(u) <==> p.store.calls.contains_key(u) || has_told(
                p.store,
                x,
                events,
                lead,
                u,
            ) by {
            lemma_told_one_more(p.store, x, events, lead, u, c);
            assert(q.calls.contains_key(u) <==> p.store.calls.contains_key(u) || has_told(
                p.store,
                x,
                init,
                lead,
                u,
            ));
        }
        assert forall|t: int|
            0 <= t < events.len() && (#[trigger] events[t]).response_id is Some implies is_taken(
            r,
            events[t].response_id->0,
        ) by {
            reveal(ids_fit);
            assert(events[n].response_id is Some ==> is_counted(q, x, e));
            if t < n {
                assert(init[t] == events[t]);
                if is_counted(q, x, e) {
                    lemma_stays_taken(q.calls, c, events[t].response_id->0);
                }
            }
        }
        assert forall|u: Seq<char>| #[trigger] p.store.calls.contains_key(u) implies r[u] == (
        CallView { service_tier: r[u].service_tier, ..p.store.calls[u] }) by {
            assert(q.calls.contains_key(u));
        }
        assert forall|u: Seq<char>| #[trigger]
            r.contains_key(u) && !p.store.calls.contains_key(u) implies r[u].event_uid == u
            && is_told_of(p.store, x, events, lead, r[u]) by {
            if q.calls.contains_key(u) {
                lemma_told_one_more(p.store, x, events, lead, u, q.calls[u]);
                lemma_told_tier(p.store, x, events, lead, q.calls[u], r[u]);
            } else {
                lemma_told_one_more(p.store, x, events, lead, u, r[u]);
            }
        }
    }
}

/// The tier does not matter for what a call is told of.
pub proof fn lemma_told_tier(
    s: StoreView,
    x: FileContext,
    events: Seq<EventView>,
    lead: spec_fn(int) -> bool,
    c: CallView,
    d: CallView,
)
    requires
        is_told_of(s, x, events, lead, c),
        d == (CallView { service_tier: d.service_tier, ..c }),
    ensures
        is_told_of(s, x, events, lead, d),
{
    reveal(is_told_of);
}

/// What the files tell does not depend on where they are cut.
pub open spec fn are_steady(all: Seq<Seq<u8>>) -> bool {
    forall|k: int| 0 <= k < all.len() ==> is_steady(#[trigger] all[k])
}

/// A file has no legacy events, or their sessions count like that of the file, as told by its
/// headers; and where it has usage records as well, its header names the session.
pub open spec fn is_orderly(all: Seq<Seq<u8>>, k: int) -> bool {
    let r = told_by(all[k]);
    ||| only_records(all[k])
    ||| {
        &&& forall|j: int|
            0 <= j < r.raw_calls.len() && (#[trigger] r.raw_calls[j]).source_format
                == SourceFormat::LegacyTokenCount ==> count_alike(
                all,
                r.raw_calls[j].session_id,
                r.meta.session_id,
            )
        &&& r.primary_events > 0 ==> r.meta.session_id is Some
    }
}

/// The files may be counted by their events: each is steady and orderly; and no legacy event is of a
/// session that headers name which do not agree.
pub open spec fn are_countable(all: Seq<Seq<u8>>) -> bool {
    &&& are_steady(all)
    &&& forall|k: int| 0 <= k < all.len() ==> #[trigger] is_orderly(all, k)
    &&& forall|k: int, j: int|
        is_event_at(all, k, j) && (#[trigger] event_at(all, k, j)).source_format
            == SourceFormat::LegacyTokenCount && event_at(all, k, j).session_id is Some
            ==> !is_loose(all, event_at(all, k, j).session_id->0)
}

/// The files as they stood, and as they stand now.
pub open spec fn all_grown(now: Seq<Seq<u8>>, all: Seq<Seq<u8>>) -> bool {
    now.len() == all.len() && forall|k: int|
        0 <= k < all.len() ==> is_grown(#[trigger] now[k], all[k])
}

/// What is free in the end is free all along.
pub proof fn lemma_free_before(now: Seq<Seq<u8>>, all: Seq<Seq<u8>>, x: Seq<char>)
    requires
        all_grown(now, all),
        are_steady(all),
        is_free(all, x),
    ensures
        is_free(now, x),
{
    if is_loose(now, x) {
        let k = choose|k: int| 0 <= k < now.len() && is_loose_in(#[trigger] now[k], x);
        assert(is_grown(now[k], all[k]) && is_steady(all[k]));
        lemma_grown(now[k], all[k]);
        assert(is_loose_in(all[k], x));
    }
    if is_covered_now(now, x) {
        let k = choose|k: int| 0 <= k < now.len() && covers(#[trigger] told_by(now[k]), x);
        assert(is_grown(now[k], all[k]) && is_steady(all[k]));
        lemma_grown(now[k], all[k]);
        let (a, w) = (told_by(now[k]), told_by(all[k]));
        if has_record_of(a.raw_calls, x) {
            let j = choose|j: int|
                0 <= j < a.raw_calls.len() && (#[trigger] a.raw_calls[j]).source_format
                    == SourceFormat::TokenUsageRecord && a.raw_calls[j].session_id == Some(x);
            assert(w.raw_calls[j] == a.raw_calls[j]);
            assert(covers(told_by(all[k]), x));
        } else if headers_agree(reading(all[k], 0, false).contents) {
            assert(covers(told_by(all[k]), x));
        } else {
            assert(is_loose_in(all[k], x));
        }
    }
}

/// No session is marked that is free in the end.
pub open spec fn are_sound(all: Seq<Seq<u8>>, marks: Set<Seq<char>>) -> bool {
    forall|x: Seq<char>| is_free(all, x) ==> !#[trigger] marks.contains(x)
}

/// A session is marked.
pub open spec fn is_marked(marks: Set<Seq<char>>, session: Option<Seq<char>>) -> bool {
    session is Some && marks.contains(session->0)
}

/// Sessions that count alike are marked alike.
pub proof fn lemma_marked_alike(
    all: Seq<Seq<u8>>,
    marks: Set<Seq<char>>,
    a: Option<Seq<char>>,
    b: Option<Seq<char>>,
)
    requires
        are_sound(all, marks),
        count_alike(all, a, b),
    ensures
        is_marked(marks, a) == is_marked(marks, b),
{
}

/// The sessions of a legacy event of a file that is still growing.
pub proof fn lemma_sessions_alike(now: Seq<Seq<u8>>, all: Seq<Seq<u8>>, k: int, j: int)
    requires
        all_grown(now, all),
        are_countable(all),
        is_event_at(now, k, j),
        event_at(now, k, j).source_format == SourceFormat::LegacyTokenCount,
    ensures
        is_event_at(all, k, j),
        event_at(all, k, j) == event_at(now, k, j),
        headers_agree(reading(all[k], 0, false).contents),
        count_alike(all, event_at(now, k, j).session_id, session_at(all, k, j)),
        count_alike(all, session_at(now, k, j), session_at(all, k, j)),
        told_by(all[k]).primary_events > 0 ==> told_by(all[k]).meta.session_id is Some
            && event_at(now, k, j).session_id == told_by(all[k]).meta.session_id,
{
    assert(is_grown(now[k], all[k]) && is_steady(all[k]) && is_orderly(all, k));
    lemma_stage(now[k], all[k]);
    let (a, w) = (told_by(now[k]), told_by(all[k]));
    let e = a.raw_calls[j];
    assert(w.raw_calls[j] == e);
    if only_records(all[k]) {
        assert(told_by(all[k]).raw_calls[j].source_format == SourceFormat::TokenUsageRecord);
    }
    assert(count_alike(all, w.raw_calls[j].session_id, w.meta.session_id));
    if w.primary_events > 0 {
        assert(covers(told_by(all[k]), w.meta.session_id->0));
        assert(is_covered_now(all, w.meta.session_id->0));
    }
}

/// Whether a legacy event of a growing file counts goes by the session that it has in the end.
pub proof fn lemma_counts_by_session(
    now: Seq<Seq<u8>>,
    all: Seq<Seq<u8>>,
    marks: Set<Seq<char>>,
    k: int,
    j: int,
)
    requires
        all_grown(now, all),
        are_countable(all),
        are_sound(all, marks),
        is_event_at(now, k, j),
        event_at(now, k, j).source_format == SourceFormat::LegacyTokenCount,
    ensures
        counts_under(marks, told_by(now[k]), event_at(now, k, j)) <==> told_by(
            now[k],
        ).primary_events == 0 && !is_marked(marks, session_at(all, k, j)),
{
    lemma_sessions_alike(now, all, k, j);
    lemma_marked_alike(all, marks, session_at(now, k, j), session_at(all, k, j));
}

/// What a step of an import goes by: file number `k` is brought from `now[k]` to `all[k]`.
pub open spec fn is_step(
    p: Progress,
    i: FileInput,
    home: Seq<char>,
    files: Seq<FileView>,
    now: Seq<Seq<u8>>,
    all: Seq<Seq<u8>>,
    k: int,
) -> bool {
    &&& 0 <= k < files.len()
    &&& names_differ(files, home)
    &&& all_grown(now, all)
    &&& all_grown(now.update(k, all[k]), all)
    &&& are_countable(all)
    &&& events_tell(all)
    &&& ids_stay(now, all)
    &&& ids_stay(now.update(k, all[k]), all)
    &&& is_up_to(p.store, home, files, now)
    &&& !i.force_full
    &&& i.rel == relative_to(files[k].path, home)
    &&& i.file == files[k]
    &&& i.file.size == all[k].len()
    &&& i.content == FileContentView::Whole(all[k])
}

/// A call of the store has the format and the response id of every event with its identity, and a
/// legacy call a session that counts alike.
pub proof fn lemma_session_told(
    p: Progress,
    i: FileInput,
    home: Seq<char>,
    files: Seq<FileView>,
    now: Seq<Seq<u8>>,
    all: Seq<Seq<u8>>,
    k: int,
    u: Seq<char>,
    m: int,
    j: int,
)
    requires
        is_step(p, i, home, files, now, all, k),
        p.store.calls.contains_key(u),
        is_event_at(all, m, j),
        uid_of(event_at(all, m, j)) == u,
    ensures
        p.store.calls[u].source_format == event_at(all, m, j).source_format,
        p.store.calls[u].response_id == event_at(all, m, j).response_id,
        p.store.calls[u].source_format == SourceFormat::LegacyTokenCount ==> count_alike(
            all,
            p.store.calls[u].session_id,
            session_at(all, m, j),
        ),
{
    let c = p.store.calls[u];
    assert(has_source(c, home, files, now));
    let (a, b) = lemma_find_source(c, home, files, now);
    assert(is_grown(now[a], all[a]) && is_steady(all[a]));
    lemma_stage(now[a], all[a]);
    assert(event_at(all, a, b) == event_at(now, a, b));
    assert(uid_of(event_at(all, a, b)) == uid_of(event_at(all, m, j)));
    if c.source_format == SourceFormat::LegacyTokenCount {
        lemma_sessions_alike(now, all, a, b);
        assert(count_alike(all, c.session_id, session_at(all, a, b)));
        assert(count_alike(all, session_at(all, a, b), session_at(all, m, j)));
    }
}

/// A file with usage records covers this session.
pub open spec fn newly_covers(x: FileContext, events: Seq<EventView>, session: Seq<char>) -> bool {
    x.primary && (x.enrichment.meta.session_id == Some(session) || has_record_of(events, session))
}

/// What settling a file does.
pub proof fn lemma_settling(p: Progress, i: FileInput)
    ensures
        ({
            let x = file_context(p.store, i);
            let events = file_events(p.store, i);
            let s = settled(p, i).store;
            &&& forall|y: Seq<char>| #[trigger]
                s.primary_sessions.contains(y) <==> p.store.primary_sessions.contains(y)
                    || newly_covers(x, events, y)
            &&& forall|u: Seq<char>| #[trigger]
                s.calls.contains_key(u) <==> p.store.calls.contains_key(u) && !(
                p.store.calls[u].source_format == SourceFormat::LegacyTokenCount
                    && p.store.calls[u].session_id is Some && newly_covers(
                    x,
                    events,
                    p.store.calls[u].session_id->0,
                ))
            &&& forall|u: Seq<char>| #[trigger]
                s.calls.contains_key(u) ==> s.calls[u] == p.store.calls[u]
            &&& s.checkpoints == p.store.checkpoints
        }),
{
    let x = file_context(p.store, i);
    let events = file_events(p.store, i);
    let sessions = covered_sessions(x.enrichment.meta.session_id, events);
    lemma_covering(p, sessions);
    assert forall|y: Seq<char>| sessions.contains(y) <==> x.enrichment.meta.session_id == Some(y)
        || has_record_of(events, y) by {
        lemma_covered_sessions(x.enrichment.meta.session_id, events, y);
    }
    let covered = if x.primary {
        with_covered(p, sessions)
    } else {
        p
    };
    lemma_settings_keep(covered.store, x.settings);
    lemma_settled_keeps(p, i);
}

pub proof fn lemma_put_counted(sessions: Set<Seq<char>>, now: Seq<Seq<u8>>, k: int, j: int)
    requires
        is_event_at(now, k, j),
        is_foremost(now, k, j),
        counts_under(sessions, told_by(now[k]), event_at(now, k, j)),
    ensures
        has_counted(sessions, now, uid_of(event_at(now, k, j))),
{
    reveal(has_counted);
}

pub proof fn lemma_find_counted(sessions: Set<Seq<char>>, now: Seq<Seq<u8>>, u: Seq<char>) -> (r: (
    int,
    int,
))
    requires
        has_counted(sessions, now, u),
    ensures
        is_event_at(now, r.0, r.1),
        uid_of(event_at(now, r.0, r.1)) == u,
        is_foremost(now, r.0, r.1),
        counts_under(sessions, told_by(now[r.0]), event_at(now, r.0, r.1)),
{
    reveal(has_counted);
    choose|k: int, j: int|
        is_event_at(now, k, j) && uid_of(#[trigger] event_at(now, k, j)) == u && is_foremost(
            now,
            k,
            j,
        ) && counts_under(sessions, told_by(now[k]), event_at(now, k, j))
}

/// A usage record with a response id is in the store under what the response id stands for.
pub proof fn lemma_id_is_taken(
    p: Progress,
    i: FileInput,
    home: Seq<char>,
    files: Seq<FileView>,
    now: Seq<Seq<u8>>,
    all: Seq<Seq<u8>>,
    k: int,
    m: int,
    j: int,
)
    requires
        is_step(p, i, home, files, now, all, k),
        is_event_at(now, m, j),
        event_at(now, m, j).response_id is Some,
    ensures
        is_taken(settled(p, i).store.calls, event_at(now, m, j).response_id->0),
{
    let s = settled(p, i).store;
    lemma_settling(p, i);
    let (a, b) = lemma_foremost(now, m, j);
    assert(is_grown(now[a], all[a]) && is_steady(all[a]));
    lemma_stage(now[a], all[a]);
    let e = event_at(now, a, b);
    assert(event_at(all, a, b) == e);
    lemma_ids_told(now[a]);
    assert(told_by(now[a]).raw_calls[b].source_format == SourceFormat::TokenUsageRecord);
    lemma_put_counted(p.store.primary_sessions, now, a, b);
    assert(p.store.calls.contains_key(uid_of(e)));
    lemma_session_told(p, i, home, files, now, all, k, uid_of(e), a, b);
    assert(s.calls.contains_key(uid_of(e)) && s.calls[uid_of(e)].response_id == e.response_id);
}

/// A call of the store with a response id is what the response id stands for.
pub proof fn lemma_taker_is_foremost(
    p: Progress,
    i: FileInput,
    home: Seq<char>,
    files: Seq<FileView>,
    now: Seq<Seq<u8>>,
    all: Seq<Seq<u8>>,
    k: int,
    u: Seq<char>,
) -> (r: (int, int))
    requires
        is_step(p, i, home, files, now, all, k),
        p.store.calls.contains_key(u),
    ensures
        is_event_at(now, r.0, r.1),
        is_foremost(now, r.0, r.1),
        uid_of(event_at(now, r.0, r.1)) == u,
        event_at(now, r.0, r.1).response_id == p.store.calls[u].response_id,
{
    let (a, b) = lemma_find_counted(p.store.primary_sessions, now, u);
    assert(is_grown(now[a], all[a]) && is_steady(all[a]));
    lemma_stage(now[a], all[a]);
    assert(event_at(all, a, b) == event_at(now, a, b));
    lemma_session_told(p, i, home, files, now, all, k, u, a, b);
    (a, b)
}

/// The response ids of the events that a step tells fit the store.
pub proof fn lemma_step_ids_fit(
    p: Progress,
    i: FileInput,
    home: Seq<char>,
    files: Seq<FileView>,
    now: Seq<Seq<u8>>,
    all: Seq<Seq<u8>>,
    k: int,
)
    requires
        is_step(p, i, home, files, now, all, k),
    ensures
        ids_fit(
            settled(p, i).store.calls,
            file_events(p.store, i),
            foremost_from(now.update(k, all[k]), k, told_by(now[k]).raw_calls.len() as int),
        ),
{
    reveal(ids_fit);
    let calls = settled(p, i).store.calls;
    let events = file_events(p.store, i);
    let next = now.update(k, all[k]);
    let from = told_by(now[k]).raw_calls.len() as int;
    let lead = foremost_from(next, k, from);
    assert(is_grown(now[k], all[k]) && is_steady(all[k]));
    lemma_file_input(p, i, now[k], all[k]);
    lemma_settling(p, i);
    lemma_ids_told(all[k]);
    assert(next[k] == all[k]);
    assert forall|t: int| 0 <= t < events.len() implies #[trigger] events[t] == event_at(
        next,
        k,
        from + t,
    ) && events[t] == event_at(all, k, from + t) && is_event_at(all, k, from + t) by {}
    assert forall|t: int|
        0 <= t < events.len() && (#[trigger] events[t]).response_id is Some && lead(
            t,
        ) implies takes_alone(calls, events[t]) && !has_id_before(events, t) by {
        let e = events[t];
        assert(e == event_at(next, k, from + t));
        assert forall|u: Seq<char>| #[trigger]
            calls.contains_key(u) && calls[u].response_id == e.response_id implies u == uid_of(
            e,
        ) by {
            assert(p.store.calls.contains_key(u) && calls[u] == p.store.calls[u]);
            let (a, b) = lemma_taker_is_foremost(p, i, home, files, now, all, k, u);
            lemma_ids_meet(now, next, all, a, b, k, from + t);
        }
        if has_id_before(events, t) {
            reveal(is_foremost);
            let l = choose|l: int|
                0 <= l < t && (#[trigger] events[l]).response_id == events[t].response_id;
            assert(events[l] == event_at(next, k, from + l));
            assert(is_event_at(next, k, from + l));
        }
    }
    assert forall|t: int| 0 <= t < events.len() && !lead(t) implies (
    #[trigger] events[t]).response_id is Some && (is_taken(calls, events[t].response_id->0)
        || has_id_before(events, t)) by {
        reveal(is_foremost);
        let e = events[t];
        assert(e == event_at(next, k, from + t));
        let (m, l) = choose|m: int, l: int|
            is_event_at(next, m, l) && (m < k || m == k && l < from + t) && (#[trigger] event_at(
                next,
                m,
                l,
            )).response_id == e.response_id;
        if m == k && l >= from {
            assert(events[l - from] == event_at(next, k, from + (l - from)));
            assert(has_id_before(events, t));
        } else {
            if m == k {
                lemma_stage(now[k], all[k]);
            }
            assert(event_at(now, m, l) == event_at(next, m, l));
            lemma_id_is_taken(p, i, home, files, now, all, k, m, l);
        }
    }
    assert forall|t: int|
        0 <= t < events.len() && (#[trigger] events[t]).response_id is Some implies events[t].source_format
        == SourceFormat::TokenUsageRecord by {
        assert(told_by(all[k]).raw_calls[from + t] == events[t]);
    }
    assert forall|t: int|
        0 <= t < events.len() && calls.contains_key(
            uid_of(#[trigger] events[t]),
        ) implies calls[uid_of(events[t])].response_id == events[t].response_id by {
        assert(events[t] == event_at(all, k, from + t));
        lemma_session_told(p, i, home, files, now, all, k, uid_of(events[t]), k, from + t);
    }
    assert forall|t: int, l: int|
        0 <= t < events.len() && 0 <= l < events.len() && uid_of(#[trigger] events[t]) == uid_of(
            #[trigger] events[l],
        ) implies events[t].response_id == events[l].response_id by {
        assert(events[t] == event_at(all, k, from + t));
        assert(events[l] == event_at(all, k, from + l));
    }
}

/// The marks before and after a step are sound.
pub proof fn lemma_step_is_sound(
    p: Progress,
    i: FileInput,
    home: Seq<char>,
    files: Seq<FileView>,
    now: Seq<Seq<u8>>,
    all: Seq<Seq<u8>>,
    k: int,
)
    requires
        is_step(p, i, home, files, now, all, k),
    ensures
        are_sound(all, p.store.primary_sessions),
        are_sound(all, settled(p, i).store.primary_sessions),
{
    assert forall|x: Seq<char>| is_free(all, x) implies !(
    #[trigger] p.store.primary_sessions.contains(x)) by {
        lemma_free_before(now, all, x);
    }
    let s = settled(p, i).store;
    assert forall|x: Seq<char>| is_free(all, x) implies !(#[trigger] s.primary_sessions.contains(
        x,
    )) by {
        lemma_free_before(now.update(k, all[k]), all, x);
        lemma_step_marks(p, i, home, files, now, all, k, x);
    }
}

/// A call stays in the store where its session is not covered anew.
proof fn lemma_dropped_by_session(
    p: Progress,
    i: FileInput,
    home: Seq<char>,
    files: Seq<FileView>,
    now: Seq<Seq<u8>>,
    all: Seq<Seq<u8>>,
    k: int,
    u: Seq<char>,
    m: int,
    j: int,
)
    requires
        is_step(p, i, home, files, now, all, k),
        p.store.calls.contains_key(u),
        is_event_at(all, m, j),
        uid_of(event_at(all, m, j)) == u,
        event_at(all, m, j).source_format == SourceFormat::LegacyTokenCount,
        !is_marked(p.store.primary_sessions, session_at(all, m, j)),
    ensures
        settled(p, i).store.calls.contains_key(u) <==> !is_marked(
            settled(p, i).store.primary_sessions,
            session_at(all, m, j),
        ),
{
    let c = p.store.calls[u];
    lemma_settling(p, i);
    lemma_step_is_sound(p, i, home, files, now, all, k);
    lemma_session_told(p, i, home, files, now, all, k, u, m, j);
    lemma_marked_alike(all, p.store.primary_sessions, c.session_id, session_at(all, m, j));
    lemma_marked_alike(
        all,
        settled(p, i).store.primary_sessions,
        c.session_id,
        session_at(all, m, j),
    );
}

/// After a step, every call of the store is that of an event that counts.
pub proof fn lemma_step_counts_what_it_holds(
    p: Progress,
    i: FileInput,
    home: Seq<char>,
    files: Seq<FileView>,
    now: Seq<Seq<u8>>,
    all: Seq<Seq<u8>>,
    k: int,
    u: Seq<char>,
)
    requires
        is_step(p, i, home, files, now, all, k),
        settled(p, i).store.calls.contains_key(u) || has_told(
            settled(p, i).store,
            file_context(p.store, i),
            file_events(p.store, i),
            foremost_from(now.update(k, all[k]), k, told_by(now[k]).raw_calls.len() as int),
            u,
        ),
    ensures
        has_counted(settled(p, i).store.primary_sessions, now.update(k, all[k]), u),
{
    let x = file_context(p.store, i);
    let events = file_events(p.store, i);
    let s = settled(p, i).store;
    let next = now.update(k, all[k]);
    assert(is_grown(now[k], all[k]) && is_steady(all[k]));
    lemma_settling(p, i);
    lemma_file_input(p, i, now[k], all[k]);
    lemma_step_is_sound(p, i, home, files, now, all, k);
    let w = told_by(all[k]);
    let from = told_by(now[k]).raw_calls.len();
    assert(next[k] == all[k]);
    if s.calls.contains_key(u) {
        let (m, j) = lemma_find_counted(p.store.primary_sessions, now, u);
        assert(is_grown(now[m], all[m]) && is_steady(all[m]));
        lemma_stage(now[m], all[m]);
        let e = event_at(now, m, j);
        assert(event_at(all, m, j) == e);
        assert(event_at(next, m, j) == e);
        if e.response_id is Some {
            let (a, b) = lemma_foremost(next, m, j);
            lemma_ids_meet(now, next, all, m, j, a, b);
            lemma_ids_told(next[a]);
            assert(told_by(next[a]).raw_calls[b].source_format == SourceFormat::TokenUsageRecord);
            lemma_put_counted(s.primary_sessions, next, a, b);
        } else {
            assert(is_foremost(next, m, j)) by {
                reveal(is_foremost);
            }
            if e.source_format == SourceFormat::LegacyTokenCount {
                lemma_counts_by_session(now, all, p.store.primary_sessions, m, j);
                lemma_dropped_by_session(p, i, home, files, now, all, k, u, m, j);
                lemma_counts_by_session(next, all, s.primary_sessions, m, j);
                lemma_sessions_alike(now, all, m, j);
                if m == k && w.primary_events > 0 {
                    lemma_context_session(p, i, now[k], all[k]);
                    assert(newly_covers(x, events, w.meta.session_id->0));
                    assert(session_at(all, m, j) == w.meta.session_id);
                }
            }
            lemma_put_counted(s.primary_sessions, next, m, j);
        }
    } else {
        reveal(has_told);
        let lead = foremost_from(next, k, from as int);
        let t = choose|t: int|
            0 <= t < events.len() && lead(t) && uid_of(#[trigger] events[t]) == u && is_counted(
                s,
                x,
                events[t],
            );
        assert(is_foremost(next, k, from + t));
        assert(w.raw_calls[from + t] == events[t]);
        assert(event_at(next, k, from + t) == events[t]);
        if events[t].source_format == SourceFormat::LegacyTokenCount {
            lemma_sessions_alike(next, all, k, from + t);
            lemma_context_session(p, i, now[k], all[k]);
        }
        lemma_put_counted(s.primary_sessions, next, k, from + t);
    }
}

/// After a step, every event that counts has its call in the store.
pub proof fn lemma_step_holds_what_counts(
    p: Progress,
    i: FileInput,
    home: Seq<char>,
    files: Seq<FileView>,
    now: Seq<Seq<u8>>,
    all: Seq<Seq<u8>>,
    k: int,
    u: Seq<char>,
)
    requires
        is_step(p, i, home, files, now, all, k),
        has_counted(settled(p, i).store.primary_sessions, now.update(k, all[k]), u),
    ensures
        settled(p, i).store.calls.contains_key(u) || has_told(
            settled(p, i).store,
            file_context(p.store, i),
            file_events(p.store, i),
            foremost_from(now.update(k, all[k]), k, told_by(now[k]).raw_calls.len() as int),
            u,
        ),
{
    let x = file_context(p.store, i);
    let events = file_events(p.store, i);
    let s = settled(p, i).store;
    let next = now.update(k, all[k]);
    assert(is_grown(now[k], all[k]) && is_steady(all[k]));
    lemma_settling(p, i);
    lemma_file_input(p, i, now[k], all[k]);
    lemma_step_is_sound(p, i, home, files, now, all, k);
    let w = told_by(all[k]);
    let from = told_by(now[k]).raw_calls.len();
    let (m, j) = lemma_find_counted(s.primary_sessions, next, u);
    let e = event_at(next, m, j);
    assert(next[k] == all[k]);
    if m == k && j >= from {
        let t = j - from;
        assert(events[t] == w.raw_calls[from + t]);
        reveal(has_told);
        let lead = foremost_from(next, k, from as int);
        assert(lead(t));
        if e.source_format == SourceFormat::LegacyTokenCount {
            lemma_sessions_alike(next, all, k, j);
            lemma_context_session(p, i, now[k], all[k]);
        }
        assert(is_counted(s, x, events[t]));
    } else {
        assert(is_grown(now[m], all[m]) && is_steady(all[m]));
        lemma_stage(now[m], all[m]);
        assert(event_at(now, m, j) == e);
        assert(event_at(all, m, j) == e);
        assert(is_foremost(now, m, j)) by {
            reveal(is_foremost);
            if e.response_id is Some {
                assert forall|a: int, b: int|
                    is_event_at(now, a, b) && (a < m || a == m && b < j) implies (
                #[trigger] event_at(now, a, b)).response_id != e.response_id by {
                    if a == k {
                        lemma_stage(now[k], all[k]);
                    }
                    assert(event_at(next, a, b) == event_at(now, a, b));
                    assert(is_event_at(next, a, b));
                }
            }
        }
        if e.source_format == SourceFormat::LegacyTokenCount {
            lemma_counts_by_session(next, all, s.primary_sessions, m, j);
            lemma_counts_by_session(now, all, p.store.primary_sessions, m, j);
            assert(!is_marked(p.store.primary_sessions, session_at(all, m, j)));
        }
        assert(counts_under(p.store.primary_sessions, told_by(now[m]), e));
        lemma_put_counted(p.store.primary_sessions, now, m, j);
        assert(p.store.calls.contains_key(u));
        lemma_session_told(p, i, home, files, now, all, k, u, m, j);
        if e.source_format == SourceFormat::LegacyTokenCount {
            lemma_dropped_by_session(p, i, home, files, now, all, k, u, m, j);
        }
    }
}

/// After a step the marked sessions are those that the files cover.
pub proof fn lemma_step_marks(
    p: Progress,
    i: FileInput,
    home: Seq<char>,
    files: Seq<FileView>,
    now: Seq<Seq<u8>>,
    all: Seq<Seq<u8>>,
    k: int,
    y: Seq<char>,
)
    requires
        is_step(p, i, home, files, now, all, k),
        !is_loose(now.update(k, all[k]), y),
    ensures
        settled(p, i).store.primary_sessions.contains(y) <==> is_covered_now(
            now.update(k, all[k]),
            y,
        ),
{
    let x = file_context(p.store, i);
    let events = file_events(p.store, i);
    let next = now.update(k, all[k]);
    assert(is_grown(now[k], all[k]) && is_steady(all[k]));
    lemma_settling(p, i);
    lemma_file_input(p, i, now[k], all[k]);
    lemma_grown(now[k], all[k]);
    lemma_stage(now[k], all[k]);
    let (a, w) = (told_by(now[k]), told_by(all[k]));
    assert(next[k] == all[k]);
    assert(!is_loose(now, y)) by {
        if is_loose(now, y) {
            let m = choose|m: int| 0 <= m < now.len() && is_loose_in(#[trigger] now[m], y);
            assert(is_loose_in(next[m], y));
        }
    }
    assert(!is_loose_in(next[k], y));
    if headers_agree(reading(all[k], 0, false).contents) {
        lemma_context_session(p, i, now[k], all[k]);
    }
    lemma_records_of_both(a.raw_calls, events, y);
    if is_covered_now(next, y) {
        let m = choose|m: int| 0 <= m < next.len() && covers(#[trigger] told_by(next[m]), y);
        if m != k {
            assert(covers(told_by(now[m]), y));
            assert(is_covered_now(now, y));
        } else if has_record_of(a.raw_calls, y) && !newly_covers(x, events, y) {
            assert(covers(told_by(now[k]), y));
            assert(is_covered_now(now, y));
        }
    }
    if p.store.primary_sessions.contains(y) {
        assert(is_covered_now(now, y));
        let m = choose|m: int| 0 <= m < now.len() && covers(#[trigger] told_by(now[m]), y);
        if m != k {
            assert(covers(told_by(next[m]), y));
        } else {
            assert(covers(told_by(next[k]), y));
        }
    }
    if newly_covers(x, events, y) {
        assert(covers(told_by(next[k]), y));
    }
}

pub proof fn lemma_put_source(
    c: CallView,
    home: Seq<char>,
    files: Seq<FileView>,
    now: Seq<Seq<u8>>,
    k: int,
    j: int,
)
    requires
        is_event_at(now, k, j),
        relative_to(files[k].path, home) == c.source_file,
        is_call_at(c, event_at(now, k, j), told_by(now[k]).meta.session_id),
    ensures
        has_source(c, home, files, now),
{
    reveal(has_source);
}

pub proof fn lemma_find_source(
    c: CallView,
    home: Seq<char>,
    files: Seq<FileView>,
    now: Seq<Seq<u8>>,
) -> (r: (int, int))
    requires
        has_source(c, home, files, now),
    ensures
        is_event_at(now, r.0, r.1),
        relative_to(files[r.0].path, home) == c.source_file,
        is_call_at(c, event_at(now, r.0, r.1), told_by(now[r.0]).meta.session_id),
{
    reveal(has_source);
    choose|k: int, j: int|
        is_event_at(now, k, j) && relative_to(files[k].path, home) == c.source_file && is_call_at(
            c,
            #[trigger] event_at(now, k, j),
            told_by(now[k]).meta.session_id,
        )
}

/// After a step every call is that of an event of the file that it names.
pub proof fn lemma_step_sources(
    p: Progress,
    i: FileInput,
    home: Seq<char>,
    files: Seq<FileView>,
    now: Seq<Seq<u8>>,
    all: Seq<Seq<u8>>,
    k: int,
    c: CallView,
)
    requires
        is_step(p, i, home, files, now, all, k),
        has_source(c, home, files, now) || is_told_of(
            settled(p, i).store,
            file_context(p.store, i),
            file_events(p.store, i),
            foremost_from(now.update(k, all[k]), k, told_by(now[k]).raw_calls.len() as int),
            c,
        ),
    ensures
        has_source(c, home, files, now.update(k, all[k])),
{
    let x = file_context(p.store, i);
    let events = file_events(p.store, i);
    let s = settled(p, i).store;
    let next = now.update(k, all[k]);
    assert(is_grown(now[k], all[k]) && is_steady(all[k]));
    lemma_file_input(p, i, now[k], all[k]);
    lemma_stage(now[k], all[k]);
    assert(next[k] == all[k]);
    if has_source(c, home, files, now) {
        let (m, j) = lemma_find_source(c, home, files, now);
        assert(event_at(next, m, j) == event_at(now, m, j));
        if m == k && c.source_format == SourceFormat::LegacyTokenCount {
            lemma_sessions_alike(now, all, k, j);
        }
        lemma_put_source(c, home, files, next, m, j);
    } else {
        reveal(is_told_of);
        let lead = foremost_from(next, k, told_by(now[k]).raw_calls.len() as int);
        let t = choose|t: int|
            0 <= t < events.len() && lead(t) && is_counted(s, x, #[trigger] events[t]) && c == (
            CallView { service_tier: c.service_tier, ..event_call(s, x, events[t]) });
        let j = told_by(now[k]).raw_calls.len() + t;
        let e = events[t];
        assert(told_by(all[k]).raw_calls[j] == e);
        assert(event_at(next, k, j) == e);
        if e.source_format == SourceFormat::LegacyTokenCount {
            lemma_sessions_alike(next, all, k, j);
            lemma_context_session(p, i, now[k], all[k]);
        }
        lemma_put_source(c, home, files, next, k, j);
    }
}

/// Only usage records of a file have response ids.
pub proof fn lemma_ids_told(bytes: Seq<u8>)
    ensures
        ids_of_records(told_by(bytes)),
{
    reveal(told_by);
    lemma_legacy_without_id(reading(bytes, 0, false).contents, 0);
}

/// A step of an import brings the store up to the file that it reads.
pub proof fn lemma_step_is_up_to(
    p: Progress,
    i: FileInput,
    home: Seq<char>,
    files: Seq<FileView>,
    now: Seq<Seq<u8>>,
    all: Seq<Seq<u8>>,
    k: int,
)
    requires
        is_step(p, i, home, files, now, all, k),
    ensures
        is_up_to(with_changed_file(p, i).store, home, files, now.update(k, all[k])),
{
    let x = file_context(p.store, i);
    let events = file_events(p.store, i);
    let first = settled(p, i);
    let next = now.update(k, all[k]);
    let q = with_changed_file(p, i).store;
    let from = told_by(now[k]).raw_calls.len() as int;
    assert(is_grown(now[k], all[k]) && is_steady(all[k]));
    lemma_file_input(p, i, now[k], all[k]);
    lemma_settling(p, i);
    lemma_step_ids_fit(p, i, home, files, now, all, k);
    lemma_events_by_identity(first, x, events, foremost_from(next, k, from));
    lemma_events_keep(first, x, events);
    assert(is_named(files, home, i.rel)) by {
        assert(relative_to(files[k].path, home) == i.rel);
    }
    assert forall|m: int| 0 <= m < files.len() implies is_noted(
        q,
        relative_to((#[trigger] files[m]).path, home),
        next[m],
    ) by {
        if m != k {
            let rel = relative_to(files[m].path, home);
            assert(rel != i.rel) by {
                if m < k {
                    assert(relative_to(files[m].path, home) != relative_to(files[k].path, home));
                } else {
                    assert(relative_to(files[k].path, home) != relative_to(files[m].path, home));
                }
            }
            assert(is_noted(p.store, rel, now[m]));
            assert(q.checkpoints.contains_key(rel) == p.store.checkpoints.contains_key(rel));
        }
    }
    assert forall|u: Seq<char>| #[trigger]
        q.calls.contains_key(u) <==> has_counted(q.primary_sessions, next, u) by {
        if q.calls.contains_key(u) {
            lemma_step_counts_what_it_holds(p, i, home, files, now, all, k, u);
        }
        if has_counted(q.primary_sessions, next, u) {
            lemma_step_holds_what_counts(p, i, home, files, now, all, k, u);
        }
    }
    assert forall|u: Seq<char>| #[trigger] q.calls.contains_key(u) implies q.calls[u].event_uid == u
        && has_source(q.calls[u], home, files, next) by {
        if first.store.calls.contains_key(u) {
            assert(p.store.calls.contains_key(u));
            assert(has_source(p.store.calls[u], home, files, now));
            lemma_source_tier(p.store.calls[u], q.calls[u], home, files, now);
        }
        lemma_step_sources(p, i, home, files, now, all, k, q.calls[u]);
    }
    assert forall|y: Seq<char>|
        !is_loose(next, y) implies (#[trigger] q.primary_sessions.contains(y) <==> is_covered_now(
        next,
        y,
    )) by {
        lemma_step_marks(p, i, home, files, now, all, k, y);
    }
}

/// The tier does not matter for where a call comes from.
pub proof fn lemma_source_tier(
    c: CallView,
    d: CallView,
    home: Seq<char>,
    files: Seq<FileView>,
    now: Seq<Seq<u8>>,
)
    requires
        has_source(c, home, files, now),
        d == (CallView { service_tier: d.service_tier, ..c }),
    ensures
        has_source(d, home, files, now),
{
    reveal(has_source);
}

pub proof fn lemma_new_is_told(p: Progress, x: FileContext, events: Seq<EventView>, u: Seq<char>)
    requires
        with_events(p, x, events).store.calls.contains_key(u),
        !p.store.calls.contains_key(u),
    ensures
        is_told_of(p.store, x, events, any_event(), with_events(p, x, events).store.calls[u]),
        with_events(p, x, events).store.calls[u].event_uid == u,
    decreases events.len(),
{
    if events.len() > 0 {
        let init = events.drop_last();
        lemma_events_keep(p, x, init);
        let q = with_events(p, x, init).store;
        let r = with_events(p, x, events).store.calls;
        assert(event_call(q, x, events.last()) == event_call(p.store, x, events.last()));
        if q.calls.contains_key(u) {
            lemma_new_is_told(p, x, init, u);
            lemma_told_one_more(p.store, x, events, any_event(), u, q.calls[u]);
            lemma_told_tier(p.store, x, events, any_event(), q.calls[u], r[u]);
        } else {
            lemma_told_one_more(p.store, x, events, any_event(), u, r[u]);
        }
    }
}

} // verus!
