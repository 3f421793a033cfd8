//! Importing a file as it grows comes to the same calls as importing it at one go.

use vstd::prelude::*;

use crate::agreement::dropped;
use crate::agreement::lemma_covered_sessions;
use crate::agreement::lemma_covering;
use crate::agreement::lemma_legacy_without_id;
use crate::call_table::is_taken;
use crate::import::covered_sessions;
use crate::import::event_call;
use crate::import::file_context;
use crate::import::file_events;
use crate::import::file_reading;
use crate::import::file_start;
use crate::import::is_counted;
use crate::import::lemma_events_keep;
use crate::import::lemma_settings_keep;
use crate::import::settled;
use crate::import::with_changed_file;
use crate::import::with_covered;
use crate::import::with_events;
use crate::import::FileContext;
use crate::import::FileInput;
use crate::import::Progress;
use crate::line::ContentView;
use crate::model::CallView;
use crate::model::EventView;
use crate::model::SourceFormat;
use crate::parser::all_steps;
use crate::parser::first_of;
use crate::parser::lemma_counts_within;
use crate::parser::reading;
use crate::parser::uid_of;
use crate::resume::adopted_all;
use crate::resume::law_resume_reads_the_same;
use crate::resume::law_stretches_tell_the_whole;
use crate::resume::lemma_reading_end;
use crate::resume::lemma_without_header;
use crate::resume::only_line_end;
use crate::scan::has_record_of;
use crate::scan_laws::lemma_records_are_counted;
use crate::store::is_known;
use crate::store::with_call;

verus! {

/// Two calls agree in what counting depends on.
spec fn alike(a: CallView, b: CallView) -> bool {
    &&& a.response_id == b.response_id
    &&& a.source_format == b.source_format
    &&& a.session_id == b.session_id
}

/// Two tables hold calls under the same identities, and alike.
spec fn same_keys(a: Map<Seq<char>, CallView>, b: Map<Seq<char>, CallView>) -> bool {
    &&& forall|u: Seq<char>| a.contains_key(u) == #[trigger] b.contains_key(u)
    &&& forall|u: Seq<char>| a.contains_key(u) ==> alike(a[u], #[trigger] b[u])
}

/// The calls that are not dropped once these sessions are covered.
spec fn rest(m: Map<Seq<char>, CallView>, covered: Set<Seq<char>>) -> Map<Seq<char>, CallView> {
    Map::new(|u: Seq<char>| m.contains_key(u) && !dropped(covered, m[u]), |u: Seq<char>| m[u])
}

/// No call that is dropped has the identity or the response id of the event.
spec fn clear_of(m: Map<Seq<char>, CallView>, covered: Set<Seq<char>>, e: EventView) -> bool {
    forall|u: Seq<char>|
        #[trigger] m.contains_key(u) && dropped(covered, m[u]) ==> u != uid_of(e) && (
        e.response_id is Some ==> m[u].response_id != e.response_id)
}

proof fn lemma_step_same(
    a: Map<Seq<char>, CallView>,
    b: Map<Seq<char>, CallView>,
    c: CallView,
    d: CallView,
)
    requires
        same_keys(a, b),
        c.event_uid == d.event_uid,
        alike(c, d),
    ensures
        same_keys(with_call(a, c), with_call(b, d)),
{
    assert(is_known(a, c) == is_known(b, d)) by {
        if c.response_id is Some {
            let rid = c.response_id->0;
            if is_taken(a, rid) {
                let u = choose|u: Seq<char>|
                    #[trigger] a.contains_key(u) && a[u].response_id == Some(rid);
                assert(b.contains_key(u) && alike(a[u], b[u]));
            }
            if is_taken(b, rid) {
                let u = choose|u: Seq<char>|
                    #[trigger] b.contains_key(u) && b[u].response_id == Some(rid);
                assert(a.contains_key(u) && alike(a[u], b[u]));
            }
        }
        assert(a.contains_key(c.event_uid) == b.contains_key(d.event_uid));
    }
    let x = with_call(a, c);
    let y = with_call(b, d);
    assert forall|u: Seq<char>| x.contains_key(u) == #[trigger] y.contains_key(u) by {
        assert(a.contains_key(u) == b.contains_key(u));
    }
    assert forall|u: Seq<char>| x.contains_key(u) implies alike(x[u], #[trigger] y[u]) by {
        assert(a.contains_key(u) == b.contains_key(u));
        if a.contains_key(u) {
            assert(alike(a[u], b[u]));
        }
    }
}

/// Telling the same events to stores with the same calls, under the same marks, keeps them the
/// same.
proof fn lemma_events_same(
    p: Progress,
    x: FileContext,
    q: Progress,
    y: FileContext,
    events: Seq<EventView>,
)
    requires
        same_keys(p.store.calls, q.store.calls),
        x.primary == y.primary,
        x.primary || p.store.primary_sessions == q.store.primary_sessions,
        x.enrichment.meta.session_id == y.enrichment.meta.session_id,
    ensures
        same_keys(with_events(p, x, events).store.calls, with_events(q, y, events).store.calls),
    decreases events.len(),
{
    if events.len() > 0 {
        let init = events.drop_last();
        lemma_events_same(p, x, q, y, init);
        lemma_events_keep(p, x, init);
        lemma_events_keep(q, y, init);
        let a = with_events(p, x, init);
        let b = with_events(q, y, init);
        let e = events.last();
        if is_counted(a.store, x, e) {
            lemma_step_same(
                a.store.calls,
                b.store.calls,
                event_call(a.store, x, e),
                event_call(b.store, y, e),
            );
        }
    }
}

proof fn lemma_events_join(p: Progress, x: FileContext, a: Seq<EventView>, b: Seq<EventView>)
    ensures
        with_events(p, x, a + b) == with_events(with_events(p, x, a), x, b),
    decreases b.len(),
{
    if b.len() == 0 {
        assert(a + b =~= a);
    } else {
        assert((a + b).drop_last() =~= a + b.drop_last());
        assert((a + b).last() == b.last());
        lemma_events_join(p, x, a, b.drop_last());
    }
}

/// A usage record that no dropped call stands in the way of is taken in alike with and without
/// the dropped calls.
proof fn lemma_rest_record(
    m: Map<Seq<char>, CallView>,
    covered: Set<Seq<char>>,
    c: CallView,
    e: EventView,
)
    requires
        clear_of(m, covered, e),
        c.event_uid == uid_of(e),
        c.response_id == e.response_id,
        c.source_format == SourceFormat::TokenUsageRecord,
    ensures
        same_keys(rest(with_call(m, c), covered), with_call(rest(m, covered), c)),
{
    let r = rest(m, covered);
    assert(is_known(m, c) == is_known(r, c)) by {
        if m.contains_key(c.event_uid) {
            assert(r.contains_key(c.event_uid));
        }
        if c.response_id is Some {
            let rid = c.response_id->0;
            if is_taken(m, rid) {
                let u = choose|u: Seq<char>|
                    #[trigger] m.contains_key(u) && m[u].response_id == Some(rid);
                assert(r.contains_key(u) && r[u].response_id == Some(rid));
            }
            if is_taken(r, rid) {
                let u = choose|u: Seq<char>|
                    #[trigger] r.contains_key(u) && r[u].response_id == Some(rid);
                assert(m.contains_key(u) && m[u].response_id == Some(rid));
            }
        }
    }
    let x = rest(with_call(m, c), covered);
    let y = with_call(r, c);
    assert forall|u: Seq<char>| x.contains_key(u) == #[trigger] y.contains_key(u) by {
        assert(r.contains_key(u) == (m.contains_key(u) && !dropped(covered, m[u])));
    }
    assert forall|u: Seq<char>| x.contains_key(u) implies alike(x[u], #[trigger] y[u]) by {
        assert(y.contains_key(u));
    }
}

/// A call that is dropped anyway leaves the rest as it is.
proof fn lemma_rest_dropped(m: Map<Seq<char>, CallView>, covered: Set<Seq<char>>, c: CallView)
    requires
        dropped(covered, c),
    ensures
        same_keys(rest(with_call(m, c), covered), rest(m, covered)),
{
    let x = rest(with_call(m, c), covered);
    let y = rest(m, covered);
    assert forall|u: Seq<char>| x.contains_key(u) == #[trigger] y.contains_key(u) by {}
    assert forall|u: Seq<char>| x.contains_key(u) implies alike(x[u], #[trigger] y[u]) by {
        assert(y.contains_key(u));
    }
}

/// No call that is dropped later stands in the way of a usage record.
proof fn lemma_stays_clear(
    m: Map<Seq<char>, CallView>,
    covered: Set<Seq<char>>,
    c: CallView,
    e: EventView,
)
    requires
        clear_of(m, covered, e),
        c.source_format == SourceFormat::TokenUsageRecord || c.event_uid != uid_of(e)
            && c.response_id is None,
    ensures
        clear_of(with_call(m, c), covered, e),
{
    let n = with_call(m, c);
    assert forall|u: Seq<char>|
        #[trigger] n.contains_key(u) && dropped(covered, n[u]) implies u != uid_of(e) && (
    e.response_id is Some ==> n[u].response_id != e.response_id) by {
        if m.contains_key(u) {
            assert(alike(m[u], n[u]));
        }
    }
}

/// Events are told to a store whose legacy calls of these sessions are still to be dropped, and
/// to one where they have been: what is left is the same.
proof fn lemma_events_rest(
    p: Progress,
    x: FileContext,
    q: Progress,
    y: FileContext,
    covered: Set<Seq<char>>,
    events: Seq<EventView>,
    n: nat,
)
    requires
        n <= events.len(),
        same_keys(rest(p.store.calls, covered), q.store.calls),
        y.primary,
        x.enrichment.meta.session_id == y.enrichment.meta.session_id,
        forall|j: int|
            0 <= j < events.len() && (#[trigger] events[j]).source_format
                == SourceFormat::LegacyTokenCount && !x.primary ==> {
                let session = first_of(events[j].session_id, x.enrichment.meta.session_id);
                session is Some && covered.contains(session->0)
            },
        forall|j: int|
            0 <= j < events.len() && (#[trigger] events[j]).source_format
                == SourceFormat::TokenUsageRecord ==> clear_of(p.store.calls, covered, events[j]),
        forall|j: int|
            0 <= j < events.len() && (#[trigger] events[j]).source_format
                == SourceFormat::LegacyTokenCount ==> events[j].response_id is None,
        methods_apart(events),
    ensures
        ({
            let told = with_events(p, x, events.take(n as int)).store.calls;
            &&& same_keys(
                rest(told, covered),
                with_events(q, y, events.take(n as int)).store.calls,
            )
            &&& forall|j: int|
                0 <= j < events.len() && (#[trigger] events[j]).source_format
                    == SourceFormat::TokenUsageRecord ==> clear_of(told, covered, events[j])
        }),
    decreases n,
{
    if n > 0 {
        let m = (n - 1) as nat;
        lemma_events_rest(p, x, q, y, covered, events, m);
        let init = events.take(m as int);
        let part = events.take(n as int);
        assert(part.drop_last() =~= init);
        let e = events[n - 1];
        assert(part.last() == e);
        lemma_events_keep(p, x, init);
        lemma_events_keep(q, y, init);
        let a = with_events(p, x, init);
        let b = with_events(q, y, init);
        if is_counted(a.store, x, e) {
            let c = event_call(a.store, x, e);
            let next = with_call(a.store.calls, c);
            assert forall|j: int|
                0 <= j < events.len() && (#[trigger] events[j]).source_format
                    == SourceFormat::TokenUsageRecord implies clear_of(
                next,
                covered,
                events[j],
            ) by {
                lemma_stays_clear(a.store.calls, covered, c, events[j]);
            }
            if e.source_format == SourceFormat::TokenUsageRecord {
                lemma_rest_record(a.store.calls, covered, c, e);
                let d = event_call(b.store, y, e);
                lemma_step_same(rest(a.store.calls, covered), b.store.calls, c, d);
                lemma_same_through(
                    rest(next, covered),
                    with_call(rest(a.store.calls, covered), c),
                    with_call(b.store.calls, d),
                );
            } else {
                lemma_rest_dropped(a.store.calls, covered, c);
                lemma_same_through(
                    rest(next, covered),
                    rest(a.store.calls, covered),
                    b.store.calls,
                );
            }
        }
    }
}

proof fn lemma_same_through(
    a: Map<Seq<char>, CallView>,
    b: Map<Seq<char>, CallView>,
    c: Map<Seq<char>, CallView>,
)
    requires
        same_keys(a, b),
        same_keys(b, c),
    ensures
        same_keys(a, c),
{
    assert forall|u: Seq<char>| a.contains_key(u) == #[trigger] c.contains_key(u) by {
        assert(a.contains_key(u) == b.contains_key(u));
    }
    assert forall|u: Seq<char>| a.contains_key(u) implies alike(a[u], #[trigger] c[u]) by {
        assert(b.contains_key(u));
        assert(alike(a[u], b[u]));
        assert(alike(b[u], c[u]));
    }
}

/// No legacy event has the identity of a usage record.
pub open spec fn methods_apart(events: Seq<EventView>) -> bool {
    forall|i: int, j: int|
        0 <= i < events.len() && 0 <= j < events.len() && (#[trigger] events[i]).source_format
            == SourceFormat::LegacyTokenCount && (#[trigger] events[j]).source_format
            == SourceFormat::TokenUsageRecord ==> uid_of(events[i]) != uid_of(events[j])
}

/// No legacy call of the table has the identity or the response id of a usage record.
pub open spec fn legacy_apart(calls: Map<Seq<char>, CallView>, events: Seq<EventView>) -> bool {
    forall|u: Seq<char>, j: int|
        #![trigger calls.contains_key(u), events[j]]
        calls.contains_key(u) && calls[u].source_format == SourceFormat::LegacyTokenCount && 0 <= j
            < events.len() && events[j].source_format == SourceFormat::TokenUsageRecord ==> u
            != uid_of(events[j]) && (events[j].response_id is Some ==> calls[u].response_id
            != events[j].response_id)
}

pub proof fn lemma_lines_counted(contents: Seq<ContentView>, first: nat)
    requires
        contents.len() <= u64::MAX,
    ensures
        all_steps(contents, first).counters.lines_total == contents.len(),
    decreases contents.len(),
{
    if contents.len() > 0 {
        lemma_lines_counted(contents.drop_last(), first);
    }
}

pub proof fn lemma_records_add_up(a: Seq<ContentView>, b: Seq<ContentView>, first: nat)
    requires
        a.len() + b.len() <= u64::MAX,
    ensures
        all_steps(a + b, first).primary_events == all_steps(a, first).primary_events + all_steps(
            b,
            first + a.len(),
        ).primary_events,
    decreases b.len(),
{
    if b.len() == 0 {
        assert(a + b =~= a);
    } else {
        let init = b.drop_last();
        assert((a + b).drop_last() =~= a + init);
        assert((a + b).last() == b.last());
        lemma_records_add_up(a, init, first);
        lemma_counts_within(a + init, first);
        lemma_counts_within(init, first + a.len());
    }
}

/// What settling a file does to the calls and the marks.
proof fn lemma_settled_calls(p: Progress, i: FileInput)
    ensures
        ({
            let x = file_context(p.store, i);
            let sessions = covered_sessions(
                x.enrichment.meta.session_id,
                file_events(p.store, i),
            );
            let s = settled(p, i).store;
            &&& x.primary ==> s.calls == rest(p.store.calls, sessions.to_set())
            &&& !x.primary ==> s.calls == p.store.calls && s.primary_sessions
                == p.store.primary_sessions
        }),
{
    let x = file_context(p.store, i);
    let sessions = covered_sessions(x.enrichment.meta.session_id, file_events(p.store, i));
    if x.primary {
        let q = with_covered(p, sessions);
        lemma_covering(p, sessions);
        lemma_settings_keep(q.store, x.settings);
        assert(q.store.calls =~= rest(p.store.calls, sessions.to_set()));
    } else {
        lemma_settings_keep(p.store, x.settings);
    }
}

/// A call that is clear of all legacy calls is clear of those that are dropped.
proof fn lemma_apart_is_clear(
    m: Map<Seq<char>, CallView>,
    n: Map<Seq<char>, CallView>,
    covered: Set<Seq<char>>,
    events: Seq<EventView>,
    j: int,
)
    requires
        legacy_apart(m, events),
        0 <= j < events.len(),
        events[j].source_format == SourceFormat::TokenUsageRecord,
        forall|u: Seq<char>| #[trigger] n.contains_key(u) ==> m.contains_key(u) && n[u] == m[u],
    ensures
        clear_of(n, covered, events[j]),
{
    assert forall|u: Seq<char>|
        #[trigger] n.contains_key(u) && dropped(covered, n[u]) implies u != uid_of(events[j]) && (
    events[j].response_id is Some ==> n[u].response_id != events[j].response_id) by {
        assert(m.contains_key(u));
    }
}

pub proof fn lemma_records_of_both(a: Seq<EventView>, b: Seq<EventView>, s: Seq<char>)
    ensures
        has_record_of(a + b, s) <==> has_record_of(a, s) || has_record_of(b, s),
{
    let all = a + b;
    if has_record_of(a, s) {
        let j = choose|j: int|
            0 <= j < a.len() && (#[trigger] a[j]).source_format == SourceFormat::TokenUsageRecord
                && a[j].session_id == Some(s);
        assert(all[j] == a[j]);
    }
    if has_record_of(b, s) {
        let j = choose|j: int|
            0 <= j < b.len() && (#[trigger] b[j]).source_format == SourceFormat::TokenUsageRecord
                && b[j].session_id == Some(s);
        assert(all[a.len() + j] == b[j]);
    }
    if has_record_of(all, s) {
        let j = choose|j: int|
            0 <= j < all.len() && (#[trigger] all[j]).source_format
                == SourceFormat::TokenUsageRecord && all[j].session_id == Some(s);
        if j < a.len() {
            assert(all[j] == a[j]);
        } else {
            assert(all[j] == b[j - a.len()]);
        }
    }
}

/// Where usage records were counted, there are events.
proof fn lemma_records_are_events(contents: Seq<ContentView>, first: nat)
    ensures
        all_steps(contents, first).primary_events > 0 ==> all_steps(
            contents,
            first,
        ).raw_calls.len() > 0,
    decreases contents.len(),
{
    if contents.len() > 0 {
        lemma_records_are_events(contents.drop_last(), first);
    }
}

/// A legacy event has the session of the header, or none.
pub proof fn lemma_legacy_session(contents: Seq<ContentView>, first: nat)
    ensures
        ({
            let r = all_steps(contents, first);
            forall|j: int|
                0 <= j < r.raw_calls.len() && (#[trigger] r.raw_calls[j]).source_format
                    == SourceFormat::LegacyTokenCount ==> r.raw_calls[j].session_id is None
                    || r.raw_calls[j].session_id == r.meta.session_id
        }),
    decreases contents.len(),
{
    if contents.len() > 0 {
        lemma_legacy_session(contents.drop_last(), first);
        lemma_without_header(contents.drop_last(), first);
    }
}

/// A file that has not been imported before, and the same file grown.
pub open spec fn grows(p: Progress, begun: FileInput, grown: FileInput) -> bool {
    &&& begun.rel == grown.rel
    &&& begun.content is Whole
    &&& grown.content is Whole
    &&& begun.content->Whole_0.len() <= grown.content->Whole_0.len()
    &&& begun.content->Whole_0 == grown.content->Whole_0.take(
        begun.content->Whole_0.len() as int,
    )
    &&& grown.file.size == grown.content->Whole_0.len()
    &&& !grown.force_full
    &&& begun.force_full || !p.store.checkpoints.contains_key(begun.rel)
}

/// What was read before and what is read then are the stretches of the file.
proof fn lemma_stretches(p: Progress, begun: FileInput, grown: FileInput)
    requires
        grows(p, begun, grown),
        ({
            let a = reading(begun.content->Whole_0, 0, false);
            a.end == 0 || !a.pending || only_line_end(grown.content->Whole_0, a.end)
        }),
        ({
            let a = reading(begun.content->Whole_0, 0, false);
            let b = reading(grown.content->Whole_0, a.end, a.pending);
            !(all_steps(a.contents, 0).meta_seen && all_steps(
                b.contents,
                a.contents.len(),
            ).meta_seen)
        }),
    ensures
        ({
            let a = reading(begun.content->Whole_0, 0, false);
            let b = reading(grown.content->Whole_0, a.end, a.pending);
            let x = all_steps(a.contents, 0);
            let y = all_steps(b.contents, a.contents.len());
            let q = with_changed_file(p, begun).store;
            let whole = FileInput { force_full: begun.force_full, ..grown };
            &&& a.contents.len() + b.contents.len() <= u64::MAX
            &&& file_reading(p.store, begun).result == x
            &&& file_reading(q, grown).result == y
            &&& file_reading(p.store, whole).result == all_steps(a.contents + b.contents, 0)
            &&& file_start(q, grown).had_primary == (x.primary_events > 0)
            &&& file_events(p.store, begun) == x.raw_calls
            &&& file_events(q, grown) == adopted_all(y.raw_calls, x.meta.session_id)
            &&& file_events(p.store, whole) == x.raw_calls + adopted_all(
                y.raw_calls,
                x.meta.session_id,
            )
            &&& file_context(p.store, begun).enrichment.meta.session_id == x.meta.session_id
            &&& file_context(p.store, whole).enrichment.meta.session_id == if x.meta_seen {
                x.meta.session_id
            } else {
                y.meta.session_id
            }
            &&& file_context(q, grown).enrichment.meta.session_id == if y.meta.session_id is Some {
                y.meta.session_id
            } else {
                x.meta.session_id
            }
        }),
{
    let small = begun.content->Whole_0;
    let large = grown.content->Whole_0;
    let a = reading(small, 0, false);
    let b = reading(large, a.end, a.pending);
    let x = all_steps(a.contents, 0);
    let y = all_steps(b.contents, a.contents.len());
    let q = with_changed_file(p, begun).store;
    let whole = FileInput { force_full: begun.force_full, ..grown };
    lemma_reading_end(small, 0, false);
    lemma_reading_end(large, a.end, a.pending);
    lemma_lines_counted(a.contents, 0);
    law_resume_reads_the_same(small, large, 0, false);
    law_stretches_tell_the_whole(a.contents, b.contents, 0);
    assert(adopted_all(x.raw_calls, None) =~= x.raw_calls);
    let w = all_steps(a.contents + b.contents, 0);
    assert(adopted_all(w.raw_calls, None) =~= w.raw_calls);
    assert(q.checkpoints.contains_key(grown.rel));
    assert(q.checkpoints[grown.rel].last_complete_offset == a.end);
    assert(q.checkpoints[grown.rel].lines_total == a.contents.len());
    if a.end == 0 {
        assert(a.contents.len() == 0);
        assert(x.meta.session_id is None);
    }
}

/// Importing the beginning of a file and then, once it has grown, what lies behind the checkpoint
/// leaves the same calls as importing the grown file at one go, whatever the store holds. Left out
/// are files that go on behind a line taken without its line feed with anything but blanks and a
/// line end; files whose header comes in both stretches, or only behind events of the first one;
/// files that begin with legacy events of no session and turn to usage records; and usage records
/// that share their identity with a legacy event.
#[verifier::rlimit(60)]
pub proof fn law_growing_file_imports_the_same(p: Progress, begun: FileInput, grown: FileInput)
    requires
        grows(p, begun, grown),
        ({
            let a = reading(begun.content->Whole_0, 0, false);
            let b = reading(grown.content->Whole_0, a.end, a.pending);
            let x = all_steps(a.contents, 0);
            let y = all_steps(b.contents, a.contents.len());
            let events = all_steps(reading(grown.content->Whole_0, 0, false).contents, 0).raw_calls;
            &&& a.end == 0 || !a.pending || only_line_end(grown.content->Whole_0, a.end)
            &&& !(x.meta_seen && y.meta_seen)
            &&& y.meta_seen ==> x.raw_calls.len() == 0
            &&& x.primary_events > 0 || y.primary_events == 0 || x.raw_calls.len() == 0
                || x.meta.session_id is Some
            &&& methods_apart(events)
            &&& legacy_apart(p.store.calls, events)
        }),
    ensures
        with_changed_file(with_changed_file(p, begun), grown).store.calls.dom()
            == with_changed_file(
            p,
            FileInput { force_full: begun.force_full, ..grown },
        ).store.calls.dom(),
{
    let small = begun.content->Whole_0;
    let large = grown.content->Whole_0;
    let a = reading(small, 0, false);
    let b = reading(large, a.end, a.pending);
    let x = all_steps(a.contents, 0);
    let y = all_steps(b.contents, a.contents.len());
    let whole = FileInput { force_full: begun.force_full, ..grown };
    lemma_stretches(p, begun, grown);
    lemma_records_add_up(a.contents, b.contents, 0);
    law_resume_reads_the_same(small, large, 0, false);
    let head = x.raw_calls;
    let tail = adopted_all(y.raw_calls, x.meta.session_id);
    let events = head + tail;
    let q = with_changed_file(p, begun);
    let cx = file_context(p.store, begun);
    let cy = file_context(q.store, grown);
    let cw = file_context(p.store, whole);
    let sp = settled(p, begun);
    let sq = settled(q, grown);
    let sw = settled(p, whole);
    let told = with_events(sp, cx, head);
    lemma_settled_calls(p, begun);
    lemma_settled_calls(q, grown);
    lemma_settled_calls(p, whole);
    lemma_events_keep(sp, cx, head);
    lemma_events_join(sw, cw, head, tail);
    lemma_events_keep(sw, cw, head);
    let direct = with_events(sw, cw, head);
    lemma_without_header(a.contents, 0);
    lemma_without_header(b.contents, a.contents.len());
    assert(cy.enrichment.meta.session_id == cw.enrichment.meta.session_id);
    assert(cy.primary == cw.primary);
    assert(events == file_events(p.store, whole));
    if cw.primary {
        let here = covered_sessions(cx.enrichment.meta.session_id, head);
        let then = covered_sessions(cy.enrichment.meta.session_id, tail);
        let all = covered_sessions(cw.enrichment.meta.session_id, events);
        assert forall|s: Seq<char>| #[trigger] all.contains(s) <==> then.contains(s)
            || cx.primary && here.contains(s) by {
            lemma_covered_sessions(cx.enrichment.meta.session_id, head, s);
            lemma_covered_sessions(cy.enrichment.meta.session_id, tail, s);
            lemma_covered_sessions(cw.enrichment.meta.session_id, events, s);
            lemma_records_of_both(head, tail, s);
            lemma_records_are_counted(a.contents, 0);
            lemma_records_are_events(a.contents, 0);
        }
        assert(rest(sp.store.calls, then.to_set()) =~= sw.store.calls);
        if head.len() == 0 {
            assert(with_events(sp, cx, head) == sp);
            assert(with_events(sw, cw, head) == sw);
        } else {
            lemma_legacy_session(a.contents, 0);
            lemma_legacy_without_id(a.contents, 0);
            lemma_records_are_counted(a.contents, 0);
            assert forall|j: int|
                0 <= j < head.len() && (#[trigger] head[j]).source_format
                    == SourceFormat::LegacyTokenCount && !cx.primary implies ({
                let session = first_of(head[j].session_id, cx.enrichment.meta.session_id);
                session is Some && then.to_set().contains(session->0)
            }) by {
                lemma_covered_sessions(
                    cy.enrichment.meta.session_id,
                    tail,
                    x.meta.session_id->0,
                );
            }
            assert forall|j: int|
                0 <= j < head.len() && (#[trigger] head[j]).source_format
                    == SourceFormat::TokenUsageRecord implies clear_of(
                sp.store.calls,
                then.to_set(),
                head[j],
            ) by {
                assert(events[j] == head[j]);
                lemma_apart_is_clear(p.store.calls, sp.store.calls, then.to_set(), events, j);
            }
            assert(methods_apart(head)) by {
                assert forall|i: int, j: int|
                    0 <= i < head.len() && 0 <= j < head.len() && (
                    #[trigger] head[i]).source_format == SourceFormat::LegacyTokenCount && (
                    #[trigger] head[j]).source_format == SourceFormat::TokenUsageRecord implies uid_of(
                    head[i],
                ) != uid_of(head[j]) by {
                    assert(events[i] == head[i] && events[j] == head[j]);
                }
            }
            assert(head.take(head.len() as int) =~= head);
            lemma_events_rest(sp, cx, sw, cw, then.to_set(), head, head.len());
        }
        assert(same_keys(rest(told.store.calls, then.to_set()), direct.store.calls));
        lemma_events_same(sq, cy, direct, cw, tail);
    } else {
        if head.len() == 0 {
            assert(with_events(sp, cx, head) == sp);
            assert(with_events(sw, cw, head) == sw);
        } else {
            lemma_events_same(sp, cx, sw, cw, head);
        }
        lemma_events_same(sq, cy, direct, cw, tail);
    }
    assert(with_changed_file(q, grown).store.calls.dom() =~= with_changed_file(
        p,
        whole,
    ).store.calls.dom()) by {
        assert forall|u: Seq<char>|
            with_changed_file(q, grown).store.calls.contains_key(u) == with_changed_file(
                p,
                whole,
            ).store.calls.contains_key(u) by {}
    }
}

} // verus!
