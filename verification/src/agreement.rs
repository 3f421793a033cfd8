//! A full import holds the very calls that a scan counts.

use vstd::prelude::*;

use crate::call_table::is_taken;
use crate::discovery::relative_to;
use crate::discovery::FileView;
use crate::import::covered_sessions;
use crate::import::event_call;
use crate::import::file_context;
use crate::import::file_events;
use crate::import::imported;
use crate::import::is_counted;
use crate::import::legacy_of;
use crate::import::lemma_events_keep;
use crate::import::lemma_settings_keep;
use crate::import::prepared;
use crate::import::settled;
use crate::import::with_changed_file;
use crate::import::with_covered;
use crate::import::with_events;
use crate::import::with_files;
use crate::import::with_state;
use crate::import::FileContext;
use crate::import::FileInput;
use crate::import::Progress;
use crate::line::ContentView;
use crate::model::CallView;
use crate::model::EventView;
use crate::model::ResultView;
use crate::model::SourceFormat;
use crate::parser::all_steps;
use crate::parser::first_of;
use crate::parser::parsed;
use crate::parser::reading;
use crate::parser::uid_of;
use crate::parser::whole_lines;
use crate::parser::FileContentView;
use crate::pricing::PricingEngine;
use crate::pricing::RuleView;
use crate::scan::call_key;
use crate::scan::candidates;
use crate::scan::covers;
use crate::scan::event_counts;
use crate::scan::file_calls;
use crate::scan::firsts;
use crate::scan::has_call_key;
use crate::scan::has_record_of;
use crate::scan::is_primary;
use crate::scan::results_of;
use crate::scan::scan_call;
use crate::scan::scanned_calls;
use crate::scan_laws::law_each_key_once;
use crate::scan_laws::lemma_firsts_are_calls;
use crate::state::ThreadView;
use crate::store::is_known;
use crate::store::with_call;
use crate::store::StoreView;

verus! {

/// An event counts where these sessions are covered.
pub open spec fn counts_under(p: Set<Seq<char>>, r: ResultView, e: EventView) -> bool {
    ||| e.source_format == SourceFormat::TokenUsageRecord
    ||| r.primary_events == 0 && {
        let session = first_of(e.session_id, r.meta.session_id);
        !(session is Some && p.contains(session->0))
    }
}

/// The calls of the first `n` events of a file that count where these sessions are covered.
spec fn file_cands(p: Set<Seq<char>>, r: ResultView, f: FileView, n: nat) -> Seq<CallView>
    decreases n,
{
    if n == 0 {
        Seq::empty()
    } else {
        let init = file_cands(p, r, f, (n - 1) as nat);
        let e = r.raw_calls[n - 1];
        if counts_under(p, r, e) {
            init.push(scan_call(r, f, e))
        } else {
            init
        }
    }
}

/// The calls of the first `n` files that count where these sessions are covered.
spec fn cands(
    p: Set<Seq<char>>,
    results: Seq<ResultView>,
    files: Seq<FileView>,
    n: nat,
) -> Seq<CallView>
    decreases n,
{
    if n == 0 {
        Seq::empty()
    } else {
        cands(p, results, files, (n - 1) as nat) + file_cands(
            p,
            results[n - 1],
            files[n - 1],
            results[n - 1].raw_calls.len(),
        )
    }
}

/// The sessions that the first `n` files cover.
spec fn covered_by(results: Seq<ResultView>, n: int) -> Set<Seq<char>> {
    Set::new(|x: Seq<char>| is_primary(results.take(n), x))
}

proof fn lemma_file_cands_are_calls(
    results: Seq<ResultView>,
    r: ResultView,
    f: FileView,
    n: nat,
)
    requires
        n <= r.raw_calls.len(),
    ensures
        file_cands(covered_by(results, results.len() as int), r, f, n) == file_calls(
            results,
            r,
            f,
            n,
        ),
    decreases n,
{
    if n > 0 {
        lemma_file_cands_are_calls(results, r, f, (n - 1) as nat);
        assert(results.take(results.len() as int) =~= results);
        let e = r.raw_calls[n - 1];
        assert(counts_under(covered_by(results, results.len() as int), r, e) == event_counts(
            results,
            r,
            e,
        ));
    }
}

proof fn lemma_cands_are_candidates(results: Seq<ResultView>, files: Seq<FileView>, n: nat)
    requires
        n <= results.len(),
    ensures
        cands(covered_by(results, results.len() as int), results, files, n) == candidates(
            results,
            files,
            n,
        ),
    decreases n,
{
    if n > 0 {
        lemma_cands_are_candidates(results, files, (n - 1) as nat);
        lemma_file_cands_are_calls(
            results,
            results[n - 1],
            files[n - 1],
            results[n - 1].raw_calls.len(),
        );
    }
}

/// A legacy call of a session that is covered.
pub open spec fn dropped(p: Set<Seq<char>>, c: CallView) -> bool {
    c.source_format == SourceFormat::LegacyTokenCount && c.session_id is Some && p.contains(
        c.session_id->0,
    )
}

/// The calls that are not dropped.
spec fn undropped(p: Set<Seq<char>>, calls: Seq<CallView>) -> Seq<CallView>
    decreases calls.len(),
{
    if calls.len() == 0 {
        Seq::empty()
    } else if dropped(p, calls.last()) {
        undropped(p, calls.drop_last())
    } else {
        undropped(p, calls.drop_last()).push(calls.last())
    }
}

proof fn lemma_undropped_join(p: Set<Seq<char>>, a: Seq<CallView>, b: Seq<CallView>)
    ensures
        undropped(p, a + b) == undropped(p, a) + undropped(p, b),
    decreases b.len(),
{
    if b.len() == 0 {
        assert(a + b =~= a);
        assert(undropped(p, a) + undropped(p, b) =~= undropped(p, a));
    } else {
        lemma_undropped_join(p, a, b.drop_last());
        assert((a + b).drop_last() =~= a + b.drop_last());
        assert((a + b).last() == b.last());
        assert(undropped(p, a + b) =~= undropped(p, a) + undropped(p, b));
    }
}

proof fn lemma_file_cands_grow(
    p: Set<Seq<char>>,
    q: Set<Seq<char>>,
    r: ResultView,
    f: FileView,
    n: nat,
)
    requires
        p.subset_of(q),
    ensures
        file_cands(q, r, f, n) == undropped(q, file_cands(p, r, f, n)),
    decreases n,
{
    if n > 0 {
        lemma_file_cands_grow(p, q, r, f, (n - 1) as nat);
        let init = file_cands(p, r, f, (n - 1) as nat);
        let e = r.raw_calls[n - 1];
        let c = scan_call(r, f, e);
        assert(init.push(c).drop_last() =~= init);
    }
}

proof fn lemma_cands_grow(
    p: Set<Seq<char>>,
    q: Set<Seq<char>>,
    results: Seq<ResultView>,
    files: Seq<FileView>,
    n: nat,
)
    requires
        p.subset_of(q),
    ensures
        cands(q, results, files, n) == undropped(q, cands(p, results, files, n)),
    decreases n,
{
    if n > 0 {
        lemma_cands_grow(p, q, results, files, (n - 1) as nat);
        let r = results[n - 1];
        let f = files[n - 1];
        lemma_file_cands_grow(p, q, r, f, r.raw_calls.len());
        lemma_undropped_join(
            q,
            cands(p, results, files, (n - 1) as nat),
            file_cands(p, r, f, r.raw_calls.len()),
        );
    }
}

/// Two calls have the same key exactly where they have the same response id, or neither has one
/// and they have the same identity.
pub proof fn lemma_same_key(a: CallView, b: CallView)
    ensures
        call_key(a) == call_key(b) <==> a.response_id == b.response_id && (a.response_id is Some
            || a.event_uid == b.event_uid),
{
    reveal_strlit("rid:");
    reveal_strlit("uid:");
    assert("rid:"@.len() == 4 && "uid:"@.len() == 4);
    assert("rid:"@[0] == 'r' && "uid:"@[0] == 'u');
    let (x, y) = (call_key(a), call_key(b));
    assert(x[0] == if a.response_id is Some {
        'r'
    } else {
        'u'
    });
    assert(y[0] == if b.response_id is Some {
        'r'
    } else {
        'u'
    });
    assert(x.skip(4) =~= match a.response_id {
        Some(rid) => rid,
        None => a.event_uid,
    });
    assert(y.skip(4) =~= match b.response_id {
        Some(rid) => rid,
        None => b.event_uid,
    });
}

/// Calls with one identity agree in all that counting depends on, and legacy calls have no
/// response id.
pub open spec fn tells_apart(calls: Seq<CallView>) -> bool {
    &&& forall|i: int, j: int|
        0 <= i < calls.len() && 0 <= j < calls.len() && (#[trigger] calls[i]).event_uid == (
        #[trigger] calls[j]).event_uid ==> {
            &&& calls[i].response_id == calls[j].response_id
            &&& calls[i].source_format == calls[j].source_format
            &&& calls[i].session_id == calls[j].session_id
        }
    &&& forall|i: int|
        0 <= i < calls.len() && (#[trigger] calls[i]).source_format
            == SourceFormat::LegacyTokenCount ==> calls[i].response_id is None
}

/// Every call of the one list is among those of the other.
spec fn among(part: Seq<CallView>, all: Seq<CallView>) -> bool {
    forall|i: int| 0 <= i < part.len() ==> all.contains(#[trigger] part[i])
}

proof fn lemma_among_tells_apart(part: Seq<CallView>, all: Seq<CallView>)
    requires
        among(part, all),
        tells_apart(all),
    ensures
        tells_apart(part),
{
    assert forall|i: int, j: int|
        0 <= i < part.len() && 0 <= j < part.len() && (#[trigger] part[i]).event_uid == (
        #[trigger] part[j]).event_uid implies ({
        &&& part[i].response_id == part[j].response_id
        &&& part[i].source_format == part[j].source_format
        &&& part[i].session_id == part[j].session_id
    }) by {
        assert(all.contains(part[i]) && all.contains(part[j]));
        let x = choose|x: int| 0 <= x < all.len() && all[x] == part[i];
        let y = choose|y: int| 0 <= y < all.len() && all[y] == part[j];
        assert(all[x].event_uid == all[y].event_uid);
    }
    assert forall|i: int|
        0 <= i < part.len() && (#[trigger] part[i]).source_format
            == SourceFormat::LegacyTokenCount implies part[i].response_id is None by {
        assert(all.contains(part[i]));
        let x = choose|x: int| 0 <= x < all.len() && all[x] == part[i];
        assert(all[x].source_format == SourceFormat::LegacyTokenCount);
    }
}

proof fn lemma_undropped_among(p: Set<Seq<char>>, calls: Seq<CallView>)
    ensures
        among(undropped(p, calls), calls),
        forall|i: int|
            0 <= i < undropped(p, calls).len() ==> !dropped(p, #[trigger] undropped(p, calls)[i]),
        forall|i: int|
            0 <= i < calls.len() && !dropped(p, #[trigger] calls[i]) ==> undropped(
                p,
                calls,
            ).contains(calls[i]),
    decreases calls.len(),
{
    if calls.len() > 0 {
        let init = calls.drop_last();
        lemma_undropped_among(p, init);
        let a = undropped(p, init);
        let b = undropped(p, calls);
        assert forall|i: int| 0 <= i < b.len() implies calls.contains(#[trigger] b[i]) by {
            if i < a.len() {
                assert(b[i] == a[i]);
                assert(init.contains(a[i]));
                let x = choose|x: int| 0 <= x < init.len() && init[x] == a[i];
                assert(calls[x] == b[i]);
            } else {
                assert(calls[calls.len() - 1] == b[i]);
            }
        }
        assert forall|i: int| 0 <= i < b.len() implies !dropped(p, #[trigger] b[i]) by {
            if i < a.len() {
                assert(b[i] == a[i]);
            }
        }
        assert forall|i: int|
            0 <= i < calls.len() && !dropped(p, #[trigger] calls[i]) implies b.contains(
            calls[i],
        ) by {
            if i < init.len() {
                assert(init[i] == calls[i]);
                assert(a.contains(init[i]));
                let x = choose|x: int| 0 <= x < a.len() && a[x] == init[i];
                assert(b[x] == calls[i]);
            } else {
                assert(b[a.len() as int] == calls[i]);
            }
        }
    }
}

/// The first of each key among the calls that are not dropped are those that are not dropped
/// among the first of each key.
proof fn lemma_firsts_undropped(p: Set<Seq<char>>, calls: Seq<CallView>)
    requires
        tells_apart(calls),
    ensures
        firsts(undropped(p, calls)) == undropped(p, firsts(calls)),
    decreases calls.len(),
{
    if calls.len() > 0 {
        let init = calls.drop_last();
        let c = calls.last();
        assert(among(init, calls)) by {
            assert forall|i: int| 0 <= i < init.len() implies calls.contains(
                #[trigger] init[i],
            ) by {
                assert(calls[i] == init[i]);
            }
        }
        lemma_among_tells_apart(init, calls);
        lemma_firsts_undropped(p, init);
        let u = undropped(p, init);
        lemma_undropped_among(p, init);
        let k = call_key(c);
        if !dropped(p, c) {
            assert(u.push(c).drop_last() =~= u);
            if has_call_key(init, k) {
                let i = choose|i: int| 0 <= i < init.len() && call_key(#[trigger] init[i]) == k;
                lemma_same_key(init[i], c);
                assert(init[i] == calls[i]);
                assert(calls[calls.len() - 1] == c);
                assert(!dropped(p, init[i])) by {
                    if init[i].response_id is None {
                        assert(calls[i].event_uid == calls[calls.len() - 1].event_uid);
                    } else {
                        assert(calls[i].source_format != SourceFormat::LegacyTokenCount);
                    }
                }
                assert(u.contains(init[i]));
                let x = choose|x: int| 0 <= x < u.len() && u[x] == init[i];
                assert(call_key(u[x]) == k);
            } else {
                if has_call_key(u, k) {
                    let x = choose|x: int| 0 <= x < u.len() && call_key(#[trigger] u[x]) == k;
                    assert(init.contains(u[x]));
                    let i = choose|i: int| 0 <= i < init.len() && init[i] == u[x];
                    assert(call_key(init[i]) == k);
                }
                assert(firsts(init).push(c).drop_last() =~= firsts(init));
            }
        } else if !has_call_key(init, k) {
            assert(firsts(init).push(c).drop_last() =~= firsts(init));
        }
    }
}

/// The store holds exactly these calls, as far as counting depends on them.
spec fn holds_calls(calls: Map<Seq<char>, CallView>, list: Seq<CallView>) -> bool {
    &&& forall|u: Seq<char>|
        #[trigger] calls.contains_key(u) <==> exists|i: int|
            0 <= i < list.len() && (#[trigger] list[i]).event_uid == u
    &&& forall|i: int|
        0 <= i < list.len() ==> {
            let c = calls[(#[trigger] list[i]).event_uid];
            &&& c.response_id == list[i].response_id
            &&& c.source_format == list[i].source_format
            &&& c.session_id == list[i].session_id
        }
}

/// One more call: the store and the list take it in alike.
proof fn lemma_take_in(
    calls: Map<Seq<char>, CallView>,
    before: Seq<CallView>,
    c: CallView,
    d: CallView,
)
    requires
        tells_apart(before.push(d)),
        holds_calls(calls, firsts(before)),
        c.event_uid == d.event_uid,
        c.response_id == d.response_id,
        c.source_format == d.source_format,
        c.session_id == d.session_id,
    ensures
        holds_calls(with_call(calls, c), firsts(before.push(d))),
{
    let list = firsts(before);
    let all = before.push(d);
    assert(all.drop_last() =~= before);
    law_each_key_once(before);
    let k = call_key(d);
    let m = with_call(calls, c);
    assert(is_known(calls, c) <==> has_call_key(before, k)) by {
        if calls.contains_key(c.event_uid) {
            let i = choose|i: int|
                0 <= i < list.len() && (#[trigger] list[i]).event_uid == c.event_uid;
            lemma_firsts_are_calls(before, i);
            let x = choose|x: int| 0 <= x < before.len() && #[trigger] before[x] == list[i];
            assert(all[x] == before[x] && all[before.len() as int] == d);
            assert(all[x].event_uid == all[before.len() as int].event_uid);
            lemma_same_key(before[x], d);
            assert(call_key(before[x]) == k);
        }
        if c.response_id is Some && is_taken(calls, c.response_id->0) {
            let u = choose|u: Seq<char>|
                #[trigger] calls.contains_key(u) && calls[u].response_id == c.response_id;
            let i = choose|i: int| 0 <= i < list.len() && (#[trigger] list[i]).event_uid == u;
            lemma_firsts_are_calls(before, i);
            let x = choose|x: int| 0 <= x < before.len() && #[trigger] before[x] == list[i];
            lemma_same_key(before[x], d);
            assert(call_key(before[x]) == k);
        }
        if has_call_key(before, k) {
            assert(has_call_key(list, k));
            let i = choose|i: int| 0 <= i < list.len() && call_key(#[trigger] list[i]) == k;
            lemma_same_key(list[i], d);
            assert(calls.contains_key(list[i].event_uid));
            if d.response_id is Some {
                assert(is_taken(calls, d.response_id->0));
            }
        }
    }
    if is_known(calls, c) {
        assert(firsts(all) == list);
        assert forall|u: Seq<char>| #[trigger] m.contains_key(u) <==> exists|i: int|
            0 <= i < list.len() && (#[trigger] list[i]).event_uid == u by {
            assert(m.contains_key(u) == calls.contains_key(u));
        }
    } else {
        let longer = list.push(d);
        assert(firsts(all) == longer);
        assert(m == calls.insert(c.event_uid, c));
        assert forall|u: Seq<char>| #[trigger] m.contains_key(u) <==> exists|i: int|
            0 <= i < longer.len() && (#[trigger] longer[i]).event_uid == u by {
            if calls.contains_key(u) {
                let i = choose|i: int| 0 <= i < list.len() && (#[trigger] list[i]).event_uid == u;
                assert(longer[i].event_uid == u);
            }
            if u == c.event_uid {
                assert(longer[list.len() as int].event_uid == u);
            }
            if exists|i: int| 0 <= i < longer.len() && (#[trigger] longer[i]).event_uid == u {
                let i = choose|i: int|
                    0 <= i < longer.len() && (#[trigger] longer[i]).event_uid == u;
                if i < list.len() {
                    assert(list[i].event_uid == u);
                }
            }
        }
        assert forall|i: int| 0 <= i < longer.len() implies ({
            let x = m[(#[trigger] longer[i]).event_uid];
            &&& x.response_id == longer[i].response_id
            &&& x.source_format == longer[i].source_format
            &&& x.session_id == longer[i].session_id
        }) by {
            if i < list.len() {
                assert(longer[i] == list[i]);
                assert(calls.contains_key(list[i].event_uid));
            }
        }
    }
}

/// Where the calls of a file are taken in one by one, the store and the list agree.
proof fn lemma_events_agree(
    p: Progress,
    x: FileContext,
    r: ResultView,
    f: FileView,
    before: Seq<CallView>,
    n: nat,
)
    requires
        n <= r.raw_calls.len(),
        x.primary == (r.primary_events > 0),
        x.enrichment.meta.session_id == r.meta.session_id,
        holds_calls(p.store.calls, firsts(before)),
        tells_apart(before + file_cands(p.store.primary_sessions, r, f, n)),
    ensures
        holds_calls(
            with_events(p, x, r.raw_calls.take(n as int)).store.calls,
            firsts(before + file_cands(p.store.primary_sessions, r, f, n)),
        ),
    decreases n,
{
    let marks = p.store.primary_sessions;
    if n == 0 {
        assert(before + file_cands(marks, r, f, 0) =~= before);
    } else {
        let m = (n - 1) as nat;
        let init = file_cands(marks, r, f, m);
        let e = r.raw_calls[n - 1];
        let events = r.raw_calls.take(n as int);
        assert(events.drop_last() =~= r.raw_calls.take(m as int));
        assert(events.last() == e);
        let list = before + file_cands(marks, r, f, n);
        let shorter = before + init;
        assert(among(shorter, list)) by {
            assert forall|i: int| 0 <= i < shorter.len() implies list.contains(
                #[trigger] shorter[i],
            ) by {
                assert(list[i] == shorter[i]);
            }
        }
        lemma_among_tells_apart(shorter, list);
        lemma_events_agree(p, x, r, f, before, m);
        lemma_events_keep(p, x, r.raw_calls.take(m as int));
        let q = with_events(p, x, r.raw_calls.take(m as int));
        assert(is_counted(q.store, x, e) == counts_under(marks, r, e));
        if is_counted(q.store, x, e) {
            let c = event_call(q.store, x, e);
            let d = scan_call(r, f, e);
            assert(list =~= shorter.push(d));
            lemma_take_in(q.store.calls, shorter, c, d);
        }
    }
}

/// What covering sessions does to the store.
pub proof fn lemma_covering(p: Progress, sessions: Seq<Seq<char>>)
    ensures
        forall|s: Seq<char>|
            #[trigger] with_covered(p, sessions).store.primary_sessions.contains(s)
                <==> p.store.primary_sessions.contains(s) || sessions.contains(s),
        forall|u: Seq<char>|
            #[trigger] with_covered(p, sessions).store.calls.contains_key(u)
                <==> p.store.calls.contains_key(u) && !(p.store.calls[u].source_format
                == SourceFormat::LegacyTokenCount && p.store.calls[u].session_id is Some
                && sessions.contains(p.store.calls[u].session_id->0)),
        forall|u: Seq<char>|
            #[trigger] with_covered(p, sessions).store.calls.contains_key(u) ==> with_covered(
                p,
                sessions,
            ).store.calls[u] == p.store.calls[u],
    decreases sessions.len(),
{
    if sessions.len() > 0 {
        let init = sessions.drop_last();
        let last = sessions.last();
        lemma_covering(p, init);
        let q = with_covered(p, init).store;
        let r = with_covered(p, sessions).store;
        assert forall|s: Seq<char>| sessions.contains(s) <==> init.contains(s) || s == last by {
            if init.contains(s) {
                let i = choose|i: int| 0 <= i < init.len() && init[i] == s;
                assert(sessions[i] == s);
            }
            assert(sessions[sessions.len() - 1] == last);
            if sessions.contains(s) && s != last {
                let i = choose|i: int| 0 <= i < sessions.len() && sessions[i] == s;
                assert(init[i] == s);
            }
        }
        assert forall|s: Seq<char>|
            #[trigger] r.primary_sessions.contains(s) <==> p.store.primary_sessions.contains(s)
                || sessions.contains(s) by {
            assert(r.primary_sessions.contains(s) <==> q.primary_sessions.contains(s) || s == last);
        }
        assert forall|u: Seq<char>|
            #[trigger] r.calls.contains_key(u) <==> p.store.calls.contains_key(u) && !(
            p.store.calls[u].source_format == SourceFormat::LegacyTokenCount
                && p.store.calls[u].session_id is Some && sessions.contains(
                p.store.calls[u].session_id->0,
            )) by {
            assert(r.calls.contains_key(u) <==> q.calls.contains_key(u) && !legacy_of(last)(
                q.calls[u],
            ));
        }
    } else {
        assert(forall|s: Seq<char>| !sessions.contains(s));
    }
}

/// The sessions that a file covers.
pub proof fn lemma_covered_sessions(meta_session: Option<Seq<char>>, events: Seq<EventView>, s: Seq<char>)
    ensures
        covered_sessions(meta_session, events).contains(s) <==> meta_session == Some(s)
            || has_record_of(events, s),
    decreases events.len(),
{
    let all = covered_sessions(meta_session, events);
    if events.len() == 0 {
        if meta_session is Some {
            assert(all[0] == meta_session->0);
        }
    } else {
        let head = events.drop_last();
        let init = covered_sessions(meta_session, head);
        let e = events.last();
        lemma_covered_sessions(meta_session, head, s);
        if init.contains(s) {
            let i = choose|i: int| 0 <= i < init.len() && init[i] == s;
            assert(all[i] == s);
        }
        if has_record_of(head, s) {
            let j = choose|j: int|
                0 <= j < head.len() && (#[trigger] head[j]).source_format
                    == SourceFormat::TokenUsageRecord && head[j].session_id == Some(s);
            assert(events[j] == head[j]);
        }
        assert(events[events.len() - 1] == e);
        if has_record_of(events, s) {
            let j = choose|j: int|
                0 <= j < events.len() && (#[trigger] events[j]).source_format
                    == SourceFormat::TokenUsageRecord && events[j].session_id == Some(s);
            if j < head.len() {
                assert(head[j] == events[j]);
            } else if !init.contains(s) {
                assert(all[init.len() as int] == s);
            }
        }
        if all.contains(s) && !init.contains(s) {
            let i = choose|i: int| 0 <= i < all.len() && all[i] == s;
            if i < init.len() {
                assert(init[i] == s);
            }
        }
    }
}

/// Dropping calls of the store drops them from the list.
proof fn lemma_drop_agrees(
    p: Set<Seq<char>>,
    calls: Map<Seq<char>, CallView>,
    rest: Map<Seq<char>, CallView>,
    list: Seq<CallView>,
)
    requires
        holds_calls(calls, list),
        forall|u: Seq<char>|
            #[trigger] rest.contains_key(u) <==> calls.contains_key(u) && !dropped(p, calls[u]),
        forall|u: Seq<char>| #[trigger] rest.contains_key(u) ==> rest[u] == calls[u],
    ensures
        holds_calls(rest, undropped(p, list)),
{
    let u = undropped(p, list);
    lemma_undropped_among(p, list);
    assert forall|k: Seq<char>| #[trigger] rest.contains_key(k) <==> exists|i: int|
        0 <= i < u.len() && (#[trigger] u[i]).event_uid == k by {
        if rest.contains_key(k) {
            assert(calls.contains_key(k));
            let i = choose|i: int| 0 <= i < list.len() && (#[trigger] list[i]).event_uid == k;
            assert(!dropped(p, list[i]));
            assert(u.contains(list[i]));
            let x = choose|x: int| 0 <= x < u.len() && u[x] == list[i];
            assert(u[x].event_uid == k);
        }
        if exists|i: int| 0 <= i < u.len() && (#[trigger] u[i]).event_uid == k {
            let i = choose|i: int| 0 <= i < u.len() && (#[trigger] u[i]).event_uid == k;
            assert(list.contains(u[i]));
            let x = choose|x: int| 0 <= x < list.len() && list[x] == u[i];
            assert(list[x].event_uid == k);
            assert(calls.contains_key(k));
            assert(!dropped(p, u[i]));
        }
    }
    assert forall|i: int| 0 <= i < u.len() implies ({
        let c = rest[(#[trigger] u[i]).event_uid];
        &&& c.response_id == u[i].response_id
        &&& c.source_format == u[i].source_format
        &&& c.session_id == u[i].session_id
    }) by {
        assert(list.contains(u[i]));
        let x = choose|x: int| 0 <= x < list.len() && list[x] == u[i];
        assert(list[x] == u[i]);
        assert(rest.contains_key(u[i].event_uid));
    }
}

/// Where an identity tells an event: events with the same one agree in their response id, their
/// format and their session.
pub open spec fn identities_tell(results: Seq<ResultView>) -> bool {
    forall|i: int, j: int, k: int, l: int|
        #![trigger results[i].raw_calls[j], results[k].raw_calls[l]]
        0 <= i < results.len() && 0 <= j < results[i].raw_calls.len() && 0 <= k < results.len()
            && 0 <= l < results[k].raw_calls.len() && uid_of(results[i].raw_calls[j]) == uid_of(
            results[k].raw_calls[l],
        ) ==> {
            let (e, d) = (results[i].raw_calls[j], results[k].raw_calls[l]);
            &&& e.response_id == d.response_id
            &&& e.source_format == d.source_format
            &&& first_of(e.session_id, results[i].meta.session_id) == first_of(
                d.session_id,
                results[k].meta.session_id,
            )
        }
}

/// Legacy events have no response id.
spec fn legacy_without_id(results: Seq<ResultView>) -> bool {
    forall|i: int, j: int|
        #![trigger results[i].raw_calls[j]]
        0 <= i < results.len() && 0 <= j < results[i].raw_calls.len()
            && results[i].raw_calls[j].source_format == SourceFormat::LegacyTokenCount
            ==> results[i].raw_calls[j].response_id is None
}

pub proof fn lemma_legacy_without_id(contents: Seq<ContentView>, first: nat)
    ensures
        ({
            let events = all_steps(contents, first).raw_calls;
            forall|j: int|
                0 <= j < events.len() && (#[trigger] events[j]).source_format
                    == SourceFormat::LegacyTokenCount ==> events[j].response_id is None
        }),
    decreases contents.len(),
{
    if contents.len() > 0 {
        lemma_legacy_without_id(contents.drop_last(), first);
    }
}

proof fn lemma_results_legacy_without_id(contents: Seq<FileContentView>)
    ensures
        legacy_without_id(results_of(contents)),
{
    let results = results_of(contents);
    assert forall|i: int, j: int|
        #![trigger results[i].raw_calls[j]]
        0 <= i < results.len() && 0 <= j < results[i].raw_calls.len()
            && results[i].raw_calls[j].source_format == SourceFormat::LegacyTokenCount
            implies results[i].raw_calls[j].response_id is None by {
        match contents[i] {
            FileContentView::Whole(bytes) => {
                lemma_legacy_without_id(reading(bytes, 0, false).contents, 0);
            },
            FileContentView::Broken(bytes, e) => {
                lemma_legacy_without_id(reading(whole_lines(bytes), 0, false).contents, 0);
            },
            FileContentView::Unreadable(e) => {},
        }
    }
}

/// A call of the list comes from an event of some file.
proof fn lemma_file_cand_source(p: Set<Seq<char>>, r: ResultView, f: FileView, n: nat, x: int) -> (j:
    int)
    requires
        n <= r.raw_calls.len(),
        0 <= x < file_cands(p, r, f, n).len(),
    ensures
        0 <= j < n,
        file_cands(p, r, f, n)[x] == scan_call(r, f, r.raw_calls[j]),
    decreases n,
{
    if n == 0 {
        0
    } else if x < file_cands(p, r, f, (n - 1) as nat).len() {
        lemma_file_cand_source(p, r, f, (n - 1) as nat, x)
    } else {
        n - 1
    }
}

proof fn lemma_cand_source(
    p: Set<Seq<char>>,
    results: Seq<ResultView>,
    files: Seq<FileView>,
    n: nat,
    x: int,
) -> (at: (int, int))
    requires
        n <= results.len(),
        0 <= x < cands(p, results, files, n).len(),
    ensures
        0 <= at.0 < n,
        0 <= at.1 < results[at.0].raw_calls.len(),
        cands(p, results, files, n)[x] == scan_call(
            results[at.0],
            files[at.0],
            results[at.0].raw_calls[at.1],
        ),
    decreases n,
{
    if n == 0 {
        (0, 0)
    } else {
        let init = cands(p, results, files, (n - 1) as nat);
        if x < init.len() {
            lemma_cand_source(p, results, files, (n - 1) as nat, x)
        } else {
            let r = results[n - 1];
            let j = lemma_file_cand_source(
                p,
                r,
                files[n - 1],
                r.raw_calls.len(),
                x - init.len(),
            );
            (n - 1, j)
        }
    }
}

proof fn lemma_cands_tell_apart(
    p: Set<Seq<char>>,
    results: Seq<ResultView>,
    files: Seq<FileView>,
    n: nat,
)
    requires
        n <= results.len(),
        identities_tell(results),
        legacy_without_id(results),
    ensures
        tells_apart(cands(p, results, files, n)),
{
    let calls = cands(p, results, files, n);
    assert forall|i: int, j: int|
        0 <= i < calls.len() && 0 <= j < calls.len() && (#[trigger] calls[i]).event_uid == (
        #[trigger] calls[j]).event_uid implies ({
        &&& calls[i].response_id == calls[j].response_id
        &&& calls[i].source_format == calls[j].source_format
        &&& calls[i].session_id == calls[j].session_id
    }) by {
        let (a, b) = lemma_cand_source(p, results, files, n, i);
        let (c, d) = lemma_cand_source(p, results, files, n, j);
        assert(uid_of(results[a].raw_calls[b]) == uid_of(results[c].raw_calls[d]));
    }
    assert forall|i: int|
        0 <= i < calls.len() && (#[trigger] calls[i]).source_format
            == SourceFormat::LegacyTokenCount implies calls[i].response_id is None by {
        let (a, b) = lemma_cand_source(p, results, files, n, i);
        assert(results[a].raw_calls[b].source_format == SourceFormat::LegacyTokenCount);
    }
}

/// The calls that count are not dropped.
proof fn lemma_cands_undropped(
    p: Set<Seq<char>>,
    results: Seq<ResultView>,
    files: Seq<FileView>,
    n: nat,
    i: int,
)
    requires
        0 <= i < firsts(cands(p, results, files, n)).len(),
    ensures
        !dropped(p, firsts(cands(p, results, files, n))[i]),
{
    let all = cands(p, results, files, n);
    lemma_cands_grow(p, p, results, files, n);
    lemma_undropped_among(p, all);
    lemma_firsts_are_calls(all, i);
    let x = choose|x: int| 0 <= x < all.len() && #[trigger] all[x] == firsts(all)[i];
    assert(!dropped(p, undropped(p, all)[x]));
}

/// One more file covers one more file's sessions.
proof fn lemma_covered_by_step(results: Seq<ResultView>, k: int, s: Seq<char>)
    requires
        0 <= k < results.len(),
    ensures
        covered_by(results, k + 1).contains(s) <==> covered_by(results, k).contains(s) || covers(
            results[k],
            s,
        ),
{
    let (a, b) = (results.take(k), results.take(k + 1));
    if is_primary(a, s) {
        let j = choose|j: int| 0 <= j < a.len() && covers(#[trigger] a[j], s);
        assert(b[j] == a[j]);
        assert(covers(b[j], s));
    }
    assert(b[k] == results[k]);
    if covers(results[k], s) {
        assert(covers(b[k], s));
    }
    if is_primary(b, s) {
        let j = choose|j: int| 0 <= j < b.len() && covers(#[trigger] b[j], s);
        if j < k {
            assert(a[j] == b[j]);
            assert(covers(a[j], s));
        }
    }
}

/// The store and a scan agree after the first `k` files.
spec fn agrees(
    s: StoreView,
    marks: Set<Seq<char>>,
    results: Seq<ResultView>,
    files: Seq<FileView>,
    k: nat,
) -> bool {
    &&& s.primary_sessions == marks.union(covered_by(results, k as int))
    &&& holds_calls(s.calls, firsts(cands(s.primary_sessions, results, files, k)))
}

proof fn lemma_one_file_agrees(
    q: Progress,
    i: FileInput,
    marks: Set<Seq<char>>,
    results: Seq<ResultView>,
    files: Seq<FileView>,
    k: nat,
)
    requires
        k < results.len(),
        results.len() == files.len(),
        i.force_full,
        results[k as int] == parsed(i.content, 0, 0, false).result,
        identities_tell(results),
        legacy_without_id(results),
        agrees(q.store, marks, results, files, k),
    ensures
        agrees(with_changed_file(q, i).store, marks, results, files, k + 1),
{
    let r = results[k as int];
    let f = files[k as int];
    let x = file_context(q.store, i);
    let events = file_events(q.store, i);
    assert(events =~= r.raw_calls);
    assert(x.primary == (r.primary_events > 0));
    assert(x.enrichment.meta.session_id == r.meta.session_id);
    let sessions = covered_sessions(x.enrichment.meta.session_id, events);
    let covered = if x.primary {
        with_covered(q, sessions)
    } else {
        q
    };
    let before = q.store.primary_sessions;
    let after = covered.store.primary_sessions;
    lemma_covering(q, sessions);
    lemma_settings_keep(covered.store, x.settings);
    assert(after =~= marks.union(covered_by(results, (k + 1) as int))) by {
        assert forall|s: Seq<char>| after.contains(s) <==> marks.union(
            covered_by(results, (k + 1) as int),
        ).contains(s) by {
            lemma_covered_by_step(results, k as int, s);
            lemma_covered_sessions(r.meta.session_id, events, s);
        }
    }
    let old_cands = cands(before, results, files, k);
    let new_cands = cands(after, results, files, k);
    let list = firsts(old_cands);
    lemma_cands_tell_apart(before, results, files, k);
    lemma_cands_tell_apart(after, results, files, k + 1);
    assert forall|u: Seq<char>|
        #[trigger] covered.store.calls.contains_key(u) <==> q.store.calls.contains_key(u)
            && !dropped(after, q.store.calls[u]) by {
        if q.store.calls.contains_key(u) {
            let j = choose|j: int| 0 <= j < list.len() && (#[trigger] list[j]).event_uid == u;
            lemma_cands_undropped(before, results, files, k, j);
            assert(!dropped(before, q.store.calls[u]));
        }
    }
    lemma_drop_agrees(after, q.store.calls, covered.store.calls, list);
    lemma_firsts_undropped(after, old_cands);
    lemma_cands_grow(before, after, results, files, k);
    assert(holds_calls(covered.store.calls, firsts(new_cands)));
    let start = settled(q, i);
    let n = r.raw_calls.len();
    assert(cands(after, results, files, k + 1) == new_cands + file_cands(after, r, f, n));
    lemma_events_agree(start, x, r, f, new_cands, n);
    assert(r.raw_calls.take(n as int) =~= events);
    lemma_events_keep(start, x, events);
}

proof fn lemma_files_agree(
    p: Progress,
    home: Seq<char>,
    files: Seq<FileView>,
    contents: Seq<FileContentView>,
    rules: Seq<RuleView>,
    version: Seq<char>,
    k: nat,
)
    requires
        files.len() == contents.len(),
        k <= files.len(),
        p.store.calls == Map::<Seq<char>, CallView>::empty(),
        identities_tell(results_of(contents)),
    ensures
        agrees(
            with_files(
                p,
                home,
                files.take(k as int),
                contents.take(k as int),
                rules,
                version,
                true,
            ).store,
            p.store.primary_sessions,
            results_of(contents),
            files,
            k,
        ),
    decreases k,
{
    let results = results_of(contents);
    let marks = p.store.primary_sessions;
    if k == 0 {
        assert(covered_by(results, 0) =~= Set::empty());
        assert(marks.union(covered_by(results, 0)) =~= marks);
        assert(firsts(cands(marks, results, files, 0)).len() == 0);
    } else {
        let m = (k - 1) as nat;
        lemma_files_agree(p, home, files, contents, rules, version, m);
        lemma_results_legacy_without_id(contents);
        assert(files.take(k as int).drop_last() =~= files.take(m as int));
        assert(contents.take(k as int).drop_last() =~= contents.take(m as int));
        let q = with_files(
            p,
            home,
            files.take(m as int),
            contents.take(m as int),
            rules,
            version,
            true,
        );
        let file = files[k - 1];
        let i = FileInput {
            rel: relative_to(file.path, home),
            file,
            content: contents[k - 1],
            rules,
            version,
            force_full: true,
        };
        lemma_one_file_agrees(q, i, marks, results, files, m);
    }
}

/// A full import holds the very calls, by their identities, that a scan of the same files counts,
/// whatever the store held before, wherever identities tell events apart.
pub proof fn law_full_import_agrees_with_scan(
    s: StoreView,
    home: Seq<char>,
    files: Seq<FileView>,
    contents: Seq<FileContentView>,
    threads: Option<Seq<ThreadView>>,
    engine: PricingEngine,
    force_reprice: bool,
    u: Seq<char>,
)
    requires
        files.len() == contents.len(),
        identities_tell(results_of(contents)),
    ensures
        imported(
            s,
            home,
            files,
            contents,
            threads,
            engine,
            true,
            force_reprice,
        ).store.calls.contains_key(u) <==> exists|i: int|
            0 <= i < scanned_calls(results_of(contents), files).len() && (
            #[trigger] scanned_calls(results_of(contents), files)[i]).event_uid == u,
{
    let results = results_of(contents);
    let n = files.len();
    let rules = engine.codex.rules.deep_view();
    let version = engine.codex.version@;
    let p = prepared(s, n, true);
    lemma_files_agree(p, home, files, contents, rules, version, n);
    assert(files.take(n as int) =~= files);
    assert(contents.take(n as int) =~= contents);
    let q = with_files(p, home, files, contents, rules, version, true);
    let all = covered_by(results, n as int);
    assert(results.take(n as int) =~= results);
    assert(q.store.primary_sessions =~= all);
    lemma_cands_are_candidates(results, files, n);
    let t = with_state(q, threads);
    assert(t.store.calls.contains_key(u) == q.store.calls.contains_key(u));
}

} // verus!
