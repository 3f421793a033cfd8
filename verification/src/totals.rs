//! The totals of a full import are those of a scan.

use vstd::prelude::*;

use crate::agreement::identities_tell;
use crate::agreement::law_full_import_agrees_with_scan;
use crate::agreement::lemma_covering;
use crate::discovery::relative_to;
use crate::discovery::FileView;
use crate::import::covered_sessions;
use crate::import::event_call;
use crate::import::file_context;
use crate::import::file_events;
use crate::import::imported;
use crate::import::is_counted;
use crate::import::lemma_settings_keep;
use crate::import::prepared;
use crate::import::settled;
use crate::import::with_changed_file;
use crate::import::with_covered;
use crate::import::with_events;
use crate::import::with_files;
use crate::import::with_state;
use crate::import::FileContext;
use crate::import::FileInput;
use crate::import::Progress;
use crate::model::usage_sum;
use crate::model::CallView;
use crate::model::ResultView;
use crate::model::TokenUsage;
use crate::parser::parsed;
use crate::parser::uid_of;
use crate::parser::FileContentView;
use crate::pricing::PricingEngine;
use crate::pricing::RuleView;
use crate::scan::call_key;
use crate::scan::candidates;
use crate::scan::results_of;
use crate::scan::scanned_calls;
use crate::scan_laws::law_each_key_once;
use crate::scan_laws::lemma_candidate_source;
use crate::scan_laws::lemma_firsts_are_calls;
use crate::state::ThreadView;
use crate::store::row_calls;
use crate::store::with_call;
use crate::store::StoreView;
use crate::text;
use crate::text::text_lt;
use crate::text_map::lemma_rows_map_at;
use crate::text_map::ordered;
use crate::text_map::rows_map;

verus! {

/// Events with the same identity have the same response id.
pub open spec fn ids_tell(results: Seq<ResultView>) -> bool {
    forall|i: int, j: int, k: int, l: int|
        #![trigger results[i].raw_calls[j], results[k].raw_calls[l]]
        0 <= i < results.len() && 0 <= j < results[i].raw_calls.len() && 0 <= k < results.len()
            && 0 <= l < results[k].raw_calls.len() && uid_of(results[i].raw_calls[j]) == uid_of(
            results[k].raw_calls[l],
        ) ==> results[i].raw_calls[j].response_id == results[k].raw_calls[l].response_id
}

/// Events with the same identity have the same usage.
pub open spec fn usages_tell(results: Seq<ResultView>) -> bool {
    forall|i: int, j: int, k: int, l: int|
        #![trigger results[i].raw_calls[j], results[k].raw_calls[l]]
        0 <= i < results.len() && 0 <= j < results[i].raw_calls.len() && 0 <= k < results.len()
            && 0 <= l < results[k].raw_calls.len() && uid_of(results[i].raw_calls[j]) == uid_of(
            results[k].raw_calls[l],
        ) ==> results[i].raw_calls[j].usage == results[k].raw_calls[l].usage
}

/// Some event of the files has this identity and this usage.
pub open spec fn is_told(results: Seq<ResultView>, uid: Seq<char>, usage: TokenUsage) -> bool {
    exists|i: int, j: int|
        #![trigger results[i].raw_calls[j]]
        0 <= i < results.len() && 0 <= j < results[i].raw_calls.len() && uid_of(
            results[i].raw_calls[j],
        ) == uid && results[i].raw_calls[j].usage == usage
}

/// Every call of the table stands under its identity, and has it and its usage from an event.
pub open spec fn all_told(calls: Map<Seq<char>, CallView>, results: Seq<ResultView>) -> bool {
    forall|u: Seq<char>| #[trigger]
        calls.contains_key(u) ==> calls[u].event_uid == u && is_told(results, u, calls[u].usage)
}

proof fn lemma_events_told(
    p: Progress,
    x: FileContext,
    results: Seq<ResultView>,
    k: int,
    n: nat,
)
    requires
        0 <= k < results.len(),
        n <= results[k].raw_calls.len(),
        all_told(p.store.calls, results),
    ensures
        all_told(
            with_events(p, x, results[k].raw_calls.take(n as int)).store.calls,
            results,
        ),
    decreases n,
{
    if n > 0 {
        let m = (n - 1) as nat;
        let events = results[k].raw_calls;
        lemma_events_told(p, x, results, k, m);
        let part = events.take(n as int);
        assert(part.drop_last() =~= events.take(m as int));
        let q = with_events(p, x, events.take(m as int));
        let e = events[n - 1];
        assert(part.last() == e);
        if is_counted(q.store, x, e) {
            let c = event_call(q.store, x, e);
            let next = with_call(q.store.calls, c);
            assert forall|u: Seq<char>| #[trigger] next.contains_key(u) implies next[u].event_uid
                == u && is_told(results, u, next[u].usage) by {
                if q.store.calls.contains_key(u) {
                    assert(next[u].usage == q.store.calls[u].usage);
                    assert(next[u].event_uid == q.store.calls[u].event_uid);
                } else {
                    assert(results[k].raw_calls[n - 1] == e);
                }
            }
        }
    }
}

proof fn lemma_files_told(
    p: Progress,
    home: Seq<char>,
    files: Seq<FileView>,
    contents: Seq<FileContentView>,
    rules: Seq<RuleView>,
    version: Seq<char>,
    k: nat,
)
    requires
        files.len() == contents.len(),
        k <= files.len(),
        p.store.calls == Map::<Seq<char>, CallView>::empty(),
    ensures
        all_told(
            with_files(
                p,
                home,
                files.take(k as int),
                contents.take(k as int),
                rules,
                version,
                true,
            ).store.calls,
            results_of(contents),
        ),
    decreases k,
{
    if k > 0 {
        let results = results_of(contents);
        let m = (k - 1) as nat;
        lemma_files_told(p, home, files, contents, rules, version, m);
        assert(files.take(k as int).drop_last() =~= files.take(m as int));
        assert(contents.take(k as int).drop_last() =~= contents.take(m as int));
        let q = with_files(
            p,
            home,
            files.take(m as int),
            contents.take(m as int),
            rules,
            version,
            true,
        );
        let file = files[k - 1];
        let i = FileInput {
            rel: relative_to(file.path, home),
            file,
            content: contents[k - 1],
            rules,
            version,
            force_full: true,
        };
        let x = file_context(q.store, i);
        let events = file_events(q.store, i);
        let r = results[k - 1];
        assert(r == parsed(i.content, 0, 0, false).result);
        assert(events =~= r.raw_calls);
        let sessions = covered_sessions(x.enrichment.meta.session_id, events);
        let covered = if x.primary {
            with_covered(q, sessions)
        } else {
            q
        };
        lemma_covering(q, sessions);
        lemma_settings_keep(covered.store, x.settings);
        let start = settled(q, i);
        assert(start.store.calls == covered.store.calls);
        assert(all_told(start.store.calls, results)) by {
            assert forall|u: Seq<char>| #[trigger] start.store.calls.contains_key(u) implies ({
                &&& start.store.calls[u].event_uid == u
                &&& is_told(results, u, start.store.calls[u].usage)
            }) by {
                assert(q.store.calls.contains_key(u));
            }
        }
        assert(r.raw_calls.take(r.raw_calls.len() as int) =~= events);
        lemma_events_told(start, x, results, k - 1, r.raw_calls.len());
        assert(with_changed_file(q, i).store.calls == with_events(start, x, events).store.calls);
    }
}

/// Calls with one identity each.
spec fn one_each(calls: Seq<CallView>) -> bool {
    forall|i: int, j: int|
        0 <= i < j < calls.len() ==> (#[trigger] calls[i]).event_uid != (
        #[trigger] calls[j]).event_uid
}

/// Some call of the list has this identity and this usage.
#[verifier::opaque]
spec fn has_like(calls: Seq<CallView>, uid: Seq<char>, usage: TokenUsage) -> bool {
    exists|j: int|
        0 <= j < calls.len() && (#[trigger] calls[j]).event_uid == uid && calls[j].usage == usage
}

proof fn lemma_put_like(calls: Seq<CallView>, j: int)
    requires
        0 <= j < calls.len(),
    ensures
        has_like(calls, calls[j].event_uid, calls[j].usage),
{
    reveal(has_like);
}

proof fn lemma_find_like(calls: Seq<CallView>, uid: Seq<char>, usage: TokenUsage) -> (j: int)
    requires
        has_like(calls, uid, usage),
    ensures
        0 <= j < calls.len(),
        calls[j].event_uid == uid,
        calls[j].usage == usage,
{
    reveal(has_like);
    choose|j: int|
        0 <= j < calls.len() && (#[trigger] calls[j]).event_uid == uid && calls[j].usage == usage
}

/// Every call of the one list has its like, with the same usage, in the other.
spec fn found_in(a: Seq<CallView>, b: Seq<CallView>) -> bool {
    forall|i: int|
        0 <= i < a.len() ==> has_like(b, (#[trigger] a[i]).event_uid, a[i].usage)
}

proof fn lemma_plus_swap(a: TokenUsage, b: TokenUsage, c: TokenUsage)
    ensures
        a.plus(b).plus(c) == a.plus(c).plus(b),
{
}

proof fn lemma_sum_without(calls: Seq<CallView>, i: int)
    requires
        0 <= i < calls.len(),
    ensures
        usage_sum(calls) == usage_sum(calls.remove(i)).plus(calls[i].usage),
    decreases calls.len(),
{
    let n = calls.len() - 1;
    if i == n {
        assert(calls.remove(i) =~= calls.drop_last());
    } else {
        let init = calls.drop_last();
        lemma_sum_without(init, i);
        assert(calls.remove(i).drop_last() =~= init.remove(i));
        assert(calls.remove(i).last() == calls.last());
        lemma_plus_swap(usage_sum(init.remove(i)), calls[i].usage, calls.last().usage);
    }
}

/// Lists that hold the same calls, each once, come to the same.
proof fn lemma_same_sum(a: Seq<CallView>, b: Seq<CallView>)
    requires
        one_each(a),
        one_each(b),
        found_in(a, b),
        found_in(b, a),
    ensures
        a.len() == b.len(),
        usage_sum(a) == usage_sum(b),
    decreases b.len(),
{
    if b.len() == 0 {
        if a.len() > 0 {
            let j = lemma_find_like(b, a[0].event_uid, a[0].usage);
        }
    } else {
        let c = b.last();
        assert(b[b.len() - 1] == c);
        let i = lemma_find_like(a, c.event_uid, c.usage);
        let rest = a.remove(i);
        let init = b.drop_last();
        assert(one_each(rest)) by {
            assert forall|x: int, y: int| 0 <= x < y < rest.len() implies (
            #[trigger] rest[x]).event_uid != (#[trigger] rest[y]).event_uid by {
                assert(rest[x] == a[beside(i, x)] && rest[y] == a[beside(i, y)]);
            }
        }
        assert(one_each(init)) by {
            assert forall|x: int, y: int| 0 <= x < y < init.len() implies (
            #[trigger] init[x]).event_uid != (#[trigger] init[y]).event_uid by {
                assert(init[x] == b[x] && init[y] == b[y]);
            }
        }
        assert forall|x: int| 0 <= x < rest.len() implies has_like(
            init,
            (#[trigger] rest[x]).event_uid,
            rest[x].usage,
        ) by {
            let s = beside(i, x);
            assert(rest[x] == a[s]);
            let j = lemma_find_like(b, a[s].event_uid, a[s].usage);
            if j == b.len() - 1 {
                lemma_each_differs(a, s, i);
            }
            assert(init[j] == b[j]);
            lemma_put_like(init, j);
        }
        assert forall|x: int| 0 <= x < init.len() implies has_like(
            rest,
            (#[trigger] init[x]).event_uid,
            init[x].usage,
        ) by {
            assert(init[x] == b[x]);
            let j = lemma_find_like(a, b[x].event_uid, b[x].usage);
            if j == i {
                lemma_each_differs(b, x, b.len() - 1);
            }
            let t = if j < i {
                j
            } else {
                j - 1
            };
            assert(rest[t] == a[j]);
            lemma_put_like(rest, t);
        }
        lemma_same_sum(rest, init);
        lemma_sum_without(a, i);
    }
}

/// The place in a list of what stands at `x` once the element at `i` is left out.
spec fn beside(i: int, x: int) -> int {
    if x < i {
        x
    } else {
        x + 1
    }
}

proof fn lemma_each_differs(calls: Seq<CallView>, x: int, y: int)
    requires
        one_each(calls),
        0 <= x < calls.len(),
        0 <= y < calls.len(),
        x != y,
    ensures
        calls[x].event_uid != calls[y].event_uid,
{
    if x < y {
        assert(calls[x].event_uid != calls[y].event_uid);
    } else {
        assert(calls[y].event_uid != calls[x].event_uid);
    }
}

/// After a full import the store holds as many calls, and as many tokens of each kind, as a scan
/// of the same files counts, whatever the store held before, wherever identities tell events
/// apart.
pub proof fn law_full_import_totals_are_those_of_a_scan(
    s: StoreView,
    home: Seq<char>,
    files: Seq<FileView>,
    contents: Seq<FileContentView>,
    threads: Option<Seq<ThreadView>>,
    engine: PricingEngine,
    force_reprice: bool,
    rows: Seq<(Seq<char>, CallView)>,
)
    requires
        files.len() == contents.len(),
        identities_tell(results_of(contents)),
        usages_tell(results_of(contents)),
        ordered(rows),
        rows_map(rows) == imported(
            s,
            home,
            files,
            contents,
            threads,
            engine,
            true,
            force_reprice,
        ).store.calls,
    ensures
        rows.len() == scanned_calls(results_of(contents), files).len(),
        usage_sum(row_calls(rows)) == usage_sum(scanned_calls(results_of(contents), files)),
{
    let results = results_of(contents);
    let calls = imported(s, home, files, contents, threads, engine, true, force_reprice).store.calls;
    lemma_imported_told(s, home, files, contents, threads, engine, force_reprice);
    assert forall|u: Seq<char>| #[trigger] calls.contains_key(u) <==> is_scanned(
        results,
        files,
        u,
    ) by {
        law_full_import_agrees_with_scan(
            s,
            home,
            files,
            contents,
            threads,
            engine,
            force_reprice,
            u,
        );
    }
    lemma_totals_agree(calls, rows, results, files);
}

/// Some call of a scan has this identity.
pub open spec fn is_scanned(results: Seq<ResultView>, files: Seq<FileView>, u: Seq<char>) -> bool {
    exists|i: int|
        0 <= i < scanned_calls(results, files).len() && (#[trigger] scanned_calls(
            results,
            files,
        )[i]).event_uid == u
}

proof fn lemma_imported_told(
    s: StoreView,
    home: Seq<char>,
    files: Seq<FileView>,
    contents: Seq<FileContentView>,
    threads: Option<Seq<ThreadView>>,
    engine: PricingEngine,
    force_reprice: bool,
)
    requires
        files.len() == contents.len(),
    ensures
        all_told(
            imported(
                s,
                home,
                files,
                contents,
                threads,
                engine,
                true,
                force_reprice,
            ).store.calls,
            results_of(contents),
        ),
{
    let results = results_of(contents);
    let n = files.len();
    let rules = engine.codex.rules.deep_view();
    let version = engine.codex.version@;
    let p = prepared(s, n, true);
    let q = with_files(p, home, files, contents, rules, version, true);
    let calls = imported(s, home, files, contents, threads, engine, true, force_reprice).store.calls;
    lemma_files_told(p, home, files, contents, rules, version, n);
    assert(files.take(n as int) =~= files);
    assert(contents.take(n as int) =~= contents);
    assert(calls == with_state(q, threads).store.calls);
    assert forall|u: Seq<char>| #[trigger] calls.contains_key(u) implies calls[u].event_uid == u
        && is_told(results, u, calls[u].usage) by {
        assert(q.store.calls.contains_key(u));
        assert(calls[u].usage == q.store.calls[u].usage);
        assert(calls[u].event_uid == q.store.calls[u].event_uid);
    }
}

pub proof fn lemma_totals_agree(
    calls: Map<Seq<char>, CallView>,
    rows: Seq<(Seq<char>, CallView)>,
    results: Seq<ResultView>,
    files: Seq<FileView>,
)
    requires
        ordered(rows),
        rows_map(rows) == calls,
        ids_tell(results),
        usages_tell(results),
        all_told(calls, results),
        forall|u: Seq<char>| #[trigger] calls.contains_key(u) <==> is_scanned(results, files, u),
    ensures
        rows.len() == scanned_calls(results, files).len(),
        usage_sum(row_calls(rows)) == usage_sum(scanned_calls(results, files)),
{
    let a = row_calls(rows);
    let b = scanned_calls(results, files);
    assert forall|i: int| 0 <= i < rows.len() implies calls.contains_key(#[trigger] rows[i].0)
        && calls[rows[i].0] == a[i] && a[i].event_uid == rows[i].0 by {
        lemma_rows_map_at(rows, i);
    }
    assert(one_each(a)) by {
        assert forall|i: int, j: int| 0 <= i < j < a.len() implies (#[trigger] a[i]).event_uid != (
        #[trigger] a[j]).event_uid by {
            assert(text_lt(rows[i].0, rows[j].0));
            text::lemma_text_lt_irreflexive(rows[i].0);
            assert(a[i].event_uid == rows[i].0 && a[j].event_uid == rows[j].0);
        }
    }
    assert(one_each(b)) by {
        assert forall|i: int, j: int| 0 <= i < j < b.len() implies (#[trigger] b[i]).event_uid != (
        #[trigger] b[j]).event_uid by {
            lemma_scanned_differ(results, files, i, j);
        }
    }
    assert(found_in(a, b)) by {
        assert forall|i: int| 0 <= i < a.len() implies has_like(
            b,
            (#[trigger] a[i]).event_uid,
            a[i].usage,
        ) by {
            let u = rows[i].0;
            assert(is_scanned(results, files, u));
            let j = choose|j: int| 0 <= j < b.len() && (#[trigger] b[j]).event_uid == u;
            lemma_scanned_told(results, files, j);
            lemma_told_once(results, u, a[i].usage, b[j].usage);
            lemma_put_like(b, j);
        }
    }
    assert(found_in(b, a)) by {
        assert forall|j: int| 0 <= j < b.len() implies has_like(
            a,
            (#[trigger] b[j]).event_uid,
            b[j].usage,
        ) by {
            let u = b[j].event_uid;
            assert(is_scanned(results, files, u));
            assert(calls.contains_key(u));
            let i = choose|i: int| 0 <= i < rows.len() && #[trigger] rows[i].0 == u;
            assert(calls[rows[i].0] == a[i]);
            lemma_scanned_told(results, files, j);
            lemma_told_once(results, u, a[i].usage, b[j].usage);
            lemma_put_like(a, i);
        }
    }
    lemma_same_sum(a, b);
}

proof fn lemma_told_once(results: Seq<ResultView>, u: Seq<char>, a: TokenUsage, b: TokenUsage)
    requires
        usages_tell(results),
        is_told(results, u, a),
        is_told(results, u, b),
    ensures
        a == b,
{
    let (i, j) = choose|i: int, j: int|
        #![trigger results[i].raw_calls[j]]
        0 <= i < results.len() && 0 <= j < results[i].raw_calls.len() && uid_of(
            results[i].raw_calls[j],
        ) == u && results[i].raw_calls[j].usage == a;
    let (k, l) = choose|k: int, l: int|
        #![trigger results[k].raw_calls[l]]
        0 <= k < results.len() && 0 <= l < results[k].raw_calls.len() && uid_of(
            results[k].raw_calls[l],
        ) == u && results[k].raw_calls[l].usage == b;
    assert(results[i].raw_calls[j].usage == results[k].raw_calls[l].usage);
}

proof fn lemma_scanned_told(results: Seq<ResultView>, files: Seq<FileView>, i: int)
    requires
        0 <= i < scanned_calls(results, files).len(),
    ensures
        is_told(
            results,
            scanned_calls(results, files)[i].event_uid,
            scanned_calls(results, files)[i].usage,
        ),
{
    let all = candidates(results, files, results.len());
    let b = scanned_calls(results, files);
    lemma_firsts_are_calls(all, i);
    let x = choose|x: int| 0 <= x < all.len() && #[trigger] all[x] == b[i];
    let (k, l) = lemma_candidate_source(results, files, results.len(), x);
    let e = results[k].raw_calls[l];
    assert(uid_of(e) == b[i].event_uid && e.usage == b[i].usage);
}

proof fn lemma_scanned_differ(results: Seq<ResultView>, files: Seq<FileView>, i: int, j: int)
    requires
        ids_tell(results),
        0 <= i < j < scanned_calls(results, files).len(),
    ensures
        scanned_calls(results, files)[i].event_uid != scanned_calls(results, files)[j].event_uid,
{
    let all = candidates(results, files, results.len());
    let b = scanned_calls(results, files);
    law_each_key_once(all);
    assert(call_key(b[i]) != call_key(b[j]));
    if b[i].event_uid == b[j].event_uid {
        lemma_firsts_are_calls(all, i);
        lemma_firsts_are_calls(all, j);
        let x = choose|x: int| 0 <= x < all.len() && #[trigger] all[x] == b[i];
        let y = choose|y: int| 0 <= y < all.len() && #[trigger] all[y] == b[j];
        let (k, l) = lemma_candidate_source(results, files, results.len(), x);
        let (m, n) = lemma_candidate_source(results, files, results.len(), y);
        assert(results[k].raw_calls[l].response_id == results[m].raw_calls[n].response_id);
        assert(b[i].response_id == b[j].response_id);
    }
}

} // verus!
