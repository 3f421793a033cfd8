//! Importing the same files twice comes to the same as importing them once.

use vstd::prelude::*;

use crate::agreement::lemma_covering;
use crate::call_table::count_where;
use crate::discovery::relative_to;
use crate::discovery::FileView;
use crate::import::covered_sessions;
use crate::import::event_call;
use crate::import::file_context;
use crate::import::file_events;
use crate::import::file_reading;
use crate::import::file_start;
use crate::import::fingerprint_of;
use crate::import::imported;
use crate::import::is_counted;
use crate::import::lemma_events_keep;
use crate::import::lemma_settings_keep;
use crate::import::lemma_settled_keeps;
use crate::import::prepared;
use crate::import::settled;
use crate::import::with_changed_file;
use crate::import::with_covered;
use crate::import::with_events;
use crate::import::with_files;
use crate::import::with_state;
use crate::import::FileContext;
use crate::import::FileInput;
use crate::import::Progress;
use crate::import_laws::all_unchanged;
use crate::import_laws::is_sorted_out;
use crate::import_laws::law_import_never_mixes_methods;
use crate::import_laws::lemma_files_are_noted;
use crate::import_laws::lemma_unchanged_are_passed_over;
use crate::import_laws::names_differ;
use crate::model::usage_sum;
use crate::model::CallView;
use crate::model::EventView;
use crate::model::SourceFormat;
use crate::parser::content_len;
use crate::parser::FileContentView;
use crate::pricing::PricingEngine;
use crate::pricing::RuleView;
use crate::scan_laws::lemma_file_with_record;
use crate::state::enriched_store;
use crate::state::is_told;
use crate::state::told;
use crate::state::with_threads;
use crate::state::ThreadView;
use crate::store::backfilled;
use crate::store::empty_store;
use crate::store::has_record_file;
use crate::store::has_record_session;
use crate::store::marked;
use crate::store::row_calls;
use crate::store::superseded_in;
use crate::store::StoreView;
use crate::text::text_lt;
use crate::text_map::has_key;
use crate::text_map::lemma_rows_map_at;
use crate::text_map::lemma_rows_unique;
use crate::text_map::ordered;
use crate::text_map::rows_map;

verus! {

/// The file of every call has a checkpoint, which is marked exactly where the call is a usage
/// record.
pub open spec fn is_filed(s: StoreView) -> bool {
    forall|u: Seq<char>|
        #[trigger] s.calls.contains_key(u) ==> s.checkpoints.contains_key(s.calls[u].source_file)
            && s.checkpoints[s.calls[u].source_file].had_primary == (s.calls[u].source_format
            == SourceFormat::TokenUsageRecord)
}

/// This is the name of one of the files.
pub open spec fn is_named(files: Seq<FileView>, home: Seq<char>, rel: Seq<char>) -> bool {
    exists|i: int| 0 <= i < files.len() && relative_to((#[trigger] files[i]).path, home) == rel
}

/// The calls come from these files, and so do the checkpoints where `all`.
spec fn is_from(s: StoreView, files: Seq<FileView>, home: Seq<char>, all: bool) -> bool {
    &&& forall|u: Seq<char>|
        #[trigger] s.calls.contains_key(u) ==> is_named(files, home, s.calls[u].source_file)
    &&& all ==> forall|p: Seq<char>|
        #[trigger] s.checkpoints.contains_key(p) ==> is_named(files, home, p)
}

/// The calls after the events of a file: those from before, and those of the file, which are usage
/// records exactly where the file has one.
proof fn lemma_events_are_filed(p: Progress, x: FileContext, events: Seq<EventView>)
    requires
        !x.primary ==> forall|j: int|
            0 <= j < events.len() ==> (#[trigger] events[j]).source_format
                != SourceFormat::TokenUsageRecord,
    ensures
        ({
            let q = with_events(p, x, events).store.calls;
            forall|u: Seq<char>| #[trigger]
                q.contains_key(u) ==> {
                    ||| p.store.calls.contains_key(u) && q[u].source_file
                        == p.store.calls[u].source_file && q[u].source_format
                        == p.store.calls[u].source_format
                    ||| q[u].source_file == x.rel && x.primary == (q[u].source_format
                        == SourceFormat::TokenUsageRecord)
                }
        }),
    decreases events.len(),
{
    if events.len() > 0 {
        let init = events.drop_last();
        assert forall|j: int| !x.primary && 0 <= j < init.len() implies (
        #[trigger] init[j]).source_format != SourceFormat::TokenUsageRecord by {
            assert(init[j] == events[j]);
        }
        lemma_events_are_filed(p, x, init);
        let q = with_events(p, x, init).store;
        let r = with_events(p, x, events).store.calls;
        let e = events.last();
        assert(events[events.len() - 1] == e);
        if is_counted(q, x, e) {
            let c = event_call(q, x, e);
            assert forall|u: Seq<char>| #[trigger] r.contains_key(u) implies {
                ||| p.store.calls.contains_key(u) && r[u].source_file
                    == p.store.calls[u].source_file && r[u].source_format
                    == p.store.calls[u].source_format
                ||| r[u].source_file == x.rel && x.primary == (r[u].source_format
                    == SourceFormat::TokenUsageRecord)
            } by {
                if q.calls.contains_key(u) {
                    assert(r[u].source_file == q.calls[u].source_file);
                    assert(r[u].source_format == q.calls[u].source_format);
                } else {
                    assert(r[u] == c);
                }
            }
        }
    }
}

proof fn lemma_changed_file_is_filed(
    p: Progress,
    i: FileInput,
    files: Seq<FileView>,
    home: Seq<char>,
)
    requires
        content_len(i.content) <= u64::MAX,
        i.rel == relative_to(files.last().path, home),
        files.len() > 0,
        names_differ(files, home),
        is_filed(p.store),
        is_from(p.store, files.drop_last(), home, !i.force_full),
    ensures
        is_filed(with_changed_file(p, i).store),
        is_from(with_changed_file(p, i).store, files, home, !i.force_full),
{
    let fs = files.drop_last();
    let start = file_start(p.store, i);
    let reading = file_reading(p.store, i);
    let x = file_context(p.store, i);
    let events = file_events(p.store, i);
    assert forall|rel: Seq<char>| #[trigger] is_named(fs, home, rel) implies rel != i.rel
        && is_named(files, home, rel) by {
        let k = choose|k: int| 0 <= k < fs.len() && relative_to((#[trigger] fs[k]).path, home)
            == rel;
        assert(files[k] == fs[k]);
        assert(files[files.len() - 1] == files.last());
    }
    assert(is_named(files, home, i.rel)) by {
        assert(relative_to(files[files.len() - 1].path, home) == i.rel);
    }
    assert(!start.had_primary && start.offset == 0);
    assert forall|j: int| !x.primary && 0 <= j < events.len() implies (
    #[trigger] events[j]).source_format != SourceFormat::TokenUsageRecord by {
        if events[j].source_format == SourceFormat::TokenUsageRecord {
            assert(reading.result.raw_calls[j].source_format == SourceFormat::TokenUsageRecord);
            lemma_file_with_record(
                i.content,
                start.offset as int,
                start.lines as nat,
                start.pending,
                j,
            );
        }
    }
    let sessions = covered_sessions(x.enrichment.meta.session_id, events);
    lemma_covering(p, sessions);
    let covered = if x.primary {
        with_covered(p, sessions)
    } else {
        p
    };
    lemma_settings_keep(covered.store, x.settings);
    lemma_settled_keeps(p, i);
    let q = settled(p, i);
    assert(q.store.calls == covered.store.calls);
    lemma_events_are_filed(q, x, events);
    lemma_events_keep(q, x, events);
    let r = with_changed_file(p, i).store;
    assert forall|u: Seq<char>| #[trigger]
        r.calls.contains_key(u) implies r.checkpoints.contains_key(r.calls[u].source_file) && r.checkpoints[r.calls[u].source_file].had_primary == (r.calls[u].source_format
        == SourceFormat::TokenUsageRecord) && is_named(files, home, r.calls[u].source_file) by {
        if r.calls[u].source_file != i.rel {
            assert(q.store.calls.contains_key(u));
            assert(p.store.calls.contains_key(u));
        } else if q.store.calls.contains_key(u) {
            assert(p.store.calls.contains_key(u));
            assert(is_named(fs, home, p.store.calls[u].source_file));
        }
    }
}

proof fn lemma_files_are_filed(
    p: Progress,
    home: Seq<char>,
    files: Seq<FileView>,
    contents: Seq<FileContentView>,
    rules: Seq<RuleView>,
    version: Seq<char>,
    force_full: bool,
)
    requires
        names_differ(files, home),
        files.len() == contents.len(),
        forall|i: int| 0 <= i < contents.len() ==> content_len(#[trigger] contents[i]) <= u64::MAX,
        p.store.calls == Map::<Seq<char>, CallView>::empty(),
        force_full || p.store == empty_store(),
    ensures
        ({
            let q = with_files(p, home, files, contents, rules, version, force_full).store;
            is_filed(q) && is_from(q, files, home, !force_full)
        }),
    decreases files.len(),
{
    if files.len() > 0 {
        let (fs, cs) = (files.drop_last(), contents.drop_last());
        assert(names_differ(fs, home)) by {
            assert forall|i: int, j: int| 0 <= i < j < fs.len() implies relative_to(
                (#[trigger] fs[i]).path,
                home,
            ) != relative_to((#[trigger] fs[j]).path, home) by {
                assert(fs[i] == files[i] && fs[j] == files[j]);
            }
        }
        assert forall|i: int| 0 <= i < cs.len() implies content_len(#[trigger] cs[i])
            <= u64::MAX by {
            assert(cs[i] == contents[i]);
        }
        lemma_files_are_filed(p, home, fs, cs, rules, version, force_full);
        assert(contents[contents.len() - 1] == contents.last());
        let q = with_files(p, home, fs, cs, rules, version, force_full);
        let i = FileInput {
            rel: relative_to(files.last().path, home),
            file: files.last(),
            content: contents.last(),
            rules,
            version,
            force_full,
        };
        assert(!force_full ==> !q.store.checkpoints.contains_key(i.rel)) by {
            if !force_full && q.store.checkpoints.contains_key(i.rel) {
                assert(is_named(fs, home, i.rel));
                let k = choose|k: int|
                    0 <= k < fs.len() && relative_to((#[trigger] fs[k]).path, home) == i.rel;
                assert(files[k] == fs[k]);
                assert(files[files.len() - 1] == files.last());
            }
        }
        lemma_changed_file_is_filed(q, i, files, home);
    }
}

/// In a store whose calls are filed and sorted out there is nothing to mark and nothing to drop.
pub proof fn law_backfilling_leaves_a_store_in_order(s: StoreView)
    requires
        is_filed(s),
        is_sorted_out(s, 0),
    ensures
        backfilled(s) == s,
        count_where(s.calls, superseded_in(marked(s))) == 0,
{
    let m = marked(s);
    assert forall|x: Seq<char>| has_record_session(s.calls, x) implies s.primary_sessions.contains(
        x,
    ) by {
        let u = choose|u: Seq<char>|
            #[trigger] s.calls.contains_key(u) && s.calls[u].source_format
                == SourceFormat::TokenUsageRecord && s.calls[u].session_id == Some(x);
        assert(s.calls.contains_key(u));
    }
    assert(m.primary_sessions =~= s.primary_sessions);
    assert forall|p: Seq<char>| #[trigger] s.checkpoints.contains_key(p) && has_record_file(
        s.calls,
        p,
    ) implies s.checkpoints[p].had_primary by {
        let u = choose|u: Seq<char>|
            #[trigger] s.calls.contains_key(u) && s.calls[u].source_format
                == SourceFormat::TokenUsageRecord && s.calls[u].source_file == p;
        assert(s.calls.contains_key(u));
    }
    assert(m.checkpoints =~= s.checkpoints);
    assert forall|u: Seq<char>| #[trigger] s.calls.contains_key(u) implies !superseded_in(m)(
        s.calls[u],
    ) by {}
    assert(backfilled(s).calls =~= s.calls);
    assert(backfilled(s).pricing =~= s.pricing);
    assert(backfilled(s) =~= s);
    let test = superseded_in(m);
    assert(s.calls.dom().filter(|u: Seq<char>| test(s.calls[u])) =~= Set::empty());
}

/// A table once threads are put in: they stand in it as they would alone.
proof fn lemma_threads_put(
    table: Map<Seq<char>, ThreadView>,
    threads: Seq<ThreadView>,
    k: Seq<char>,
)
    ensures
        ({
            let once = with_threads(table, threads);
            let alone = with_threads(Map::empty(), threads);
            &&& once.contains_key(k) <==> table.contains_key(k) || alone.contains_key(k)
            &&& once[k] == if alone.contains_key(k) {
                alone[k]
            } else {
                table[k]
            }
        }),
    decreases threads.len(),
{
    if threads.len() > 0 {
        lemma_threads_put(table, threads.drop_last(), k);
    }
}

/// Telling the same threads again changes nothing.
pub proof fn law_telling_threads_again_changes_nothing(s: StoreView, threads: Seq<ThreadView>)
    ensures
        enriched_store(enriched_store(s, threads), threads) == enriched_store(s, threads),
{
    let once = enriched_store(s, threads);
    let twice = enriched_store(once, threads);
    assert forall|k: Seq<char>|
        #[trigger] twice.threads.contains_key(k) == once.threads.contains_key(k)
            && twice.threads[k] == once.threads[k] by {
        lemma_threads_put(s.threads, threads, k);
        lemma_threads_put(once.threads, threads, k);
    }
    assert(twice.threads =~= once.threads);
    let table = once.threads;
    assert forall|u: Seq<char>| #[trigger] once.calls.contains_key(u) implies twice.calls[u]
        == once.calls[u] by {
        let c = s.calls[u];
        assert(once.calls[u] == if is_told(table, c) {
            told(table, c)
        } else {
            c
        });
        assert(once.calls[u] == told(table, c));
        assert(told(table, told(table, c)) == told(table, c));
    }
    assert(twice.calls =~= once.calls);
}

/// The keys of rows.
spec fn keys_of(rows: Seq<(Seq<char>, CallView)>) -> Seq<(Seq<char>, ())> {
    Seq::new(rows.len(), |i: int| (rows[i].0, ()))
}

proof fn lemma_keys_of(rows: Seq<(Seq<char>, CallView)>)
    requires
        ordered(rows),
    ensures
        ordered(keys_of(rows)),
        rows_map(keys_of(rows)).dom() == rows_map(rows).dom(),
{
    let keys = keys_of(rows);
    assert forall|k: Seq<char>| has_key(keys, k) == has_key(rows, k) by {
        if has_key(keys, k) {
            let i = choose|i: int| 0 <= i < keys.len() && #[trigger] keys[i].0 == k;
            assert(rows[i].0 == k);
        }
        if has_key(rows, k) {
            let i = choose|i: int| 0 <= i < rows.len() && #[trigger] rows[i].0 == k;
            assert(keys[i].0 == k);
        }
    }
    assert forall|i: int, j: int| 0 <= i < j < keys.len() implies #[trigger] text_lt(
        keys[i].0,
        keys[j].0,
    ) by {
        assert(text_lt(rows[i].0, rows[j].0));
    }
    assert(rows_map(keys).dom() =~= rows_map(rows).dom());
}

proof fn lemma_equal_usages(a: Seq<CallView>, b: Seq<CallView>)
    requires
        a.len() == b.len(),
        forall|i: int| 0 <= i < a.len() ==> (#[trigger] a[i]).usage == b[i].usage,
    ensures
        usage_sum(a) == usage_sum(b),
    decreases a.len(),
{
    if a.len() > 0 {
        lemma_equal_usages(a.drop_last(), b.drop_last());
        assert(a[a.len() - 1].usage == b[a.len() - 1].usage);
    }
}

/// Tables with the same identities and the same usages come to the same.
proof fn lemma_same_totals(a: Seq<(Seq<char>, CallView)>, b: Seq<(Seq<char>, CallView)>)
    requires
        ordered(a),
        ordered(b),
        rows_map(a).dom() == rows_map(b).dom(),
        forall|u: Seq<char>|
            #[trigger] rows_map(a).contains_key(u) ==> rows_map(a)[u].usage == rows_map(b)[u].usage,
    ensures
        a.len() == b.len(),
        usage_sum(row_calls(a)) == usage_sum(row_calls(b)),
{
    let (x, y) = (keys_of(a), keys_of(b));
    lemma_keys_of(a);
    lemma_keys_of(b);
    assert(rows_map(x) =~= rows_map(y));
    lemma_rows_unique(x, y);
    assert(x.len() == a.len() && y.len() == b.len());
    let (c, d) = (row_calls(a), row_calls(b));
    assert forall|i: int| 0 <= i < c.len() implies (#[trigger] c[i]).usage == d[i].usage by {
        lemma_rows_map_at(a, i);
        lemma_rows_map_at(b, i);
        assert(x[i] == y[i]);
        assert(rows_map(a).contains_key(a[i].0));
    }
    lemma_equal_usages(c, d);
}

proof fn lemma_first_import_in_order(
    s: StoreView,
    home: Seq<char>,
    files: Seq<FileView>,
    contents: Seq<FileContentView>,
    threads: Option<Seq<ThreadView>>,
    engine: PricingEngine,
    force_full: bool,
    force_reprice: bool,
)
    requires
        force_full || s == empty_store(),
        names_differ(files, home),
        files.len() == contents.len(),
        forall|i: int| 0 <= i < contents.len() ==> content_len(#[trigger] contents[i]) <= u64::MAX,
    ensures
        ({
            let first = imported(
                s,
                home,
                files,
                contents,
                threads,
                engine,
                force_full,
                force_reprice,
            ).store;
            &&& is_filed(first)
            &&& is_sorted_out(first, 0)
            &&& all_unchanged(first, files, home)
        }),
{
    let rules = engine.codex.rules.deep_view();
    let version = engine.codex.version@;
    let p = prepared(s, files.len(), force_full);
    if !force_full {
        law_backfilling_leaves_a_store_in_order(s);
    }
    let q = with_files(p, home, files, contents, rules, version, force_full);
    lemma_files_are_filed(p, home, files, contents, rules, version, force_full);
    lemma_files_are_noted(p, home, files, contents, rules, version, force_full);
    law_import_never_mixes_methods(
        s,
        home,
        files,
        contents,
        threads,
        engine,
        force_full,
        force_reprice,
        0,
    );
    let first = imported(
        s,
        home,
        files,
        contents,
        threads,
        engine,
        force_full,
        force_reprice,
    ).store;
    let r = with_state(q, threads).store;
    assert(first.calls == r.calls && first.checkpoints == q.store.checkpoints);
    assert forall|u: Seq<char>| #[trigger]
        first.calls.contains_key(u) implies first.checkpoints.contains_key(
        first.calls[u].source_file,
    ) && first.checkpoints[first.calls[u].source_file].had_primary == (
    first.calls[u].source_format == SourceFormat::TokenUsageRecord) by {
        assert(q.store.calls.contains_key(u));
        assert(first.calls[u].source_file == q.store.calls[u].source_file);
        assert(first.calls[u].source_format == q.store.calls[u].source_format);
    }
}

/// An import of files that are all unchanged changes nothing in a store that is in order and priced
/// by the same catalogues: it reads nothing, adds, drops and prices nothing, and leaves every call
/// with its usage, so that the totals are the same. It leaves the whole store as it is where the
/// threads are those that were told last, or none are told.
pub proof fn law_unchanged_files_change_nothing(
    s: StoreView,
    home: Seq<char>,
    files: Seq<FileView>,
    contents: Seq<FileContentView>,
    threads: Option<Seq<ThreadView>>,
    engine: PricingEngine,
    rows: Seq<(Seq<char>, CallView)>,
    later_rows: Seq<(Seq<char>, CallView)>,
)
    requires
        is_filed(s),
        is_sorted_out(s, 0),
        all_unchanged(s, files, home),
        files.len() <= usize::MAX,
        s.meta.contains_key("pricing_fingerprint"@),
        s.meta["pricing_fingerprint"@] == fingerprint_of(
            engine.codex.version@,
            engine.api.version@,
        ),
    ensures
        ({
            let r = imported(s, home, files, contents, threads, engine, false, false);
            &&& r.store.calls.dom() == s.calls.dom()
            &&& forall|u: Seq<char>|
                #[trigger] s.calls.contains_key(u) ==> r.store.calls[u].usage == s.calls[u].usage
            &&& r.report.files_skipped == files.len()
            &&& r.report.files_changed == 0
            &&& r.report.bytes_read == 0
            &&& r.report.calls_inserted == 0
            &&& r.report.duplicates_ignored == 0
            &&& r.report.parse_errors == 0
            &&& r.report.legacy_pruned == 0
            &&& r.report.tiers_repaired == 0
            &&& !r.report.repriced
            &&& r.store == match threads {
                Some(t) => enriched_store(s, t),
                None => s,
            }
            &&& ordered(rows) && rows_map(rows) == s.calls && ordered(later_rows) && rows_map(
                later_rows,
            ) == r.store.calls ==> later_rows.len() == rows.len() && usage_sum(
                row_calls(later_rows),
            ) == usage_sum(row_calls(rows))
        }),
{
    law_backfilling_leaves_a_store_in_order(s);
    let rules = engine.codex.rules.deep_view();
    let version = engine.codex.version@;
    let p = prepared(s, files.len(), false);
    assert(p.store == s);
    lemma_unchanged_are_passed_over(p, home, files, contents, rules, version);
    let q = with_files(p, home, files, contents, rules, version, false);
    let r = imported(s, home, files, contents, threads, engine, false, false);
    assert(r == with_state(q, threads));
    assert(r.store.calls.dom() =~= s.calls.dom());
    assert forall|u: Seq<char>| #[trigger] s.calls.contains_key(u) implies r.store.calls[u].usage
        == s.calls[u].usage by {}
    if ordered(rows) && rows_map(rows) == s.calls && ordered(later_rows) && rows_map(later_rows)
        == r.store.calls {
        lemma_same_totals(later_rows, rows);
    }
}

/// Importing twice comes to the same as importing once. After a first import into an empty store,
/// or a full one into any store, importing the same files again reads nothing, adds, drops and
/// prices nothing, and leaves every call with its usage, so that the totals are the same; with the
/// same threads it leaves the whole store as it is.
pub proof fn law_second_import_changes_nothing(
    s: StoreView,
    home: Seq<char>,
    files: Seq<FileView>,
    contents: Seq<FileContentView>,
    threads: Option<Seq<ThreadView>>,
    engine: PricingEngine,
    force_full: bool,
    force_reprice: bool,
    later_contents: Seq<FileContentView>,
    later_threads: Option<Seq<ThreadView>>,
    rows: Seq<(Seq<char>, CallView)>,
    later_rows: Seq<(Seq<char>, CallView)>,
)
    requires
        force_full || s == empty_store(),
        names_differ(files, home),
        files.len() == contents.len(),
        files.len() <= usize::MAX,
        forall|i: int| 0 <= i < contents.len() ==> content_len(#[trigger] contents[i]) <= u64::MAX,
    ensures
        ({
            let first = imported(
                s,
                home,
                files,
                contents,
                threads,
                engine,
                force_full,
                force_reprice,
            );
            let second = imported(
                first.store,
                home,
                files,
                later_contents,
                later_threads,
                engine,
                false,
                false,
            );
            &&& second.store.calls.dom() == first.store.calls.dom()
            &&& forall|u: Seq<char>|
                #[trigger] first.store.calls.contains_key(u) ==> second.store.calls[u].usage
                    == first.store.calls[u].usage
            &&& second.report.files_skipped == files.len()
            &&& second.report.files_changed == 0
            &&& second.report.bytes_read == 0
            &&& second.report.calls_inserted == 0
            &&& second.report.duplicates_ignored == 0
            &&& second.report.parse_errors == 0
            &&& second.report.legacy_pruned == 0
            &&& second.report.tiers_repaired == 0
            &&& !second.report.repriced
            &&& later_threads == threads ==> second.store == first.store
            &&& ordered(rows) && rows_map(rows) == first.store.calls && ordered(later_rows)
                && rows_map(later_rows) == second.store.calls ==> later_rows.len() == rows.len()
                && usage_sum(row_calls(later_rows)) == usage_sum(row_calls(rows))
        }),
{
    let first = imported(s, home, files, contents, threads, engine, force_full, force_reprice);
    lemma_first_import_in_order(
        s,
        home,
        files,
        contents,
        threads,
        engine,
        force_full,
        force_reprice,
    );
    let f = first.store;
    let rules = engine.codex.rules.deep_view();
    let version = engine.codex.version@;
    law_unchanged_files_change_nothing(
        f,
        home,
        files,
        later_contents,
        later_threads,
        engine,
        rows,
        later_rows,
    );
    if later_threads == threads {
        if let Some(t) = threads {
            let told_files = with_files(
                prepared(s, files.len(), force_full),
                home,
                files,
                contents,
                rules,
                version,
                force_full,
            ).store;
            law_telling_threads_again_changes_nothing(told_files, t);
            assert(f.calls == enriched_store(told_files, t).calls);
            assert(f.threads == enriched_store(told_files, t).threads);
            assert(enriched_store(f, t).calls == f.calls);
            assert(enriched_store(f, t) =~= f);
        }
    }
}

} // verus!
