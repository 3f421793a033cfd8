//! A rebuild against the import that it repeats: a new store that reads its files once, and a full
//! import of the same files after that.
use vstd::prelude::*;

use crate::agreement::law_full_import_agrees_with_scan;
use crate::agreement::identities_tell;
use crate::discovery::relative_to;
use crate::discovery::FileView;
use crate::import::file_context;
use crate::import::file_events;
use crate::import::file_reading;
use crate::import::file_start;
use crate::import::imported;
use crate::import::lemma_events_keep;
use crate::import::lemma_settled_keeps;
use crate::import::prepared;
use crate::import::settled;
use crate::import::with_changed_file;
use crate::import::with_files;
use crate::import::FileInput;
use crate::import::Progress;
use crate::import_laws::law_new_store_is_sorted_out;
use crate::import_laws::names_differ;
use crate::model::usage_sum;
use crate::model::CallView;
use crate::parser::FileContentView;
use crate::pricing::PricingEngine;
use crate::pricing::RuleView;
use crate::repeat::law_backfilling_leaves_a_store_in_order;
use crate::scan::results_of;
use crate::scan::scanned_calls;
use crate::state::ThreadView;
use crate::store::empty_store;
use crate::store::row_calls;
use crate::text_map::ordered;
use crate::text_map::rows_map;
use crate::totals::is_scanned;
use crate::totals::law_full_import_totals_are_those_of_a_scan;
use crate::totals::usages_tell;

verus! {

/// No file is known to the store.
spec fn are_new(p: Progress, files: Seq<FileView>, home: Seq<char>) -> bool {
    forall|k: int|
        0 <= k < files.len() ==> !p.store.checkpoints.contains_key(
            relative_to((#[trigger] files[k]).path, home),
        )
}

/// A file that no checkpoint knows is read from its beginning.
proof fn lemma_new_file_is_read_whole(q: Progress, i: FileInput)
    requires
        i.force_full,
        !q.store.checkpoints.contains_key(i.rel),
    ensures
        with_changed_file(q, FileInput { force_full: false, ..i }) == with_changed_file(q, i),
        forall|rel: Seq<char>|
            rel != i.rel ==> #[trigger] with_changed_file(q, i).store.checkpoints.contains_key(rel)
                == q.store.checkpoints.contains_key(rel),
{
    let new = FileInput { force_full: false, ..i };
    assert(file_start(q.store, new) == file_start(q.store, i));
    assert(file_reading(q.store, new) == file_reading(q.store, i));
    assert(file_context(q.store, new) == file_context(q.store, i));
    assert(file_events(q.store, new) == file_events(q.store, i));
    assert(settled(q, new) == settled(q, i));
    lemma_settled_keeps(q, i);
    lemma_events_keep(settled(q, i), file_context(q.store, i), file_events(q.store, i));
}

/// Files that no checkpoint knows are read from their beginning, whether the import is full or
/// not.
proof fn lemma_new_files_are_read_whole(
    p: Progress,
    home: Seq<char>,
    files: Seq<FileView>,
    contents: Seq<FileContentView>,
    rules: Seq<RuleView>,
    version: Seq<char>,
    later: Seq<FileView>,
)
    requires
        names_differ(files + later, home),
        are_new(p, files + later, home),
    ensures
        with_files(p, home, files, contents, rules, version, false) == with_files(
            p,
            home,
            files,
            contents,
            rules,
            version,
            true,
        ),
        are_new(with_files(p, home, files, contents, rules, version, true), later, home),
    decreases files.len(),
{
    let all = files + later;
    if files.len() == 0 {
        assert(all =~= later);
    } else {
        let (fs, cs, f) = (files.drop_last(), contents.drop_last(), files.last());
        let behind = seq![f] + later;
        assert(fs + behind =~= all);
        lemma_new_files_are_read_whole(p, home, fs, cs, rules, version, behind);
        let q = with_files(p, home, fs, cs, rules, version, true);
        let rel = relative_to(f.path, home);
        assert(behind[0] == f);
        assert(!q.store.checkpoints.contains_key(rel));
        let whole = FileInput {
            rel,
            file: f,
            content: contents.last(),
            rules,
            version,
            force_full: true,
        };
        lemma_new_file_is_read_whole(q, whole);
        let r = with_files(p, home, files, contents, rules, version, true);
        assert forall|k: int| 0 <= k < later.len() implies !r.store.checkpoints.contains_key(
            relative_to((#[trigger] later[k]).path, home),
        ) by {
            assert(behind[k + 1] == later[k]);
            assert(all[files.len() - 1] == f);
            assert(all[files.len() + k] == later[k]);
        }
    }
}

/// The first import into a new store comes to the same as a full one.
proof fn lemma_first_import_is_full(
    home: Seq<char>,
    files: Seq<FileView>,
    contents: Seq<FileContentView>,
    threads: Option<Seq<ThreadView>>,
    engine: PricingEngine,
    force_reprice: bool,
)
    requires
        names_differ(files, home),
    ensures
        imported(empty_store(), home, files, contents, threads, engine, false, force_reprice)
            == imported(empty_store(), home, files, contents, threads, engine, true, force_reprice),
{
    let s = empty_store();
    law_new_store_is_sorted_out();
    law_backfilling_leaves_a_store_in_order(s);
    let p = prepared(s, files.len(), false);
    assert(p == prepared(s, files.len(), true));
    assert(files + Seq::<FileView>::empty() =~= files);
    lemma_new_files_are_read_whole(
        p,
        home,
        files,
        contents,
        engine.codex.rules.deep_view(),
        engine.codex.version@,
        Seq::empty(),
    );
}

/// A new store that has imported files once, and the same store after a full import of the same
/// files, hold the very calls, by their identities, that a scan of the files counts, and as many
/// calls and tokens of each kind: rebuilding changes nothing. This holds wherever identities tell
/// events apart, and their usages.
pub proof fn law_rebuild_repeats_the_first_import(
    home: Seq<char>,
    files: Seq<FileView>,
    contents: Seq<FileContentView>,
    threads: Option<Seq<ThreadView>>,
    engine: PricingEngine,
    force_reprice: bool,
    later_threads: Option<Seq<ThreadView>>,
    later_engine: PricingEngine,
    later_force_reprice: bool,
    u: Seq<char>,
    rows: Seq<(Seq<char>, CallView)>,
    later_rows: Seq<(Seq<char>, CallView)>,
)
    requires
        files.len() == contents.len(),
        names_differ(files, home),
        identities_tell(results_of(contents)),
        usages_tell(results_of(contents)),
    ensures
        ({
            let first = imported(
                empty_store(),
                home,
                files,
                contents,
                threads,
                engine,
                false,
                force_reprice,
            ).store;
            let rebuilt = imported(
                first,
                home,
                files,
                contents,
                later_threads,
                later_engine,
                true,
                later_force_reprice,
            ).store;
            let scanned = scanned_calls(results_of(contents), files);
            &&& first.calls.contains_key(u) <==> is_scanned(results_of(contents), files, u)
            &&& rebuilt.calls.contains_key(u) <==> is_scanned(results_of(contents), files, u)
            &&& rebuilt.calls.dom() == first.calls.dom()
            &&& ordered(rows) && rows_map(rows) == first.calls ==> rows.len() == scanned.len()
                && usage_sum(row_calls(rows)) == usage_sum(scanned)
            &&& ordered(later_rows) && rows_map(later_rows) == rebuilt.calls ==> later_rows.len()
                == scanned.len() && usage_sum(row_calls(later_rows)) == usage_sum(scanned)
        }),
{
    let e = empty_store();
    lemma_first_import_is_full(home, files, contents, threads, engine, force_reprice);
    let first = imported(e, home, files, contents, threads, engine, true, force_reprice).store;
    let rebuilt = imported(
        first,
        home,
        files,
        contents,
        later_threads,
        later_engine,
        true,
        later_force_reprice,
    ).store;
    assert forall|v: Seq<char>|
        rebuilt.calls.contains_key(v) == is_scanned(results_of(contents), files, v)
            && #[trigger] first.calls.contains_key(v) == is_scanned(
            results_of(contents),
            files,
            v,
        ) by {
        law_full_import_agrees_with_scan(
            e,
            home,
            files,
            contents,
            threads,
            engine,
            force_reprice,
            v,
        );
        law_full_import_agrees_with_scan(
            first,
            home,
            files,
            contents,
            later_threads,
            later_engine,
            later_force_reprice,
            v,
        );
    }
    assert(first.calls.contains_key(u) == is_scanned(results_of(contents), files, u));
    assert(rebuilt.calls.dom() =~= first.calls.dom());
    if ordered(rows) && rows_map(rows) == first.calls {
        law_full_import_totals_are_those_of_a_scan(
            e,
            home,
            files,
            contents,
            threads,
            engine,
            force_reprice,
            rows,
        );
    }
    if ordered(later_rows) && rows_map(later_rows) == rebuilt.calls {
        law_full_import_totals_are_those_of_a_scan(
            first,
            home,
            files,
            contents,
            later_threads,
            later_engine,
            later_force_reprice,
            later_rows,
        );
    }
}

} // verus!
