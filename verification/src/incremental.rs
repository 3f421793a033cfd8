//! A store that is kept up to date, import by import, while files come and grow, agrees with a scan
//! of the files as they stand.

use vstd::prelude::*;

use crate::agreement::counts_under;
use crate::agreement::identities_tell;
use crate::agreement::law_full_import_agrees_with_scan;
use crate::agreement::lemma_same_key;
use crate::discovery::relative_to;
use crate::discovery::FileView;
use crate::import::event_call;
use crate::import::file_context;
use crate::import::file_events;
use crate::import::imported;
use crate::import::is_counted;
use crate::import::is_unchanged;
use crate::import::prepared;
use crate::import::settled;
use crate::import::with_changed_file;
use crate::import::with_files;
use crate::import::with_state;
use crate::import::FileInput;
use crate::import::Progress;
use crate::import_laws::is_sorted_out;
use crate::import_laws::law_import_never_mixes_methods;
use crate::import_laws::names_differ;
use crate::model::usage_sum;
use crate::model::CallView;
use crate::model::ModelConfidence;
use crate::model::ResultView;
use crate::model::SourceFormat;
use crate::parser::content_len;
use crate::parser::uid_of;
use crate::parser::FileContentView;
use crate::pricing::PricingEngine;
use crate::pricing::RuleView;
use crate::repeat::is_filed;
use crate::repeat::is_named;
use crate::repeat::law_backfilling_leaves_a_store_in_order;
use crate::scan::call_key;
use crate::scan::candidates;
use crate::scan::covers;
use crate::scan::event_counts;
use crate::scan::file_calls;
use crate::scan::firsts;
use crate::scan::has_call_key;
use crate::scan::is_primary;
use crate::scan::results_of;
use crate::scan::scan_call;
use crate::scan::scanned_calls;
use crate::scan_laws::comes_from;
use crate::scan_laws::lemma_candidates_hold_file;
use crate::stages::is_grown;
use crate::stages::is_loose_in;
use crate::stages::is_noted;
use crate::stages::is_steady;
use crate::stages::lemma_file_input;
use crate::stages::lemma_file_turns;
use crate::stages::lemma_grown;
use crate::stages::lemma_grown_to_itself;
use crate::stages::lemma_stage;
use crate::stages::lemma_steady_before;
use crate::stages::lemma_told_by_nothing;
use crate::stages::only_records;
use crate::stages::rest_told;
use crate::stages::told_by;
use crate::state::ThreadView;
use crate::steps::all_grown;
use crate::steps::any_event;
use crate::steps::are_countable;
use crate::steps::are_sound;
use crate::steps::are_steady;
use crate::steps::count_alike;
use crate::steps::event_at;
use crate::steps::events_tell;
use crate::steps::has_counted;
use crate::steps::has_source;
use crate::steps::ids_stay;
use crate::steps::is_call_at;
use crate::steps::is_covered_now;
use crate::steps::is_event_at;
use crate::steps::is_foremost;
use crate::steps::is_free;
use crate::steps::is_loose;
use crate::steps::is_orderly;
use crate::steps::is_told_of;
use crate::steps::is_up_to;
use crate::steps::lemma_counts_by_session;
use crate::steps::lemma_find_counted;
use crate::steps::lemma_find_source;
use crate::steps::lemma_foremost;
use crate::steps::lemma_free_before;
use crate::steps::lemma_ids_meet;
use crate::steps::lemma_ids_stay;
use crate::steps::lemma_ids_told;
use crate::steps::lemma_marked_alike;
use crate::steps::lemma_new_is_told;
use crate::steps::lemma_one_is_foremost;
use crate::steps::lemma_put_counted;
use crate::steps::lemma_put_source;
use crate::steps::lemma_sessions_alike;
use crate::steps::lemma_settling;
use crate::steps::lemma_step_is_up_to;
use crate::steps::session_at;
use crate::store::empty_store;
use crate::store::row_calls;
use crate::store::StoreView;
use crate::text_map::ordered;
use crate::text_map::rows_map;
use crate::totals::ids_tell;
use crate::totals::is_scanned;
use crate::totals::is_told;
use crate::totals::law_full_import_totals_are_those_of_a_scan;
use crate::totals::lemma_totals_agree;
use crate::totals::usages_tell;

verus! {

/// The bytes of files that could be read.
pub open spec fn bytes_of(contents: Seq<FileContentView>) -> Seq<Seq<u8>> {
    Seq::new(contents.len(), |k: int| contents[k]->Whole_0)
}

/// The files could be read, and are as long as they say.
pub open spec fn are_read(files: Seq<FileView>, contents: Seq<FileContentView>) -> bool {
    files.len() == contents.len() && forall|k: int|
        0 <= k < files.len() ==> (#[trigger] contents[k]) is Whole && files[k].size
            == contents[k]->Whole_0.len()
}

/// The files count: they can be counted by their events, and their events are told apart by their
/// identities.
pub open spec fn are_told_apart(contents: Seq<FileContentView>) -> bool {
    are_countable(bytes_of(contents)) && events_tell(bytes_of(contents))
}

proof fn lemma_results_told(contents: Seq<FileContentView>, k: int)
    requires
        0 <= k < contents.len(),
        contents[k] is Whole,
    ensures
        results_of(contents)[k] == told_by(bytes_of(contents)[k]),
{
    reveal(told_by);
}

/// The first `n` files as they stand, the others as they stood.
spec fn midway(now: Seq<Seq<u8>>, all: Seq<Seq<u8>>, n: nat) -> Seq<Seq<u8>> {
    Seq::new(
        all.len(),
        |k: int|
            if k < n {
                all[k]
            } else {
                now[k]
            },
    )
}

/// On the way through the files, response ids stay what they are in the end.
proof fn lemma_ids_stay_midway(now: Seq<Seq<u8>>, all: Seq<Seq<u8>>, n: nat)
    requires
        all_grown(now, all),
        are_steady(all),
        ids_stay(now, all),
    ensures
        ids_stay(midway(now, all, n), all),
        all_grown(midway(now, all, n), all),
{
    let mid = midway(now, all, n);
    assert forall|k: int| 0 <= k < all.len() implies is_grown(#[trigger] mid[k], all[k]) by {
        assert(is_grown(now[k], all[k]));
        if k < n {
            lemma_grown_to_itself(all[k]);
        }
    }
    assert forall|k: int, j: int, m: int, l: int|
        #![trigger event_at(mid, k, j), event_at(all, m, l)]
        is_event_at(mid, k, j) && is_event_at(all, m, l) && is_foremost(mid, k, j) && is_foremost(
            all,
            m,
            l,
        ) && event_at(mid, k, j).response_id is Some && event_at(mid, k, j).response_id == event_at(
            all,
            m,
            l,
        ).response_id implies uid_of(event_at(mid, k, j)) == uid_of(event_at(all, m, l)) by {
        let rid = event_at(mid, k, j).response_id;
        if k < n {
            assert(is_foremost(all, k, j)) by {
                reveal(is_foremost);
                assert forall|a: int, b: int|
                    is_event_at(all, a, b) && (a < k || a == k && b < j) implies (
                #[trigger] event_at(all, a, b)).response_id != rid by {
                    assert(event_at(mid, a, b) == event_at(all, a, b));
                    assert(is_event_at(mid, a, b));
                }
            }
            lemma_one_is_foremost(all, k, j, m, l);
        } else {
            assert(is_foremost(now, k, j)) by {
                reveal(is_foremost);
                assert forall|a: int, b: int|
                    is_event_at(now, a, b) && (a < k || a == k && b < j) implies (
                #[trigger] event_at(now, a, b)).response_id != rid by {
                    assert(is_grown(now[a], all[a]) && is_steady(all[a]));
                    lemma_stage(now[a], all[a]);
                    assert(event_at(mid, a, b) == event_at(now, a, b));
                    assert(is_event_at(mid, a, b));
                }
            }
            lemma_ids_stay(now, all, k, j, m, l);
        }
    }
    reveal(ids_stay);
}

#[verifier::rlimit(40)]
proof fn lemma_files_are_up_to(
    p: Progress,
    home: Seq<char>,
    files: Seq<FileView>,
    contents: Seq<FileContentView>,
    now: Seq<Seq<u8>>,
    rules: Seq<RuleView>,
    version: Seq<char>,
    n: nat,
)
    requires
        is_up_to(p.store, home, files, now),
        names_differ(files, home),
        are_read(files, contents),
        are_told_apart(contents),
        all_grown(now, bytes_of(contents)),
        ids_stay(now, bytes_of(contents)),
        n <= files.len(),
    ensures
        is_up_to(
            with_files(
                p,
                home,
                files.take(n as int),
                contents.take(n as int),
                rules,
                version,
                false,
            ).store,
            home,
            files,
            midway(now, bytes_of(contents), n),
        ),
    decreases n,
{
    let all = bytes_of(contents);
    if n == 0 {
        assert(midway(now, all, n) =~= now);
    } else {
        let k = n - 1;
        lemma_files_are_up_to(p, home, files, contents, now, rules, version, k as nat);
        let (fs, cs) = (files.take(n as int), contents.take(n as int));
        assert(fs.drop_last() =~= files.take(k));
        assert(cs.drop_last() =~= contents.take(k));
        assert(fs.last() == files[k] && cs.last() == contents[k]);
        let q = with_files(p, home, files.take(k), contents.take(k), rules, version, false);
        let here = midway(now, all, k as nat);
        let next = midway(now, all, n);
        assert(next =~= here.update(k, all[k]));
        let rel = relative_to(files[k].path, home);
        assert(contents[k] is Whole && files[k].size == all[k].len());
        assert(is_grown(now[k], all[k]));
        assert(is_noted(q.store, rel, here[k]));
        if is_unchanged(q.store.checkpoints, rel, files[k]) {
            assert(now[k].len() == all[k].len());
            assert(all[k].take(all[k].len() as int) =~= all[k]);
            assert(next =~= here);
        } else {
            let i = FileInput {
                rel,
                file: files[k],
                content: contents[k],
                rules,
                version,
                force_full: false,
            };
            lemma_ids_stay_midway(now, all, k as nat);
            lemma_ids_stay_midway(now, all, n);
            lemma_step_is_up_to(q, i, home, files, here, all, k);
        }
    }
}

/// In a store that has taken in files that count, no session is marked that is free.
proof fn lemma_up_to_is_sound(
    s: StoreView,
    home: Seq<char>,
    files: Seq<FileView>,
    all: Seq<Seq<u8>>,
)
    requires
        is_up_to(s, home, files, all),
    ensures
        are_sound(all, s.primary_sessions),
{
}

/// In a store that has taken in files that count, every call is filed.
proof fn lemma_up_to_is_filed(
    s: StoreView,
    home: Seq<char>,
    files: Seq<FileView>,
    contents: Seq<FileContentView>,
)
    requires
        is_up_to(s, home, files, bytes_of(contents)),
        are_read(files, contents),
        are_told_apart(contents),
    ensures
        is_filed(s),
{
    let all = bytes_of(contents);
    lemma_up_to_is_sound(s, home, files, all);
    lemma_all_grown_to_themselves(files, contents);
    assert forall|u: Seq<char>| #[trigger]
        s.calls.contains_key(u) implies s.checkpoints.contains_key(s.calls[u].source_file) && s.checkpoints[s.calls[u].source_file].had_primary == (s.calls[u].source_format
        == SourceFormat::TokenUsageRecord) by {
        let c = s.calls[u];
        assert(has_source(c, home, files, all));
        assert(has_counted(s.primary_sessions, all, u));
        let (m, l) = lemma_find_counted(s.primary_sessions, all, u);
        let (k, j) = lemma_find_source(c, home, files, all);
        assert(is_noted(s, relative_to(files[k].path, home), all[k]));
        if !s.checkpoints.contains_key(c.source_file) {
            lemma_told_by_nothing(all[k]);
        }
        let (e, d) = (event_at(all, k, j), event_at(all, m, l));
        assert(uid_of(e) == uid_of(d));
        assert(is_grown(all[k], all[k]) && is_steady(all[k]));
        lemma_stage(all[k], all[k]);
        if c.source_format == SourceFormat::LegacyTokenCount && told_by(all[k]).primary_events > 0 {
            let x = told_by(all[k]).meta.session_id;
            lemma_sessions_alike(all, all, k, j);
            assert(session_at(all, k, j) == x);
            assert(covers(told_by(all[k]), x->0));
            assert(is_covered_now(all, x->0));
            assert(!is_loose(all, event_at(all, k, j).session_id->0));
            assert(s.primary_sessions.contains(x->0));
            lemma_counts_by_session(all, all, s.primary_sessions, m, l);
            lemma_marked_alike(
                all,
                s.primary_sessions,
                session_at(all, k, j),
                session_at(all, m, l),
            );
            assert(false);
        }
    }
}

proof fn lemma_all_grown_to_themselves(files: Seq<FileView>, contents: Seq<FileContentView>)
    requires
        are_read(files, contents),
    ensures
        all_grown(bytes_of(contents), bytes_of(contents)),
{
    let all = bytes_of(contents);
    assert forall|k: int| 0 <= k < all.len() implies is_grown(#[trigger] all[k], all[k]) by {
        assert(contents[k] is Whole && files[k].size == contents[k]->Whole_0.len());
        lemma_grown_to_itself(all[k]);
    }
}

/// The threads leave the store up to the files.
proof fn lemma_state_stays_up_to(
    p: Progress,
    threads: Option<Seq<ThreadView>>,
    home: Seq<char>,
    files: Seq<FileView>,
    now: Seq<Seq<u8>>,
)
    requires
        is_up_to(p.store, home, files, now),
    ensures
        is_up_to(with_state(p, threads).store, home, files, now),
{
    let q = with_state(p, threads).store;
    assert forall|u: Seq<char>| #[trigger]
        q.calls.contains_key(u) <==> has_counted(q.primary_sessions, now, u) by {
        assert(q.calls.contains_key(u) == p.store.calls.contains_key(u));
    }
    assert forall|u: Seq<char>| #[trigger] q.calls.contains_key(u) implies q.calls[u].event_uid == u
        && has_source(q.calls[u], home, files, now) by {
        assert(p.store.calls.contains_key(u));
        let (c, d) = (p.store.calls[u], q.calls[u]);
        assert(has_source(c, home, files, now));
        let (k, j) = lemma_find_source(c, home, files, now);
        assert(d.source_file == c.source_file);
        assert(is_call_at(d, event_at(now, k, j), told_by(now[k]).meta.session_id));
        lemma_put_source(d, home, files, now, k, j);
    }
}

/// The number of the file with a name.
pub open spec fn number_of(files: Seq<FileView>, home: Seq<char>, rel: Seq<char>) -> int {
    choose|k: int| 0 <= k < files.len() && relative_to((#[trigger] files[k]).path, home) == rel
}

/// What was read of each file at the last import; nothing of a new one.
pub open spec fn read_before(
    home: Seq<char>,
    old_files: Seq<FileView>,
    old: Seq<Seq<u8>>,
    files: Seq<FileView>,
) -> Seq<Seq<u8>> {
    Seq::new(
        files.len(),
        |k: int|
            if is_named(old_files, home, relative_to(files[k].path, home)) {
                old[number_of(old_files, home, relative_to(files[k].path, home))]
            } else {
                Seq::empty()
            },
    )
}

/// The files go on from an earlier import: none of them is gone, each has grown, or is new, and a
/// response id that came before goes on standing for the event that it stood for first.
pub open spec fn go_on(
    home: Seq<char>,
    old_files: Seq<FileView>,
    old_contents: Seq<FileContentView>,
    files: Seq<FileView>,
    contents: Seq<FileContentView>,
) -> bool {
    &&& forall|k: int|
        0 <= k < old_files.len() ==> is_named(
            files,
            home,
            relative_to((#[trigger] old_files[k]).path, home),
        )
    &&& all_grown(
        read_before(home, old_files, bytes_of(old_contents), files),
        bytes_of(contents),
    )
    &&& ids_stay(bytes_of(old_contents), bytes_of(contents))
    &&& ids_stay(
        read_before(home, old_files, bytes_of(old_contents), files),
        bytes_of(contents),
    )
}

proof fn lemma_number_of(files: Seq<FileView>, home: Seq<char>, k: int)
    requires
        names_differ(files, home),
        0 <= k < files.len(),
    ensures
        number_of(files, home, relative_to(files[k].path, home)) == k,
        is_named(files, home, relative_to(files[k].path, home)),
{
    let rel = relative_to(files[k].path, home);
    let m = number_of(files, home, rel);
    assert(0 <= m < files.len() && relative_to(files[m].path, home) == rel);
    if m < k {
        assert(relative_to(files[m].path, home) != relative_to(files[k].path, home));
    } else if k < m {
        assert(relative_to(files[k].path, home) != relative_to(files[m].path, home));
    }
}

/// A store that is up to the files of an earlier import is up to what was read before of the files
/// of the next one.
proof fn lemma_up_to_before(
    s: StoreView,
    home: Seq<char>,
    old_files: Seq<FileView>,
    old: Seq<Seq<u8>>,
    files: Seq<FileView>,
    all: Seq<Seq<u8>>,
)
    requires
        is_up_to(s, home, old_files, old),
        all_grown(read_before(home, old_files, old, files), all),
        are_steady(all),
        ids_stay(old, all),
        ids_stay(read_before(home, old_files, old, files), all),
        names_differ(old_files, home),
        names_differ(files, home),
        forall|k: int|
            0 <= k < old_files.len() ==> is_named(
                files,
                home,
                relative_to((#[trigger] old_files[k]).path, home),
            ),
    ensures
        is_up_to(s, home, files, read_before(home, old_files, old, files)),
{
    let now = read_before(home, old_files, old, files);
    assert forall|rel: Seq<char>| #[trigger] s.checkpoints.contains_key(rel) implies is_named(
        files,
        home,
        rel,
    ) by {
        let k = number_of(old_files, home, rel);
        assert(is_named(old_files, home, rel));
        assert(relative_to(old_files[k].path, home) == rel);
    }
    assert forall|k: int| 0 <= k < files.len() implies is_noted(
        s,
        relative_to((#[trigger] files[k]).path, home),
        now[k],
    ) by {
        let rel = relative_to(files[k].path, home);
        if is_named(old_files, home, rel) {
            let m = number_of(old_files, home, rel);
            assert(relative_to(old_files[m].path, home) == rel);
        }
    }
    assert forall|m: int| 0 <= m < old_files.len() implies ({
        let k = number_of(files, home, relative_to((#[trigger] old_files[m]).path, home));
        &&& 0 <= k < files.len()
        &&& relative_to(files[k].path, home) == relative_to(old_files[m].path, home)
        &&& now[k] == old[m]
    }) by {
        lemma_number_of(old_files, home, m);
    }
    assert forall|k: int| 0 <= k < files.len() && told_by(#[trigger] now[k]).raw_calls.len()
        > 0 implies is_named(old_files, home, relative_to(files[k].path, home)) by {
        if !is_named(old_files, home, relative_to(files[k].path, home)) {
            lemma_told_by_nothing(now[k]);
        }
    }
    assert forall|u: Seq<char>| #[trigger]
        s.calls.contains_key(u) <==> has_counted(s.primary_sessions, now, u) by {
        if s.calls.contains_key(u) {
            let (m, j) = lemma_find_counted(s.primary_sessions, old, u);
            let k = number_of(files, home, relative_to(old_files[m].path, home));
            assert(event_at(now, k, j) == event_at(old, m, j));
            if event_at(old, m, j).response_id is Some {
                let (x, y) = lemma_foremost(now, k, j);
                lemma_ids_meet(old, now, all, m, j, x, y);
                lemma_ids_told(now[x]);
                assert(told_by(now[x]).raw_calls[y].source_format
                    == SourceFormat::TokenUsageRecord);
                lemma_put_counted(s.primary_sessions, now, x, y);
            } else {
                reveal(is_foremost);
                lemma_put_counted(s.primary_sessions, now, k, j);
            }
        }
        if has_counted(s.primary_sessions, now, u) {
            let (k, j) = lemma_find_counted(s.primary_sessions, now, u);
            let m = number_of(old_files, home, relative_to(files[k].path, home));
            assert(told_by(now[k]).raw_calls.len() > 0);
            assert(event_at(old, m, j) == event_at(now, k, j));
            if event_at(old, m, j).response_id is Some {
                let (x, y) = lemma_foremost(old, m, j);
                lemma_ids_meet(old, now, all, x, y, k, j);
                lemma_ids_told(old[x]);
                assert(told_by(old[x]).raw_calls[y].source_format
                    == SourceFormat::TokenUsageRecord);
                lemma_put_counted(s.primary_sessions, old, x, y);
            } else {
                reveal(is_foremost);
                lemma_put_counted(s.primary_sessions, old, m, j);
            }
        }
    }
    assert forall|u: Seq<char>| #[trigger] s.calls.contains_key(u) implies s.calls[u].event_uid == u
        && has_source(s.calls[u], home, files, now) by {
        let c = s.calls[u];
        assert(has_source(c, home, old_files, old));
        let (m, j) = lemma_find_source(c, home, old_files, old);
        let k = number_of(files, home, relative_to(old_files[m].path, home));
        assert(event_at(now, k, j) == event_at(old, m, j));
        lemma_put_source(c, home, files, now, k, j);
    }
    assert forall|x: Seq<char>|
        !is_loose(now, x) implies (#[trigger] s.primary_sessions.contains(x) <==> is_covered_now(
        now,
        x,
    )) by {
        if is_loose(old, x) {
            let m = choose|m: int| 0 <= m < old.len() && is_loose_in(#[trigger] old[m], x);
            let k = number_of(files, home, relative_to(old_files[m].path, home));
            assert(is_loose_in(now[k], x));
        }
        if is_covered_now(old, x) {
            let m = choose|m: int| 0 <= m < old.len() && covers(#[trigger] told_by(old[m]), x);
            let k = number_of(files, home, relative_to(old_files[m].path, home));
            assert(covers(told_by(now[k]), x));
        }
        if is_covered_now(now, x) {
            let k = choose|k: int| 0 <= k < now.len() && covers(#[trigger] told_by(now[k]), x);
            if !is_named(old_files, home, relative_to(files[k].path, home)) {
                lemma_told_by_nothing(now[k]);
            }
            let m = number_of(old_files, home, relative_to(files[k].path, home));
            assert(covers(told_by(old[m]), x));
        }
    }
}

/// The store has been kept up to date with the files by imports alone.
pub open spec fn is_current(
    s: StoreView,
    home: Seq<char>,
    files: Seq<FileView>,
    contents: Seq<FileContentView>,
) -> bool {
    &&& is_up_to(s, home, files, bytes_of(contents))
    &&& names_differ(files, home)
    &&& is_filed(s)
    &&& is_sorted_out(s, 0)
}

/// A new store is up to date with no files.
pub proof fn law_new_store_is_current(home: Seq<char>)
    ensures
        is_current(empty_store(), home, Seq::empty(), Seq::empty()),
{
    let s = empty_store();
    let none = bytes_of(Seq::empty());
    assert forall|u: Seq<char>| !has_counted(s.primary_sessions, none, u) by {
        reveal(has_counted);
    }
    assert forall|x: Seq<char>| !is_covered_now(none, x) by {}
}

/// However often files are imported while they come and grow, each import that goes on from the
/// last one keeps the store up to date with them.
pub proof fn law_import_keeps_a_store_current(
    s: StoreView,
    home: Seq<char>,
    old_files: Seq<FileView>,
    old_contents: Seq<FileContentView>,
    files: Seq<FileView>,
    contents: Seq<FileContentView>,
    threads: Option<Seq<ThreadView>>,
    engine: PricingEngine,
    force_reprice: bool,
)
    requires
        is_current(s, home, old_files, old_contents),
        go_on(home, old_files, old_contents, files, contents),
        names_differ(files, home),
        are_read(files, contents),
        are_told_apart(contents),
    ensures
        is_current(
            imported(s, home, files, contents, threads, engine, false, force_reprice).store,
            home,
            files,
            contents,
        ),
{
    let old = bytes_of(old_contents);
    let all = bytes_of(contents);
    let now = read_before(home, old_files, old, files);
    let rules = engine.codex.rules.deep_view();
    let version = engine.codex.version@;
    let n = files.len();
    let p = prepared(s, n, false);
    law_backfilling_leaves_a_store_in_order(s);
    lemma_up_to_before(s, home, old_files, old, files, all);
    lemma_files_are_up_to(p, home, files, contents, now, rules, version, n);
    assert(files.take(n as int) =~= files);
    assert(contents.take(n as int) =~= contents);
    assert(midway(now, all, n) =~= all);
    let q = with_files(p, home, files, contents, rules, version, false);
    lemma_state_stays_up_to(q, threads, home, files, all);
    let r = imported(s, home, files, contents, threads, engine, false, force_reprice).store;
    let t = with_state(q, threads).store;
    assert(r == (StoreView { pricing: r.pricing, meta: r.meta, ..t }));
    assert(is_up_to(r, home, files, all));
    lemma_up_to_is_filed(r, home, files, contents);
    assert forall|k: int| 0 <= k < contents.len() implies content_len(#[trigger] contents[k])
        <= u64::MAX by {
        assert(files[k].size == contents[k]->Whole_0.len());
    }
    law_import_never_mixes_methods(
        s,
        home,
        files,
        contents,
        threads,
        engine,
        false,
        force_reprice,
        0,
    );
}

/// The first calls of each key have all keys.
proof fn lemma_firsts_have_keys(calls: Seq<CallView>, key: Seq<char>)
    requires
        has_call_key(calls, key),
    ensures
        has_call_key(firsts(calls), key),
    decreases calls.len(),
{
    let init = calls.drop_last();
    let i = choose|i: int| 0 <= i < calls.len() && call_key(#[trigger] calls[i]) == key;
    if i < init.len() {
        assert(call_key(init[i]) == key);
    }
    if has_call_key(init, key) {
        lemma_firsts_have_keys(init, key);
        let j = choose|j: int| 0 <= j < firsts(init).len() && call_key(#[trigger] firsts(init)[j])
            == key;
        assert(firsts(calls)[j] == firsts(init)[j]);
    } else {
        assert(firsts(calls)[firsts(init).len() as int] == calls.last());
    }
}

proof fn lemma_file_calls_hold(
    results: Seq<ResultView>,
    r: ResultView,
    f: FileView,
    n: nat,
    j: int,
) -> (x: int)
    requires
        0 <= j < n <= r.raw_calls.len(),
        event_counts(results, r, r.raw_calls[j]),
    ensures
        0 <= x < file_calls(results, r, f, n).len(),
        file_calls(results, r, f, n)[x] == scan_call(r, f, r.raw_calls[j]),
    decreases n,
{
    let init = file_calls(results, r, f, (n - 1) as nat);
    if j == n - 1 {
        init.len() as int
    } else {
        lemma_file_calls_hold(results, r, f, (n - 1) as nat, j)
    }
}

/// The calls that count of the first `k` files and of the first `n` events of the next one.
spec fn calls_until(results: Seq<ResultView>, files: Seq<FileView>, k: nat, n: nat) -> Seq<
    CallView,
> {
    candidates(results, files, k) + file_calls(results, results[k as int], files[k as int], n)
}

/// A call that is the first of its key comes from a foremost event.
proof fn lemma_first_calls_lead(
    all: Seq<Seq<u8>>,
    results: Seq<ResultView>,
    files: Seq<FileView>,
    k: nat,
    n: nat,
    i: int,
) -> (at: (int, int))
    requires
        are_results(all, results),
        k < results.len(),
        n <= results[k as int].raw_calls.len(),
        0 <= i < firsts(calls_until(results, files, k, n)).len(),
    ensures
        comes_from(
            results,
            files,
            firsts(calls_until(results, files, k, n))[i],
            at.0,
            at.1,
        ),
        is_foremost(all, at.0, at.1),
    decreases k, n,
{
    let list = calls_until(results, files, k, n);
    let r = results[k as int];
    let f = files[k as int];
    if n == 0 {
        assert(list =~= candidates(results, files, k));
        if k == 0 {
            assert(list.len() == 0);
            (0, 0)
        } else {
            let m = (k - 1) as nat;
            assert(list =~= calls_until(
                results,
                files,
                m,
                results[m as int].raw_calls.len(),
            ));
            lemma_first_calls_lead(all, results, files, m, results[m as int].raw_calls.len(), i)
        }
    } else {
        let m = (n - 1) as nat;
        let e = r.raw_calls[m as int];
        let c = scan_call(r, f, e);
        let init = calls_until(results, files, k, m);
        if !event_counts(results, r, e) {
            assert(list =~= init);
            lemma_first_calls_lead(all, results, files, k, m, i)
        } else {
            assert(list =~= init.push(c));
            assert(list.drop_last() =~= init);
            if i < firsts(init).len() {
                lemma_first_calls_lead(all, results, files, k, m, i)
            } else {
                assert(!has_call_key(init, call_key(c)));
                assert(event_at(all, k as int, m as int) == e);
                if !is_foremost(all, k as int, m as int) {
                    assert(e.response_id is Some) by {
                        reveal(is_foremost);
                    }
                    let (a, b) = lemma_foremost(all, k as int, m as int);
                    assert(!(a == k && b == m));
                    let (o, g) = (results[a], files[a]);
                    assert(o == told_by(all[a]));
                    lemma_ids_told(all[a]);
                    let d = scan_call(o, g, o.raw_calls[b]);
                    assert(o.raw_calls[b].response_id == e.response_id);
                    assert(event_counts(results, o, o.raw_calls[b]));
                    lemma_same_key(c, d);
                    if a == k {
                        let x = lemma_file_calls_hold(results, r, f, m, b);
                        assert(init[candidates(results, files, k).len() + x] == d);
                    } else {
                        let x = lemma_file_calls_hold(results, o, g, o.raw_calls.len(), b);
                        lemma_candidates_hold_file(results, files, k, a, x);
                        let before = candidates(results, files, k);
                        assert(has_call_key(before, call_key(c)));
                        let y = choose|y: int|
                            0 <= y < before.len() && call_key(#[trigger] before[y]) == call_key(c);
                        assert(init[y] == before[y]);
                    }
                    assert(false);
                }
                (k as int, m as int)
            }
        }
    }
}

/// Every call of a scan comes from a foremost event.
proof fn lemma_scanned_leads(
    all: Seq<Seq<u8>>,
    results: Seq<ResultView>,
    files: Seq<FileView>,
    i: int,
) -> (at: (int, int))
    requires
        are_results(all, results),
        0 <= i < scanned_calls(results, files).len(),
    ensures
        comes_from(results, files, scanned_calls(results, files)[i], at.0, at.1),
        is_foremost(all, at.0, at.1),
{
    let n = results.len();
    if n == 0 {
        (0, 0)
    } else {
        let k = (n - 1) as nat;
        assert(candidates(results, files, n) =~= calls_until(
            results,
            files,
            k,
            results[k as int].raw_calls.len(),
        ));
        lemma_first_calls_lead(all, results, files, k, results[k as int].raw_calls.len(), i)
    }
}

/// Every foremost event that counts has its identity among the calls of a scan.
proof fn lemma_counted_is_scanned(
    all: Seq<Seq<u8>>,
    results: Seq<ResultView>,
    files: Seq<FileView>,
    k: int,
    j: int,
)
    requires
        are_results(all, results),
        0 <= k < results.len(),
        0 <= j < results[k].raw_calls.len(),
        event_counts(results, results[k], results[k].raw_calls[j]),
        is_foremost(all, k, j),
    ensures
        is_scanned(results, files, uid_of(results[k].raw_calls[j])),
{
    let r = results[k];
    let e = r.raw_calls[j];
    let found = candidates(results, files, results.len());
    let calls = scanned_calls(results, files);
    let x = lemma_file_calls_hold(results, r, files[k], r.raw_calls.len(), j);
    lemma_candidates_hold_file(results, files, results.len(), k, x);
    let c = scan_call(r, files[k], e);
    lemma_firsts_have_keys(found, call_key(c));
    let i = choose|i: int| 0 <= i < calls.len() && call_key(#[trigger] calls[i]) == call_key(c);
    lemma_same_key(calls[i], c);
    if c.response_id is Some {
        let (m, l) = lemma_scanned_leads(all, results, files, i);
        assert(results[m] == told_by(all[m]) && results[k] == told_by(all[k]));
        lemma_one_is_foremost(all, k, j, m, l);
    }
    assert(calls[i].event_uid == uid_of(e));
}

/// What the files tell.
spec fn are_results(all: Seq<Seq<u8>>, results: Seq<ResultView>) -> bool {
    results.len() == all.len() && forall|m: int|
        0 <= m < all.len() ==> #[trigger] results[m] == told_by(all[m])
}

proof fn lemma_are_results(files: Seq<FileView>, contents: Seq<FileContentView>)
    requires
        are_read(files, contents),
    ensures
        are_results(bytes_of(contents), results_of(contents)),
{
    let (all, results) = (bytes_of(contents), results_of(contents));
    assert forall|m: int| 0 <= m < all.len() implies #[trigger] results[m] == told_by(all[m]) by {
        assert(contents[m] is Whole);
        lemma_results_told(contents, m);
    }
}

/// Whether an event counts is the same to a store that is up to the files as to a scan of them.
proof fn lemma_counts_alike(
    s: StoreView,
    home: Seq<char>,
    files: Seq<FileView>,
    contents: Seq<FileContentView>,
    k: int,
    j: int,
)
    requires
        is_up_to(s, home, files, bytes_of(contents)),
        are_read(files, contents),
        are_told_apart(contents),
        is_event_at(bytes_of(contents), k, j),
    ensures
        results_of(contents)[k].raw_calls[j] == event_at(bytes_of(contents), k, j),
        j < results_of(contents)[k].raw_calls.len(),
        counts_under(
            s.primary_sessions,
            told_by(bytes_of(contents)[k]),
            event_at(bytes_of(contents), k, j),
        ) <==> event_counts(
            results_of(contents),
            results_of(contents)[k],
            results_of(contents)[k].raw_calls[j],
        ),
{
    let all = bytes_of(contents);
    let results = results_of(contents);
    lemma_are_results(files, contents);
    assert(results[k] == told_by(all[k]));
    let e = results[k].raw_calls[j];
    if e.source_format == SourceFormat::LegacyTokenCount {
        lemma_all_grown_to_themselves(files, contents);
        lemma_sessions_alike(all, all, k, j);
        let session = session_at(all, k, j);
        if session is Some {
            let x = session->0;
            if e.session_id is None {
                assert(is_free(all, x));
            } else {
                assert(!is_loose(all, event_at(all, k, j).session_id->0));
            }
            if is_covered_now(all, x) {
                let m = choose|m: int| 0 <= m < all.len() && covers(#[trigger] told_by(all[m]), x);
                assert(covers(results[m], x));
            }
            if is_primary(results, x) {
                let m = choose|m: int| 0 <= m < results.len() && covers(#[trigger] results[m], x);
                assert(covers(told_by(all[m]), x));
            }
        }
    }
}

/// A store that imports have kept up to date holds the very calls, by their identities, that a scan
/// of the files counts.
pub proof fn law_current_store_agrees_with_scan(
    s: StoreView,
    home: Seq<char>,
    files: Seq<FileView>,
    contents: Seq<FileContentView>,
    u: Seq<char>,
)
    requires
        is_current(s, home, files, contents),
        are_read(files, contents),
        are_told_apart(contents),
    ensures
        s.calls.contains_key(u) <==> is_scanned(results_of(contents), files, u),
{
    let all = bytes_of(contents);
    let results = results_of(contents);
    lemma_are_results(files, contents);
    if s.calls.contains_key(u) {
        let (k, j) = lemma_find_counted(s.primary_sessions, all, u);
        lemma_counts_alike(s, home, files, contents, k, j);
        assert(results[k] == told_by(all[k]));
        lemma_counted_is_scanned(all, results, files, k, j);
    }
    if is_scanned(results, files, u) {
        let calls = scanned_calls(results, files);
        let i = choose|i: int| 0 <= i < calls.len() && (#[trigger] calls[i]).event_uid == u;
        let (k, j) = lemma_scanned_leads(all, results, files, i);
        assert(results[k] == told_by(all[k]));
        lemma_counts_alike(s, home, files, contents, k, j);
        assert(uid_of(event_at(all, k, j)) == u);
        lemma_put_counted(s.primary_sessions, all, k, j);
    }
}

/// A store that imports have kept up to date holds as many calls, and as many tokens of each kind,
/// as a scan of the files counts.
pub proof fn law_current_totals_are_those_of_a_scan(
    s: StoreView,
    home: Seq<char>,
    files: Seq<FileView>,
    contents: Seq<FileContentView>,
    rows: Seq<(Seq<char>, CallView)>,
)
    requires
        is_current(s, home, files, contents),
        are_read(files, contents),
        are_told_apart(contents),
        usages_tell(results_of(contents)),
        ordered(rows),
        rows_map(rows) == s.calls,
    ensures
        rows.len() == scanned_calls(results_of(contents), files).len(),
        usage_sum(row_calls(rows)) == usage_sum(scanned_calls(results_of(contents), files)),
{
    let all = bytes_of(contents);
    let results = results_of(contents);
    assert forall|u: Seq<char>| #[trigger] s.calls.contains_key(u) implies s.calls[u].event_uid == u
        && is_told(results, u, s.calls[u].usage) by {
        let c = s.calls[u];
        assert(has_source(c, home, files, all));
        let (k, j) = lemma_find_source(c, home, files, all);
        assert(contents[k] is Whole);
        lemma_results_told(contents, k);
        assert(results[k].raw_calls[j] == event_at(all, k, j));
    }
    assert forall|u: Seq<char>| #[trigger] s.calls.contains_key(u) <==> is_scanned(
        results,
        files,
        u,
    ) by {
        law_current_store_agrees_with_scan(s, home, files, contents, u);
    }
    assert(ids_tell(results)) by {
        lemma_are_results(files, contents);
        assert forall|i: int, j: int, k: int, l: int|
            #![trigger results[i].raw_calls[j], results[k].raw_calls[l]]
            0 <= i < results.len() && 0 <= j < results[i].raw_calls.len() && 0 <= k < results.len()
                && 0 <= l < results[k].raw_calls.len() && uid_of(results[i].raw_calls[j]) == uid_of(
                results[k].raw_calls[l],
            ) implies results[i].raw_calls[j].response_id == results[k].raw_calls[l].response_id by {
            assert(results[i] == told_by(all[i]) && results[k] == told_by(all[k]));
            assert(event_at(all, i, j) == results[i].raw_calls[j]);
            assert(event_at(all, k, l) == results[k].raw_calls[l]);
        }
    }
    lemma_totals_agree(s.calls, rows, results, files);
}

/// Importing files, and importing them again once some have grown and others have come, leaves the
/// very calls and the totals of a scan of the files as they then stand. Identities tell the events
/// of the files apart; response ids may come again in a file and in others, as long as one that was
/// there at the first import goes on standing for the event that it stood for first. Each file
/// either has no legacy events, or its headers agree, come before its legacy events unless nothing
/// covers the session, and name the session where the file has usage records as well; and no legacy
/// event is of a session that headers name which do not agree. A line that was taken without its
/// line feed goes on with nothing but blanks and a line end.
pub proof fn law_incremental_import_agrees_with_scan(
    home: Seq<char>,
    old_files: Seq<FileView>,
    old_contents: Seq<FileContentView>,
    old_threads: Option<Seq<ThreadView>>,
    files: Seq<FileView>,
    contents: Seq<FileContentView>,
    threads: Option<Seq<ThreadView>>,
    engine: PricingEngine,
    u: Seq<char>,
    rows: Seq<(Seq<char>, CallView)>,
)
    requires
        names_differ(old_files, home),
        names_differ(files, home),
        are_read(old_files, old_contents),
        are_read(files, contents),
        go_on(home, old_files, old_contents, files, contents),
        are_told_apart(contents),
        usages_tell(results_of(contents)),
    ensures
        ({
            let first = imported(
                empty_store(),
                home,
                old_files,
                old_contents,
                old_threads,
                engine,
                false,
                false,
            );
            let second = imported(
                first.store,
                home,
                files,
                contents,
                threads,
                engine,
                false,
                false,
            );
            let scanned = scanned_calls(results_of(contents), files);
            &&& second.store.calls.contains_key(u) <==> exists|i: int|
                0 <= i < scanned.len() && (#[trigger] scanned[i]).event_uid == u
            &&& ordered(rows) && rows_map(rows) == second.store.calls ==> rows.len()
                == scanned.len() && usage_sum(row_calls(rows)) == usage_sum(scanned)
        }),
{
    let first = imported(
        empty_store(),
        home,
        old_files,
        old_contents,
        old_threads,
        engine,
        false,
        false,
    );
    law_new_store_is_current(home);
    lemma_starts_afresh(home, old_files, old_contents);
    lemma_old_told_apart(home, old_files, old_contents, files, contents);
    law_import_keeps_a_store_current(
        empty_store(),
        home,
        Seq::empty(),
        Seq::empty(),
        old_files,
        old_contents,
        old_threads,
        engine,
        false,
    );
    law_import_keeps_a_store_current(
        first.store,
        home,
        old_files,
        old_contents,
        files,
        contents,
        threads,
        engine,
        false,
    );
    let second = imported(first.store, home, files, contents, threads, engine, false, false);
    law_current_store_agrees_with_scan(second.store, home, files, contents, u);
    if ordered(rows) && rows_map(rows) == second.store.calls {
        law_current_totals_are_those_of_a_scan(second.store, home, files, contents, rows);
    }
}

/// Files that are imported for the first time go on from nothing.
proof fn lemma_starts_afresh(
    home: Seq<char>,
    files: Seq<FileView>,
    contents: Seq<FileContentView>,
)
    requires
        are_read(files, contents),
    ensures
        go_on(home, Seq::empty(), Seq::empty(), files, contents),
{
    let now = read_before(home, Seq::empty(), bytes_of(Seq::empty()), files);
    let all = bytes_of(contents);
    assert forall|k: int| 0 <= k < all.len() implies is_grown(#[trigger] now[k], all[k]) by {
        assert(contents[k] is Whole && files[k].size == contents[k]->Whole_0.len());
        assert(now[k].len() == 0);
        lemma_told_by_nothing(now[k]);
        assert(now[k] =~= all[k].take(0));
    }
    assert forall|k: int, j: int| !(#[trigger] is_event_at(now, k, j)) by {
        if 0 <= k < now.len() {
            lemma_told_by_nothing(now[k]);
        }
    }
    reveal(ids_stay);
}

/// Where the events of files are told apart, so are those of the files before they grew.
proof fn lemma_old_told_apart(
    home: Seq<char>,
    old_files: Seq<FileView>,
    old_contents: Seq<FileContentView>,
    files: Seq<FileView>,
    contents: Seq<FileContentView>,
)
    requires
        names_differ(old_files, home),
        are_read(old_files, old_contents),
        are_read(files, contents),
        go_on(home, old_files, old_contents, files, contents),
        are_told_apart(contents),
    ensures
        are_told_apart(old_contents),
{
    let (old, all) = (bytes_of(old_contents), bytes_of(contents));
    let now = read_before(home, old_files, old, files);
    let at = |m: int| number_of(files, home, relative_to(old_files[m].path, home));
    assert forall|m: int| 0 <= m < old.len() implies 0 <= at(m) < all.len() && #[trigger] old[m]
        == now[at(m)] && is_grown(old[m], all[at(m)]) && is_steady(all[at(m)]) by {
        lemma_number_of(old_files, home, m);
        assert(is_named(files, home, relative_to(old_files[m].path, home)));
        let k = at(m);
        assert(relative_to(files[k].path, home) == relative_to(old_files[m].path, home));
        assert(now[k] == old[m]);
        assert(is_grown(now[k], all[k]));
        assert(is_steady(all[k]));
    }
    assert forall|x: Seq<char>| #[trigger] is_free(all, x) implies is_free(old, x) by {
        lemma_free_before(now, all, x);
        if is_loose(old, x) {
            let m = choose|m: int| 0 <= m < old.len() && is_loose_in(#[trigger] old[m], x);
            assert(is_loose_in(now[at(m)], x));
        }
        if is_covered_now(old, x) {
            let m = choose|m: int| 0 <= m < old.len() && covers(#[trigger] told_by(old[m]), x);
            assert(old[m] == now[at(m)]);
            assert(covers(told_by(now[at(m)]), x));
        }
    }
    assert forall|m: int| 0 <= m < old.len() implies is_steady(#[trigger] old[m]) by {
        lemma_steady_before(old[m], all[at(m)]);
    }
    assert forall|m: int, j: int| is_event_at(old, m, j) implies is_event_at(all, at(m), j)
        && event_at(all, at(m), j) == #[trigger] event_at(old, m, j) by {
        assert(old[m] == now[at(m)]);
        lemma_stage(old[m], all[at(m)]);
        assert(told_by(old[m]).raw_calls[j] == told_by(all[at(m)]).raw_calls[j]);
    }
    assert forall|m: int, j: int|
        is_event_at(old, m, j) && (#[trigger] event_at(old, m, j)).source_format
            == SourceFormat::LegacyTokenCount implies count_alike(
        all,
        session_at(old, m, j),
        session_at(all, at(m), j),
    ) && (event_at(old, m, j).session_id is None || event_at(old, m, j).session_id == told_by(
        old[m],
    ).meta.session_id) && count_alike(
        old,
        event_at(old, m, j).session_id,
        told_by(old[m]).meta.session_id,
    ) && (told_by(old[m]).primary_events > 0 ==> told_by(old[m]).meta.session_id is Some) by {
        assert(old[m] == now[at(m)]);
        assert(event_at(now, at(m), j) == event_at(old, m, j));
        lemma_sessions_alike(now, all, at(m), j);
        lemma_stage(old[m], all[at(m)]);
        assert(told_by(old[m]).raw_calls[j] == event_at(old, m, j));
    }
    assert forall|m: int| 0 <= m < old.len() implies #[trigger] is_orderly(old, m) by {
        let r = told_by(old[m]);
        assert forall|j: int|
            0 <= j < r.raw_calls.len() && (#[trigger] r.raw_calls[j]).source_format
                == SourceFormat::LegacyTokenCount implies count_alike(
            old,
            r.raw_calls[j].session_id,
            r.meta.session_id,
        ) && (r.primary_events > 0 ==> r.meta.session_id is Some) by {
            assert(event_at(old, m, j) == r.raw_calls[j]);
        }
        if !only_records(old[m]) {
            let j = choose|j: int|
                0 <= j < told_by(old[m]).raw_calls.len() && (
                #[trigger] told_by(old[m]).raw_calls[j]).source_format
                    != SourceFormat::TokenUsageRecord;
            assert(r.raw_calls[j].source_format == SourceFormat::LegacyTokenCount);
        }
    }
    assert forall|m: int, j: int|
        is_event_at(old, m, j) && (#[trigger] event_at(old, m, j)).source_format
            == SourceFormat::LegacyTokenCount && event_at(old, m, j).session_id is Some
        implies !is_loose(old, event_at(old, m, j).session_id->0) by {
        let x = event_at(old, m, j).session_id->0;
        assert(event_at(all, at(m), j) == event_at(old, m, j));
        if is_loose(old, x) {
            let l = choose|l: int| 0 <= l < old.len() && is_loose_in(#[trigger] old[l], x);
            assert(is_grown(old[l], all[at(l)]));
            lemma_grown(old[l], all[at(l)]);
            assert(is_loose_in(all[at(l)], x));
        }
    }
    assert(are_countable(old));
    assert forall|i: int, j: int, k: int, l: int|
        #![trigger event_at(old, i, j), event_at(old, k, l)]
        is_event_at(old, i, j) && is_event_at(old, k, l) && uid_of(event_at(old, i, j)) == uid_of(
            event_at(old, k, l),
        ) implies {
        let (e, d) = (event_at(old, i, j), event_at(old, k, l));
        &&& e.response_id == d.response_id
        &&& e.source_format == d.source_format
        &&& e.source_format == SourceFormat::LegacyTokenCount ==> count_alike(
            old,
            session_at(old, i, j),
            session_at(old, k, l),
        )
    } by {
        assert(event_at(all, at(i), j) == event_at(old, i, j));
        assert(event_at(all, at(k), l) == event_at(old, k, l));
        if event_at(old, i, j).source_format == SourceFormat::LegacyTokenCount {
            assert(count_alike(all, session_at(old, i, j), session_at(all, at(i), j)));
            assert(count_alike(all, session_at(old, k, l), session_at(all, at(k), l)));
            assert(count_alike(all, session_at(old, i, j), session_at(old, k, l)));
        }
    }
}

/// A turn keeps its model over the checkpoint: an event behind it, whose turn was told before it
/// and not again, is stored with the model of that turn, which is exact.
pub proof fn law_resumed_event_keeps_its_model(
    p: Progress,
    i: FileInput,
    a: Seq<u8>,
    b: Seq<u8>,
    j: int,
)
    requires
        !i.force_full,
        i.content == FileContentView::Whole(b),
        i.file.size == b.len(),
        is_grown(a, b),
        is_steady(b),
        is_noted(p.store, i.rel, a),
        told_by(a).raw_calls.len() <= j < told_by(b).raw_calls.len(),
        ({
            let e = told_by(b).raw_calls[j];
            &&& e.turn_id is Some
            &&& told_by(a).turn_models.contains_key(e.turn_id->0)
            &&& !rest_told(a, b).turn_models.contains_key(e.turn_id->0)
            &&& !p.store.calls.contains_key(uid_of(e))
            &&& with_changed_file(p, i).store.calls.contains_key(uid_of(e))
            &&& forall|l: int|
                0 <= l < told_by(b).raw_calls.len() && uid_of(#[trigger] told_by(b).raw_calls[l])
                    == uid_of(e) ==> told_by(b).raw_calls[l].turn_id == e.turn_id
        }),
    ensures
        ({
            let e = told_by(b).raw_calls[j];
            let c = with_changed_file(p, i).store.calls[uid_of(e)];
            &&& c.model_slug == Some(told_by(a).turn_models[e.turn_id->0])
            &&& c.model_confidence == ModelConfidence::Exact
        }),
{
    lemma_file_input(p, i, a, b);
    lemma_settling(p, i);
    let s = settled(p, i);
    let x = file_context(p.store, i);
    let events = file_events(p.store, i);
    let e = told_by(b).raw_calls[j];
    let c = with_changed_file(p, i).store.calls[uid_of(e)];
    lemma_new_is_told(s, x, events, uid_of(e));
    reveal(is_told_of);
    let lead = any_event();
    let t = choose|t: int|
        0 <= t < events.len() && lead(t) && is_counted(s.store, x, #[trigger] events[t]) && c == (
        CallView { service_tier: c.service_tier, ..event_call(s.store, x, events[t]) });
    let l = told_by(a).raw_calls.len() + t;
    assert(told_by(b).raw_calls[l] == events[t]);
    lemma_file_turns(p, i, a, b);
}

/// A full import of the files that a store is up to date with changes neither which calls there
/// are nor what they come to.
pub proof fn law_full_rebuild_keeps_the_calls(
    s: StoreView,
    home: Seq<char>,
    files: Seq<FileView>,
    contents: Seq<FileContentView>,
    threads: Option<Seq<ThreadView>>,
    engine: PricingEngine,
    force_reprice: bool,
    rows: Seq<(Seq<char>, CallView)>,
    later_rows: Seq<(Seq<char>, CallView)>,
)
    requires
        is_current(s, home, files, contents),
        are_read(files, contents),
        are_told_apart(contents),
        identities_tell(results_of(contents)),
        usages_tell(results_of(contents)),
        ordered(rows),
        rows_map(rows) == s.calls,
    ensures
        ({
            let rebuilt = imported(
                s,
                home,
                files,
                contents,
                threads,
                engine,
                true,
                force_reprice,
            ).store;
            &&& rebuilt.calls.dom() == s.calls.dom()
            &&& ordered(later_rows) && rows_map(later_rows) == rebuilt.calls ==> later_rows.len()
                == rows.len() && usage_sum(row_calls(later_rows)) == usage_sum(row_calls(rows))
        }),
{
    let rebuilt = imported(
        s,
        home,
        files,
        contents,
        threads,
        engine,
        true,
        force_reprice,
    ).store;
    assert forall|u: Seq<char>| rebuilt.calls.contains_key(u) == #[trigger] s.calls.contains_key(
        u,
    ) by {
        law_full_import_agrees_with_scan(
            s,
            home,
            files,
            contents,
            threads,
            engine,
            force_reprice,
            u,
        );
        law_current_store_agrees_with_scan(s, home, files, contents, u);
    }
    assert(rebuilt.calls.dom() =~= s.calls.dom());
    law_current_totals_are_those_of_a_scan(s, home, files, contents, rows);
    if ordered(later_rows) && rows_map(later_rows) == rebuilt.calls {
        law_full_import_totals_are_those_of_a_scan(
            s,
            home,
            files,
            contents,
            threads,
            engine,
            force_reprice,
            later_rows,
        );
    }
}

} // verus!
